//! The per-article manifest: a text file of newline-delimited `key = value`
//! pairs. Exactly the keys `title`, `date`, `picture` and `page` are
//! recognized; a line without `=` is ignored; when a key repeats, the last
//! occurrence wins; a record without a title (empty after trimming) is no
//! article at all.

use vstd::prelude::*;

use crate::text::{bytes_eq, find_byte, find_byte_in, lines, lines_spec, trim, trim_spec};

verus! {

/// The fields a manifest file can set, all initially empty.
pub struct Manifest {
    pub title: Vec<u8>,
    pub date: Vec<u8>,
    pub picture: Vec<u8>,
    pub page: Vec<u8>,
}

/// The mathematical image of a `Manifest`.
pub struct ManifestView {
    pub title: Seq<u8>,
    pub date: Seq<u8>,
    pub picture: Seq<u8>,
    pub page: Seq<u8>,
}

impl View for Manifest {
    type V = ManifestView;

    open spec fn view(&self) -> ManifestView {
        ManifestView {
            title: self.title@,
            date: self.date@,
            picture: self.picture@,
            page: self.page@,
        }
    }
}

/// The bytes of the key `title`.
pub open spec fn key_title() -> Seq<u8> {
    seq![116u8, 105u8, 116u8, 108u8, 101u8]
}

/// The bytes of the key `date`.
pub open spec fn key_date() -> Seq<u8> {
    seq![100u8, 97u8, 116u8, 101u8]
}

/// The bytes of the key `picture`.
pub open spec fn key_picture() -> Seq<u8> {
    seq![112u8, 105u8, 99u8, 116u8, 117u8, 114u8, 101u8]
}

/// The bytes of the key `page`.
pub open spec fn key_page() -> Seq<u8> {
    seq![112u8, 97u8, 103u8, 101u8]
}

/// A manifest with every field empty.
pub open spec fn empty_manifest() -> ManifestView {
    ManifestView { title: seq![], date: seq![], picture: seq![], page: seq![] }
}

/// One line applied to the record built so far: the part before the first
/// `=` names the field, the part after it is the value, both trimmed of
/// ASCII whitespace; a line without `=` or with an unknown key changes
/// nothing.
pub open spec fn apply_line(m: ManifestView, line: Seq<u8>) -> ManifestView {
    match find_byte(line, 61) {
        None => m,
        Some(i) => {
            let key = trim_spec(line.take(i));
            let value = trim_spec(line.skip(i + 1));
            if key == key_title() {
                ManifestView { title: value, ..m }
            } else if key == key_date() {
                ManifestView { date: value, ..m }
            } else if key == key_picture() {
                ManifestView { picture: value, ..m }
            } else if key == key_page() {
                ManifestView { page: value, ..m }
            } else {
                m
            }
        },
    }
}

/// The lines applied in order, so a later occurrence of a key wins.
pub open spec fn manifest_of_lines(ls: Seq<Seq<u8>>) -> ManifestView
    decreases ls.len(),
{
    if ls.len() == 0 {
        empty_manifest()
    } else {
        apply_line(manifest_of_lines(ls.drop_last()), ls.last())
    }
}

/// What a manifest file's bytes denote: the folded record when its title is
/// non-empty, and nothing otherwise.
pub open spec fn parse_manifest_spec(content: Seq<u8>) -> Option<ManifestView> {
    let m = manifest_of_lines(lines_spec(content));
    if m.title.len() == 0 {
        None
    } else {
        Some(m)
    }
}

/// Parses a manifest file. Returns the record exactly when the parsed title
/// is non-empty; a titleless folder holds no article.
pub fn parse_manifest(content: &[u8]) -> (r: Option<Manifest>)
    ensures
        match r {
            Some(m) => parse_manifest_spec(content@) == Some(m@),
            None => parse_manifest_spec(content@) is None,
        },
{
    let ls = lines(content);
    let mut m = Manifest {
        title: Vec::new(),
        date: Vec::new(),
        picture: Vec::new(),
        page: Vec::new(),
    };
    let mut i: usize = 0;
    while i < ls.len()
        invariant
            0 <= i <= ls.len(),
            ls.deep_view() == lines_spec(content@),
            m@ == manifest_of_lines(ls.deep_view().take(i as int)),
        decreases ls.len() - i,
    {
        let ghost pre = m@;
        let line = &ls[i];
        let ghost lv = ls.deep_view()[i as int];
        proof {
            assert(lv == line@);
        }
        match find_byte_in(line.as_slice(), 61) {
            None => {},
            Some(p) => {
                proof {
                    crate::text::lemma_find_byte(line@, 61);
                }
                let key = trim(vstd::slice::slice_subrange(line.as_slice(), 0, p));
                let n = line.len();
                let raw_value = vstd::slice::slice_subrange(line.as_slice(), p + 1, n);
                proof {
                    assert(line@.subrange(0, p as int) =~= lv.take(p as int));
                    assert(raw_value@ =~= lv.skip(p as int + 1));
                }
                let lit_title = vec![116u8, 105u8, 116u8, 108u8, 101u8];
                let lit_date = vec![100u8, 97u8, 116u8, 101u8];
                let lit_picture = vec![112u8, 105u8, 99u8, 116u8, 117u8, 114u8, 101u8];
                let lit_page = vec![112u8, 97u8, 103u8, 101u8];
                proof {
                    assert(lit_title@ =~= key_title());
                    assert(lit_date@ =~= key_date());
                    assert(lit_picture@ =~= key_picture());
                    assert(lit_page@ =~= key_page());
                }
                if bytes_eq(key.as_slice(), lit_title.as_slice()) {
                    m.title = trim(raw_value);
                } else if bytes_eq(key.as_slice(), lit_date.as_slice()) {
                    m.date = trim(raw_value);
                } else if bytes_eq(key.as_slice(), lit_picture.as_slice()) {
                    m.picture = trim(raw_value);
                } else if bytes_eq(key.as_slice(), lit_page.as_slice()) {
                    m.page = trim(raw_value);
                }
            },
        }
        proof {
            assert(m@ == apply_line(pre, ls.deep_view()[i as int]));
            assert(ls.deep_view().take(i + 1).drop_last() =~= ls.deep_view().take(i as int));
            assert(ls.deep_view().take(i + 1).last() == ls.deep_view()[i as int]);
        }
        i += 1;
    }
    proof {
        assert(ls.deep_view().take(ls.deep_view().len() as int) =~= ls.deep_view());
    }
    if m.title.len() == 0 {
        None
    } else {
        Some(m)
    }
}

} // verus!
