//! Routing of static file requests: from the request URI to the relative
//! path of the file to serve and the media type its extension implies. The
//! binary prepends the site root and does the reading.

use vstd::prelude::*;

use crate::text::{find_byte, find_byte_in, trim, trim_spec};

verus! {

/// The media types the server distinguishes.
#[derive(PartialEq, Eq, Structural, Clone, Copy, Debug)]
pub enum MimeKind {
    Jpeg,
    Png,
    Svg,
    Html,
    Css,
    Js,
    Xml,
    Pdf,
    Plain,
}

/// `s` cut before the first occurrence of `b`.
pub open spec fn strip_from(s: Seq<u8>, b: u8) -> Seq<u8> {
    match find_byte(s, b) {
        None => s,
        Some(i) => s.take(i),
    }
}

/// The bytes of `index.html`.
pub open spec fn index_html() -> Seq<u8> {
    seq![105u8, 110u8, 100u8, 101u8, 120u8, 46u8, 104u8, 116u8, 109u8, 108u8]
}

/// The file path a request URI names: the URI cut at the first `&` and then
/// at the first `?`, with `index.html` appended when it names a directory.
pub open spec fn route_path_spec(uri: Seq<u8>) -> Seq<u8> {
    let p = strip_from(strip_from(uri, 38), 63);
    if p.len() > 0 && p.last() == 47 {
        p + index_html()
    } else {
        p
    }
}

/// Cuts the slice before the first occurrence of `b`.
fn strip_from_exec(s: &[u8], b: u8) -> (r: Vec<u8>)
    ensures
        r@ == strip_from(s@, b),
{
    proof {
        crate::text::lemma_find_byte(s@, b);
    }
    match find_byte_in(s, b) {
        None => vstd::slice::slice_to_vec(s),
        Some(i) => {
            let r = vstd::slice::slice_to_vec(vstd::slice::slice_subrange(s, 0, i));
            proof {
                assert(r@ =~= s@.take(i as int));
            }
            r
        },
    }
}

/// The relative path of the file a request URI asks for.
pub fn route_path(uri: &[u8]) -> (r: Vec<u8>)
    ensures
        r@ == route_path_spec(uri@),
{
    let p0 = strip_from_exec(uri, 38);
    let mut p = strip_from_exec(p0.as_slice(), 63);
    let n = p.len();
    if n > 0 && p[n - 1] == 47 {
        let suffix = vec![105u8, 110u8, 100u8, 101u8, 120u8, 46u8, 104u8, 116u8, 109u8, 108u8];
        proof {
            assert(suffix@ =~= index_html());
        }
        crate::listing::append_bytes(&mut p, suffix.as_slice());
    }
    p
}

/// The last occurrence of `b` in `s`, if any.
pub open spec fn rfind_byte(s: Seq<u8>, b: u8) -> Option<int>
    decreases s.len(),
{
    if s.len() == 0 {
        None
    } else if s.last() == b {
        Some(s.len() - 1)
    } else {
        rfind_byte(s.drop_last(), b)
    }
}

/// Finds the last occurrence of `b` in the slice.
fn rfind_byte_in(s: &[u8], b: u8) -> (r: Option<usize>)
    ensures
        match r {
            Some(i) => rfind_byte(s@, b) == Some(i as int),
            None => rfind_byte(s@, b) is None,
        },
{
    let mut i: usize = s.len();
    proof {
        assert(s@.take(i as int) =~= s@);
    }
    while i > 0
        invariant
            0 <= i <= s@.len(),
            rfind_byte(s@, b) == rfind_byte(s@.take(i as int), b),
        decreases i,
    {
        i -= 1;
        proof {
            assert(s@.take(i + 1).drop_last() =~= s@.take(i as int));
            assert(s@.take(i + 1).last() == s@[i as int]);
        }
        if s[i] == b {
            return Some(i);
        }
    }
    proof {
        assert(s@.take(0) =~= Seq::<u8>::empty());
    }
    None
}

/// The extension of the path: what follows the last `.` of the last `/`
/// segment, trimmed of whitespace; the whole trimmed segment when it has no
/// dot.
pub open spec fn extension_spec(path: Seq<u8>) -> Seq<u8> {
    let segment = match rfind_byte(path, 47) {
        None => path,
        Some(i) => path.skip(i + 1),
    };
    let ext = match rfind_byte(segment, 46) {
        None => segment,
        Some(i) => segment.skip(i + 1),
    };
    trim_spec(ext)
}

proof fn lemma_rfind_in_range(s: Seq<u8>, b: u8)
    ensures
        rfind_byte(s, b) matches Some(i) ==> 0 <= i < s.len(),
    decreases s.len(),
{
    if s.len() > 0 && s.last() != b {
        lemma_rfind_in_range(s.drop_last(), b);
    }
}

/// The extension of the path.
pub fn extension_of(path: &[u8]) -> (r: Vec<u8>)
    ensures
        r@ == extension_spec(path@),
{
    proof {
        lemma_rfind_in_range(path@, 47);
    }
    let segment: Vec<u8> = match rfind_byte_in(path, 47) {
        None => vstd::slice::slice_to_vec(path),
        Some(i) => {
            let n = path.len();
            let v = vstd::slice::slice_to_vec(vstd::slice::slice_subrange(path, i + 1, n));
            proof {
                assert(v@ =~= path@.skip(i as int + 1));
            }
            v
        },
    };
    proof {
        lemma_rfind_in_range(segment@, 46);
    }
    let ext: Vec<u8> = match rfind_byte_in(segment.as_slice(), 46) {
        None => segment,
        Some(i) => {
            let n = segment.len();
            let v = vstd::slice::slice_to_vec(
                vstd::slice::slice_subrange(segment.as_slice(), i + 1, n),
            );
            proof {
                assert(v@ =~= segment@.skip(i as int + 1));
            }
            v
        },
    };
    trim(ext.as_slice())
}

/// The media type an extension names; anything unknown is served as plain
/// text.
pub open spec fn mime_of_extension(ext: Seq<u8>) -> MimeKind {
    if ext == seq![106u8, 112u8, 103u8] || ext == seq![106u8, 112u8, 101u8, 103u8] {
        MimeKind::Jpeg
    } else if ext == seq![112u8, 110u8, 103u8] {
        MimeKind::Png
    } else if ext == seq![115u8, 118u8, 103u8] {
        MimeKind::Svg
    } else if ext == seq![104u8, 116u8, 109u8, 108u8] {
        MimeKind::Html
    } else if ext == seq![99u8, 115u8, 115u8] {
        MimeKind::Css
    } else if ext == seq![106u8, 115u8] {
        MimeKind::Js
    } else if ext == seq![120u8, 109u8, 108u8] {
        MimeKind::Xml
    } else if ext == seq![112u8, 100u8, 102u8] {
        MimeKind::Pdf
    } else {
        MimeKind::Plain
    }
}

/// The media type implied by the path's extension.
pub fn mime_for_path(path: &[u8]) -> (r: MimeKind)
    ensures
        r == mime_of_extension(extension_spec(path@)),
{
    let ext = extension_of(path);
    let e = ext.as_slice();
    let jpg = vec![106u8, 112u8, 103u8];
    let jpeg = vec![106u8, 112u8, 101u8, 103u8];
    let png = vec![112u8, 110u8, 103u8];
    let svg = vec![115u8, 118u8, 103u8];
    let html = vec![104u8, 116u8, 109u8, 108u8];
    let css = vec![99u8, 115u8, 115u8];
    let js = vec![106u8, 115u8];
    let xml = vec![120u8, 109u8, 108u8];
    let pdf = vec![112u8, 100u8, 102u8];
    proof {
        assert(jpg@ =~= seq![106u8, 112u8, 103u8]);
        assert(jpeg@ =~= seq![106u8, 112u8, 101u8, 103u8]);
        assert(png@ =~= seq![112u8, 110u8, 103u8]);
        assert(svg@ =~= seq![115u8, 118u8, 103u8]);
        assert(html@ =~= seq![104u8, 116u8, 109u8, 108u8]);
        assert(css@ =~= seq![99u8, 115u8, 115u8]);
        assert(js@ =~= seq![106u8, 115u8]);
        assert(xml@ =~= seq![120u8, 109u8, 108u8]);
        assert(pdf@ =~= seq![112u8, 100u8, 102u8]);
    }
    if crate::text::bytes_eq(e, jpg.as_slice()) || crate::text::bytes_eq(e, jpeg.as_slice()) {
        MimeKind::Jpeg
    } else if crate::text::bytes_eq(e, png.as_slice()) {
        MimeKind::Png
    } else if crate::text::bytes_eq(e, svg.as_slice()) {
        MimeKind::Svg
    } else if crate::text::bytes_eq(e, html.as_slice()) {
        MimeKind::Html
    } else if crate::text::bytes_eq(e, css.as_slice()) {
        MimeKind::Css
    } else if crate::text::bytes_eq(e, js.as_slice()) {
        MimeKind::Js
    } else if crate::text::bytes_eq(e, xml.as_slice()) {
        MimeKind::Xml
    } else if crate::text::bytes_eq(e, pdf.as_slice()) {
        MimeKind::Pdf
    } else {
        MimeKind::Plain
    }
}

} // verus!
