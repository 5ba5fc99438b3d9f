//! Byte-level text helpers: equality, prefix tests, first-occurrence search,
//! separator splitting, line splitting and ASCII whitespace trimming. Each
//! executable function is proved against a recursive specification.

use vstd::prelude::*;

verus! {

/// True when the two byte slices hold the same bytes.
pub fn bytes_eq(a: &[u8], b: &[u8]) -> (r: bool)
    ensures
        r == (a@ == b@),
{
    if a.len() != b.len() {
        proof {
            assert(a@ != b@);
        }
        return false;
    }
    let mut i: usize = 0;
    while i < a.len()
        invariant
            0 <= i <= a@.len(),
            a@.len() == b@.len(),
            forall|j: int| 0 <= j < i ==> a@[j] == b@[j],
        decreases a@.len() - i,
    {
        if a[i] != b[i] {
            return false;
        }
        i += 1;
    }
    proof {
        assert(a@ =~= b@);
    }
    true
}

/// True when `p` is a prefix of `s`.
pub open spec fn starts_with_spec(s: Seq<u8>, p: Seq<u8>) -> bool {
    p.len() <= s.len() && s.take(p.len() as int) == p
}

/// True when the slice `s` begins with the bytes of `p`.
pub fn starts_with(s: &[u8], p: &[u8]) -> (r: bool)
    ensures
        r == starts_with_spec(s@, p@),
{
    if p.len() > s.len() {
        return false;
    }
    let mut i: usize = 0;
    while i < p.len()
        invariant
            0 <= i <= p@.len(),
            p@.len() <= s@.len(),
            forall|j: int| 0 <= j < i ==> s@[j] == p@[j],
        decreases p@.len() - i,
    {
        if s[i] != p[i] {
            proof {
                assert(s@.take(p@.len() as int)[i as int] != p@[i as int]);
            }
            return false;
        }
        i += 1;
    }
    proof {
        assert(s@.take(p@.len() as int) =~= p@);
    }
    true
}

/// Index of the first occurrence of `sep` in `s`, if any.
pub open spec fn find_byte(s: Seq<u8>, sep: u8) -> Option<int>
    decreases s.len(),
{
    if s.len() == 0 {
        None
    } else if s[0] == sep {
        Some(0int)
    } else {
        match find_byte(s.drop_first(), sep) {
            Some(i) => Some(i + 1),
            None => None,
        }
    }
}

/// What `find_byte` returns: the least index holding `sep`, or nothing when
/// `sep` does not occur.
pub proof fn lemma_find_byte(s: Seq<u8>, sep: u8)
    ensures
        match find_byte(s, sep) {
            Some(i) => 0 <= i < s.len() && s[i] == sep && forall|j: int|
                0 <= j < i ==> s[j] != sep,
            None => forall|j: int| 0 <= j < s.len() ==> s[j] != sep,
        },
    decreases s.len(),
{
    if s.len() > 0 && s[0] != sep {
        lemma_find_byte(s.drop_first(), sep);
        match find_byte(s.drop_first(), sep) {
            Some(i) => {
                assert(s[i + 1] == s.drop_first()[i]);
                assert forall|j: int| 0 <= j < i + 1 implies s[j] != sep by {
                    if j > 0 {
                        assert(s[j] == s.drop_first()[j - 1]);
                    }
                }
            },
            None => {
                assert forall|j: int| 0 <= j < s.len() implies s[j] != sep by {
                    if j > 0 {
                        assert(s[j] == s.drop_first()[j - 1]);
                    }
                }
            },
        }
    }
}

/// The converse direction: a least occurrence pins `find_byte` down.
pub proof fn lemma_find_byte_at(s: Seq<u8>, sep: u8, i: int)
    requires
        0 <= i < s.len(),
        s[i] == sep,
        forall|j: int| 0 <= j < i ==> s[j] != sep,
    ensures
        find_byte(s, sep) == Some(i),
    decreases s.len(),
{
    if i > 0 {
        lemma_find_byte_at(s.drop_first(), sep, i - 1);
    }
}

/// Index of the first occurrence of `sep` in the slice, if any.
pub fn find_byte_in(s: &[u8], sep: u8) -> (r: Option<usize>)
    ensures
        match r {
            Some(i) => find_byte(s@, sep) == Some(i as int),
            None => find_byte(s@, sep) is None,
        },
{
    let mut i: usize = 0;
    while i < s.len()
        invariant
            0 <= i <= s@.len(),
            forall|j: int| 0 <= j < i ==> s@[j] != sep,
        decreases s@.len() - i,
    {
        if s[i] == sep {
            proof {
                lemma_find_byte_at(s@, sep, i as int);
            }
            return Some(i);
        }
        i += 1;
    }
    proof {
        lemma_find_byte(s@, sep);
    }
    None
}

/// The segments of `s` between occurrences of `sep`. A sequence with no
/// separator is one segment; each separator ends a segment, so `n`
/// separators give `n + 1` segments.
pub open spec fn split_bytes(s: Seq<u8>, sep: u8) -> Seq<Seq<u8>>
    decreases s.len(),
{
    match find_byte(s, sep) {
        None => seq![s],
        Some(i) => {
            proof {
                lemma_find_byte(s, sep);
            }
            seq![s.take(i)] + split_bytes(s.skip(i + 1), sep)
        },
    }
}

/// Splits the slice at every occurrence of `sep`.
pub fn split_all(s: &[u8], sep: u8) -> (r: Vec<Vec<u8>>)
    ensures
        r.deep_view() == split_bytes(s@, sep),
        r.len() >= 1,
    decreases s@.len(),
{
    proof {
        lemma_find_byte(s@, sep);
    }
    match find_byte_in(s, sep) {
        None => {
            let seg = vstd::slice::slice_to_vec(s);
            let mut out: Vec<Vec<u8>> = Vec::new();
            out.push(seg);
            proof {
                assert(out.deep_view() =~~= split_bytes(s@, sep));
            }
            out
        },
        Some(i) => {
            let seg = vstd::slice::slice_to_vec(vstd::slice::slice_subrange(s, 0, i));
            let rest = slice_all_after(s, i);
            let mut tail = split_all(rest, sep);
            let mut out: Vec<Vec<u8>> = Vec::new();
            out.push(seg);
            out.append(&mut tail);
            proof {
                assert(seg@ =~= s@.take(i as int));
                assert(out.deep_view() =~~= split_bytes(s@, sep));
            }
            out
        },
    }
}

/// The tail of the slice after position `i`.
fn slice_all_after(s: &[u8], i: usize) -> (r: &[u8])
    requires
        i < s@.len(),
    ensures
        r@ == s@.skip(i as int + 1),
{
    let n = s.len();
    let r = vstd::slice::slice_subrange(s, i + 1, n);
    proof {
        assert(r@ =~= s@.skip(i as int + 1));
    }
    r
}

/// ASCII whitespace, the bytes trimmed from manifest keys and values.
pub open spec fn is_ws(b: u8) -> bool {
    b == 9 || b == 10 || b == 11 || b == 12 || b == 13 || b == 32
}

/// `s` without its leading whitespace.
pub open spec fn trim_start_spec(s: Seq<u8>) -> Seq<u8>
    decreases s.len(),
{
    if s.len() > 0 && is_ws(s[0]) {
        trim_start_spec(s.drop_first())
    } else {
        s
    }
}

/// `s` without its trailing whitespace.
pub open spec fn trim_end_spec(s: Seq<u8>) -> Seq<u8>
    decreases s.len(),
{
    if s.len() > 0 && is_ws(s.last()) {
        trim_end_spec(s.drop_last())
    } else {
        s
    }
}

/// `s` without leading and trailing whitespace.
pub open spec fn trim_spec(s: Seq<u8>) -> Seq<u8> {
    trim_end_spec(trim_start_spec(s))
}

proof fn lemma_trim_start_at(s: Seq<u8>, i: int)
    requires
        0 <= i <= s.len(),
        forall|j: int| 0 <= j < i ==> is_ws(s[j]),
        i < s.len() ==> !is_ws(s[i]),
    ensures
        trim_start_spec(s) == s.skip(i),
    decreases i,
{
    if i == 0 {
        assert(trim_start_spec(s) == s);
        assert(s.skip(0) =~= s);
    } else {
        assert(is_ws(s[0]));
        lemma_trim_start_at(s.drop_first(), i - 1);
        assert(s.drop_first().skip(i - 1) =~= s.skip(i));
    }
}

proof fn lemma_trim_end_at(s: Seq<u8>, i: int)
    requires
        0 <= i <= s.len(),
        forall|j: int| i <= j < s.len() ==> is_ws(s[j]),
        i > 0 ==> !is_ws(s[i - 1]),
    ensures
        trim_end_spec(s) == s.take(i),
    decreases s.len() - i,
{
    if i == s.len() {
        assert(trim_end_spec(s) == s);
        assert(s.take(i) =~= s);
    } else {
        assert(is_ws(s.last()));
        lemma_trim_end_at(s.drop_last(), i);
        assert(s.drop_last().take(i) =~= s.take(i));
    }
}

/// The slice without leading and trailing ASCII whitespace, as a fresh vector.
pub fn trim(s: &[u8]) -> (r: Vec<u8>)
    ensures
        r@ == trim_spec(s@),
{
    let mut start: usize = 0;
    while start < s.len() && is_ws_byte(s[start])
        invariant
            0 <= start <= s@.len(),
            forall|j: int| 0 <= j < start ==> is_ws(s@[j]),
        decreases s@.len() - start,
    {
        start += 1;
    }
    proof {
        lemma_trim_start_at(s@, start as int);
    }
    let mut end: usize = s.len();
    while end > start && is_ws_byte(s[end - 1])
        invariant
            start <= end <= s@.len(),
            forall|j: int| end <= j < s@.len() ==> is_ws(s@[j]),
        decreases end,
    {
        end -= 1;
    }
    proof {
        lemma_trim_end_at(s@.skip(start as int), end - start);
        assert(s@.skip(start as int).take(end - start) =~= s@.subrange(
            start as int,
            end as int,
        ));
    }
    let r = vstd::slice::slice_to_vec(vstd::slice::slice_subrange(s, start, end));
    proof {
        assert(r@ =~= trim_spec(s@));
    }
    r
}

/// Whether the byte is ASCII whitespace.
pub fn is_ws_byte(b: u8) -> (r: bool)
    ensures
        r == is_ws(b),
{
    b == 9 || b == 10 || b == 11 || b == 12 || b == 13 || b == 32
}

/// One trailing carriage return dropped, as `str::lines` does on a line that
/// a newline ended.
pub open spec fn strip_cr_spec(s: Seq<u8>) -> Seq<u8> {
    if s.len() > 0 && s.last() == 13 {
        s.drop_last()
    } else {
        s
    }
}

/// The lines of `s`: segments between newline bytes, each stripped of one
/// trailing carriage return, with a final empty segment (from a terminating
/// newline) dropped.
pub open spec fn lines_spec(s: Seq<u8>) -> Seq<Seq<u8>> {
    let segs = split_bytes(s, 10);
    let kept = if segs.len() > 0 && segs.last().len() == 0 {
        segs.drop_last()
    } else {
        segs
    };
    kept.map_values(|seg: Seq<u8>| strip_cr_spec(seg))
}

/// Splits the slice into lines.
pub fn lines(s: &[u8]) -> (r: Vec<Vec<u8>>)
    ensures
        r.deep_view() == lines_spec(s@),
{
    let mut segs = split_all(s, 10);
    if segs.len() > 0 {
        let last_is_empty = segs[segs.len() - 1].len() == 0;
        if last_is_empty {
            proof {
                assert(segs.deep_view().drop_last() =~~= split_bytes(s@, 10).drop_last());
            }
            segs.truncate(segs.len() - 1);
            proof {
                assert(segs.deep_view() =~~= split_bytes(s@, 10).drop_last());
            }
        }
    }
    let ghost kept = segs.deep_view();
    let mut out: Vec<Vec<u8>> = Vec::new();
    let mut i: usize = 0;
    while i < segs.len()
        invariant
            0 <= i <= segs.len(),
            kept == segs.deep_view(),
            out.deep_view() =~~= kept.take(i as int).map_values(
                |seg: Seq<u8>| strip_cr_spec(seg),
            ),
        decreases segs.len() - i,
    {
        let seg = &segs[i];
        let n = seg.len();
        let stripped: Vec<u8> = if n > 0 && seg[n - 1] == 13 {
            let v = vstd::slice::slice_to_vec(
                vstd::slice::slice_subrange(seg.as_slice(), 0, n - 1),
            );
            proof {
                assert(v@ =~= strip_cr_spec(seg@));
            }
            v
        } else {
            let v = seg.clone();
            proof {
                assert(v@ =~= strip_cr_spec(seg@));
            }
            v
        };
        out.push(stripped);
        proof {
            assert(kept.take(i + 1).map_values(|seg: Seq<u8>| strip_cr_spec(seg))
                =~~= kept.take(i as int).map_values(|seg: Seq<u8>| strip_cr_spec(seg)).push(
                strip_cr_spec(kept[i as int]),
            ));
        }
        i += 1;
    }
    proof {
        assert(kept.take(kept.len() as int) =~= kept);
        assert(out.deep_view() =~~= lines_spec(s@));
    }
    out
}

} // verus!

