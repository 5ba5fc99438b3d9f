//! The request's query string: `key=value` pairs joined with `&`. A pair
//! without `=` is ignored; when a key repeats, the last pair wins. The two
//! recognized parameters are `categories` (a comma-separated filter; absent
//! or empty means every category) and `limit` (a non-negative count; absent
//! or unparsable means no limit). No percent-decoding is performed.

use vstd::prelude::*;

use crate::text::{bytes_eq, find_byte, find_byte_in, split_all, split_bytes};

verus! {

/// The bytes of the parameter name `categories`.
pub open spec fn key_categories() -> Seq<u8> {
    seq![99u8, 97u8, 116u8, 101u8, 103u8, 111u8, 114u8, 105u8, 101u8, 115u8]
}

/// The bytes of the parameter name `limit`.
pub open spec fn key_limit() -> Seq<u8> {
    seq![108u8, 105u8, 109u8, 105u8, 116u8]
}

/// The value of the last well-formed pair named `key`, scanning the pairs
/// from the end.
pub open spec fn lookup_param(pairs: Seq<Seq<u8>>, key: Seq<u8>) -> Option<Seq<u8>>
    decreases pairs.len(),
{
    if pairs.len() == 0 {
        None
    } else {
        let last = pairs.last();
        match find_byte(last, 61) {
            Some(i) => if last.take(i) == key {
                Some(last.skip(i + 1))
            } else {
                lookup_param(pairs.drop_last(), key)
            },
            None => lookup_param(pairs.drop_last(), key),
        }
    }
}

/// The raw value that the query string gives the parameter `key`.
pub open spec fn param_value_spec(query: Seq<u8>, key: Seq<u8>) -> Option<Seq<u8>> {
    lookup_param(split_bytes(query, 38), key)
}

/// Looks the parameter up in the query string.
pub fn param_value(query: &[u8], key: &[u8]) -> (r: Option<Vec<u8>>)
    ensures
        match r {
            Some(v) => param_value_spec(query@, key@) == Some(v@),
            None => param_value_spec(query@, key@) is None,
        },
{
    let pairs = split_all(query, 38);
    let ghost all = pairs.deep_view();
    let mut i: usize = pairs.len();
    proof {
        assert(all.take(i as int) =~= all);
    }
    while i > 0
        invariant
            0 <= i <= pairs.len(),
            all == pairs.deep_view(),
            all == split_bytes(query@, 38),
            lookup_param(all, key@) == lookup_param(all.take(i as int), key@),
        decreases i,
    {
        i -= 1;
        let pair = &pairs[i];
        proof {
            assert(all.take(i + 1).drop_last() =~= all.take(i as int));
            assert(all.take(i + 1).last() == pair@);
        }
        match find_byte_in(pair.as_slice(), 61) {
            Some(p) => {
                proof {
                    crate::text::lemma_find_byte(pair@, 61);
                }
                let k = vstd::slice::slice_subrange(pair.as_slice(), 0, p);
                proof {
                    assert(k@ =~= pair@.take(p as int));
                }
                if bytes_eq(k, key) {
                    let n = pair.len();
                    let v = vstd::slice::slice_to_vec(
                        vstd::slice::slice_subrange(pair.as_slice(), p + 1, n),
                    );
                    proof {
                        assert(v@ =~= pair@.skip(p as int + 1));
                        assert(lookup_param(all.take(i + 1), key@) == Some(v@));
                    }
                    return Some(v);
                }
            },
            None => {},
        }
    }
    proof {
        assert(all.take(0) =~= Seq::<Seq<u8>>::empty());
    }
    None
}

/// A decimal digit byte.
pub open spec fn is_digit(b: u8) -> bool {
    48 <= b <= 57
}

/// The number that a sequence of digit bytes denotes.
pub open spec fn digits_value(s: Seq<u8>) -> int
    decreases s.len(),
{
    if s.len() == 0 {
        0
    } else {
        digits_value(s.drop_last()) * 10 + (s.last() - 48)
    }
}

/// The part of a numeral after its optional leading plus sign.
pub open spec fn numeral_digits(s: Seq<u8>) -> Seq<u8> {
    if s.len() > 0 && s[0] == 43 {
        s.drop_first()
    } else {
        s
    }
}

/// What `str::parse::<usize>` makes of the bytes: a value exactly when, after
/// an optional leading plus sign, the text is one or more digits and the
/// value fits in `usize`.
pub open spec fn parse_usize_spec(s: Seq<u8>) -> Option<int> {
    let d = numeral_digits(s);
    if d.len() > 0 && (forall|i: int| 0 <= i < d.len() ==> #[trigger] is_digit(d[i]))
        && digits_value(d) <= usize::MAX {
        Some(digits_value(d))
    } else {
        None
    }
}

proof fn lemma_digits_value_nonneg(s: Seq<u8>)
    requires
        forall|i: int| 0 <= i < s.len() ==> is_digit(s[i]),
    ensures
        digits_value(s) >= 0,
    decreases s.len(),
{
    if s.len() > 0 {
        lemma_digits_value_nonneg(s.drop_last());
    }
}

proof fn lemma_digits_value_mono(s: Seq<u8>, i: int)
    requires
        forall|j: int| 0 <= j < s.len() ==> is_digit(s[j]),
        0 <= i <= s.len(),
    ensures
        digits_value(s.take(i)) <= digits_value(s),
    decreases s.len() - i,
{
    if i < s.len() {
        lemma_digits_value_mono(s, i + 1);
        assert(s.take(i + 1).drop_last() =~= s.take(i));
        lemma_digits_value_nonneg(s.take(i));
    } else {
        assert(s.take(i) =~= s);
    }
}

/// Parses a non-negative decimal numeral the way `str::parse::<usize>` does.
pub fn parse_usize(s: &[u8]) -> (r: Option<usize>)
    ensures
        match r {
            Some(v) => parse_usize_spec(s@) == Some(v as int),
            None => parse_usize_spec(s@) is None,
        },
{
    let n = s.len();
    let start: usize = if n > 0 && s[0] == 43 {
        1
    } else {
        0
    };
    let ghost d = numeral_digits(s@);
    proof {
        assert(d =~= s@.skip(start as int));
    }
    if n == start {
        return None;
    }
    let mut acc: u128 = 0;
    let mut i: usize = start;
    while i < n
        invariant
            start <= i <= n,
            n == s@.len(),
            d == s@.skip(start as int),
            d == numeral_digits(s@),
            forall|j: int| 0 <= j < i - start ==> is_digit(d[j]),
            acc == digits_value(d.take(i - start)),
            acc <= usize::MAX,
        decreases n - i,
    {
        let b = s[i];
        proof {
            assert(d.len() == n - start);
            assert(d[i - start] == s@[i as int]);
        }
        if b < 48 || b > 57 {
            proof {
                assert(!is_digit(d[i - start]));
                assert(d =~= numeral_digits(s@));
            }
            return None;
        }
        proof {
            assert(d.take(i - start + 1).drop_last() =~= d.take(i - start));
        }
        acc = acc * 10 + ((b - 48) as u128);
        if acc > (usize::MAX as u128) {
            proof {
                assert(d =~= numeral_digits(s@));
                assert(acc == digits_value(d.take(i - start + 1)));
                if forall|j: int| 0 <= j < d.len() ==> is_digit(d[j]) {
                    lemma_digits_value_mono(d, i - start + 1);
                }
            }
            return None;
        }
        i += 1;
    }
    proof {
        assert(d =~= numeral_digits(s@));
        assert(d.take(n - start) =~= d);
    }
    Some(acc as usize)
}

/// The category filter the query asks for: nothing (all categories) when
/// the parameter is absent or empty, else the comma-separated names.
pub open spec fn categories_filter_spec(query: Seq<u8>) -> Option<Seq<Seq<u8>>> {
    match param_value_spec(query, key_categories()) {
        None => None,
        Some(v) => if v.len() == 0 {
            None
        } else {
            Some(split_bytes(v, 44))
        },
    }
}

/// The category filter of the query string.
pub fn categories_filter(query: &[u8]) -> (r: Option<Vec<Vec<u8>>>)
    ensures
        match r {
            Some(f) => categories_filter_spec(query@) == Some(f.deep_view()),
            None => categories_filter_spec(query@) is None,
        },
{
    let key = vec![99u8, 97u8, 116u8, 101u8, 103u8, 111u8, 114u8, 105u8, 101u8, 115u8];
    proof {
        assert(key@ =~= key_categories());
    }
    match param_value(query, key.as_slice()) {
        None => None,
        Some(v) => {
            if v.len() == 0 {
                None
            } else {
                Some(split_all(v.as_slice(), 44))
            }
        },
    }
}

/// The result limit the query asks for: nothing when the parameter is
/// absent or does not parse.
pub open spec fn limit_spec(query: Seq<u8>) -> Option<int> {
    match param_value_spec(query, key_limit()) {
        None => None,
        Some(v) => parse_usize_spec(v),
    }
}

/// A limit that parsed is never negative.
pub proof fn lemma_limit_nonneg(query: Seq<u8>)
    ensures
        limit_spec(query) matches Some(l) ==> 0 <= l <= usize::MAX,
{
    match param_value_spec(query, key_limit()) {
        None => {},
        Some(v) => {
            let d = numeral_digits(v);
            if parse_usize_spec(v) is Some {
                lemma_digits_value_nonneg(d);
            }
        },
    }
}

/// The result limit of the query string.
pub fn limit_of(query: &[u8]) -> (r: Option<usize>)
    ensures
        match r {
            Some(l) => limit_spec(query@) == Some(l as int),
            None => limit_spec(query@) is None,
        },
{
    let key = vec![108u8, 105u8, 109u8, 105u8, 116u8];
    proof {
        assert(key@ =~= key_limit());
    }
    match param_value(query, key.as_slice()) {
        None => None,
        Some(v) => parse_usize(v.as_slice()),
    }
}

} // verus!
