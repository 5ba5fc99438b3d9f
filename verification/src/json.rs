//! JSON rendering of the article list. Strings are escaped completely:
//! quote and backslash get a backslash, every other control byte becomes a
//! `\u00XX` escape, so any byte string round-trips as a JSON string.

use vstd::prelude::*;

use crate::article::{views, Article, ArticleView, CategoryDir};
use crate::listing::append_bytes;

verus! {

/// The lower-case hex digit of a value below 16.
pub open spec fn hex_digit(n: int) -> u8 {
    if n < 10 {
        (48 + n) as u8
    } else {
        (87 + n) as u8
    }
}

/// How one byte appears inside a JSON string literal.
pub open spec fn escape_byte(b: u8) -> Seq<u8> {
    if b == 34 {
        seq![92u8, 34u8]
    } else if b == 92 {
        seq![92u8, 92u8]
    } else if b < 32 {
        seq![92u8, 117u8, 48u8, 48u8, hex_digit(b as int / 16), hex_digit(b as int % 16)]
    } else {
        seq![b]
    }
}

/// The bytes of `s` escaped for a JSON string literal.
pub open spec fn json_escape(s: Seq<u8>) -> Seq<u8>
    decreases s.len(),
{
    if s.len() == 0 {
        seq![]
    } else {
        json_escape(s.drop_last()) + escape_byte(s.last())
    }
}

/// A JSON string literal: the escaped bytes between double quotes.
pub open spec fn json_string(s: Seq<u8>) -> Seq<u8> {
    seq![34u8] + json_escape(s) + seq![34u8]
}

/// One `"name":"value"` member, `name` being a plain key that needs no
/// escaping.
pub open spec fn json_member(name: Seq<u8>, value: Seq<u8>) -> Seq<u8> {
    seq![34u8] + name + seq![34u8, 58u8] + json_string(value)
}

/// The bytes of the response key `formatted_date`.
pub open spec fn key_formatted_date() -> Seq<u8> {
    seq![
        102u8, 111u8, 114u8, 109u8, 97u8, 116u8, 116u8, 101u8, 100u8, 95u8, 100u8, 97u8,
        116u8, 101u8,
    ]
}

/// The bytes of the response key `picture_url`.
pub open spec fn key_picture_url() -> Seq<u8> {
    seq![112u8, 105u8, 99u8, 116u8, 117u8, 114u8, 101u8, 95u8, 117u8, 114u8, 108u8]
}

/// The bytes of the response key `category`.
pub open spec fn key_category() -> Seq<u8> {
    seq![99u8, 97u8, 116u8, 101u8, 103u8, 111u8, 114u8, 121u8]
}

/// The bytes of the response key `link`.
pub open spec fn key_link() -> Seq<u8> {
    seq![108u8, 105u8, 110u8, 107u8]
}

/// One article as a JSON object with exactly the keys `title`, `date`,
/// `formatted_date`, `picture_url`, `category` and `link`, in that order.
pub open spec fn json_of_article(a: ArticleView) -> Seq<u8> {
    seq![123u8] + json_member(crate::manifest::key_title(), a.title) + seq![44u8]
        + json_member(crate::manifest::key_date(), a.date) + seq![44u8] + json_member(
        key_formatted_date(),
        a.formatted_date,
    ) + seq![44u8] + json_member(key_picture_url(), a.picture_url) + seq![44u8] + json_member(
        key_category(),
        a.category,
    ) + seq![44u8] + json_member(key_link(), a.link) + seq![125u8]
}

/// The comma-separated article objects.
pub open spec fn json_items(arts: Seq<ArticleView>) -> Seq<u8>
    decreases arts.len(),
{
    if arts.len() == 0 {
        seq![]
    } else if arts.len() == 1 {
        json_of_article(arts[0])
    } else {
        json_items(arts.drop_last()) + seq![44u8] + json_of_article(arts.last())
    }
}

/// The whole response body: a JSON array of the article objects.
pub open spec fn json_array(arts: Seq<ArticleView>) -> Seq<u8> {
    seq![91u8] + json_items(arts) + seq![93u8]
}

/// Appends the escaped bytes of `s`.
fn append_escaped(out: &mut Vec<u8>, s: &[u8])
    ensures
        final(out)@ == old(out)@ + json_escape(s@),
{
    let mut i: usize = 0;
    proof {
        assert(old(out)@ + json_escape(s@.take(0)) =~= old(out)@);
    }
    while i < s.len()
        invariant
            0 <= i <= s@.len(),
            out@ == old(out)@ + json_escape(s@.take(i as int)),
        decreases s@.len() - i,
    {
        let ghost pre = out@;
        let b = s[i];
        if b == 34 {
            out.push(92);
            out.push(34);
        } else if b == 92 {
            out.push(92);
            out.push(92);
        } else if b < 32 {
            out.push(92);
            out.push(117);
            out.push(48);
            out.push(48);
            let hi = b / 16;
            let lo = b % 16;
            out.push(if hi < 10 {
                48 + hi
            } else {
                87 + hi
            });
            out.push(if lo < 10 {
                48 + lo
            } else {
                87 + lo
            });
        } else {
            out.push(b);
        }
        proof {
            assert(out@ =~= pre + escape_byte(s@[i as int]));
            assert(s@.take(i + 1).drop_last() =~= s@.take(i as int));
            assert(out@ =~= old(out)@ + json_escape(s@.take(i + 1)));
        }
        i += 1;
    }
    proof {
        assert(s@.take(s@.len() as int) =~= s@);
    }
}

/// Appends `"name":"value"` with the value escaped.
fn append_member(out: &mut Vec<u8>, name: &[u8], value: &[u8])
    ensures
        final(out)@ == old(out)@ + json_member(name@, value@),
{
    out.push(34);
    append_bytes(out, name);
    out.push(34);
    out.push(58);
    out.push(34);
    append_escaped(out, value);
    out.push(34);
    proof {
        assert(out@ =~= old(out)@ + json_member(name@, value@));
    }
}

/// Appends one article object.
fn append_article(out: &mut Vec<u8>, a: &Article)
    ensures
        final(out)@ == old(out)@ + json_of_article(a@),
{
    let k_title = vec![116u8, 105u8, 116u8, 108u8, 101u8];
    let k_date = vec![100u8, 97u8, 116u8, 101u8];
    let k_formatted = vec![
        102u8, 111u8, 114u8, 109u8, 97u8, 116u8, 116u8, 101u8, 100u8, 95u8, 100u8, 97u8,
        116u8, 101u8,
    ];
    let k_picture_url = vec![112u8, 105u8, 99u8, 116u8, 117u8, 114u8, 101u8, 95u8, 117u8,
        114u8, 108u8];
    let k_category = vec![99u8, 97u8, 116u8, 101u8, 103u8, 111u8, 114u8, 121u8];
    let k_link = vec![108u8, 105u8, 110u8, 107u8];
    proof {
        assert(k_title@ =~= crate::manifest::key_title());
        assert(k_date@ =~= crate::manifest::key_date());
        assert(k_formatted@ =~= key_formatted_date());
        assert(k_picture_url@ =~= key_picture_url());
        assert(k_category@ =~= key_category());
        assert(k_link@ =~= key_link());
    }
    out.push(123);
    append_member(out, k_title.as_slice(), a.title.as_slice());
    out.push(44);
    append_member(out, k_date.as_slice(), a.date.as_slice());
    out.push(44);
    append_member(out, k_formatted.as_slice(), a.formatted_date.as_slice());
    out.push(44);
    append_member(out, k_picture_url.as_slice(), a.picture_url.as_slice());
    out.push(44);
    append_member(out, k_category.as_slice(), a.category.as_slice());
    out.push(44);
    append_member(out, k_link.as_slice(), a.link.as_slice());
    out.push(125);
    proof {
        assert(out@ =~= old(out)@ + json_of_article(a@));
    }
}

/// Renders the articles as the JSON response body.
pub fn render_json(arts: &Vec<Article>) -> (r: Vec<u8>)
    ensures
        r@ == json_array(views(arts@)),
{
    let ghost av = views(arts@);
    let mut out: Vec<u8> = Vec::new();
    out.push(91);
    let mut i: usize = 0;
    proof {
        assert(out@ =~= seq![91u8] + json_items(av.take(0)));
    }
    while i < arts.len()
        invariant
            0 <= i <= arts.len(),
            av == views(arts@),
            out@ == seq![91u8] + json_items(av.take(i as int)),
        decreases arts.len() - i,
    {
        let ghost pre = out@;
        if i > 0 {
            out.push(44);
        }
        append_article(&mut out, &arts[i]);
        proof {
            assert(av.take(i + 1).drop_last() =~= av.take(i as int));
            assert(av.take(i + 1).last() == av[i as int]);
            if i > 0 {
                assert(out@ =~= pre + seq![44u8] + json_of_article(av[i as int]));
            } else {
                assert(av.take(1).len() == 1);
                assert(out@ =~= pre + json_of_article(av[0]));
            }
            assert(out@ =~= seq![91u8] + json_items(av.take(i + 1)));
        }
        i += 1;
    }
    out.push(93);
    proof {
        assert(av.take(av.len() as int) =~= av);
        assert(out@ =~= json_array(views(arts@)));
    }
    out
}

/// The body of the articles endpoint: the articles the query asks of the
/// scanned tree, as a JSON array, newest first. An unreadable root scans as
/// an empty tree and yields the empty array, never an error.
pub fn articles_json(tree: &Vec<CategoryDir>, query: &[u8]) -> (r: Vec<u8>)
    ensures
        r@ == json_array(
            crate::listing::response_spec(crate::article::tree_view(tree@), query@),
        ),
{
    let arts = crate::listing::list_articles(tree, query);
    render_json(&arts)
}

} // verus!
