//! The article lister: from the scanned tree and the request's query string
//! to the response's articles. A category survives the filter, each of its
//! folders yields an article exactly when its manifest has a title and a
//! date that parses, the picture falls back to a fixed placeholder when the
//! referenced local file is absent, and the result is sorted by date,
//! newest first, then cut to the requested limit.

use vstd::prelude::*;

use crate::article::{
    views, Article, ArticleDir, ArticleDirView, ArticleView, CategoryDir, CategoryDirView,
    tree_view,
};
use crate::dates::{date_render_of, date_value_of, parse_date, ymd_lt};
use crate::manifest::{parse_manifest, parse_manifest_spec, ManifestView};
use crate::query::{categories_filter, categories_filter_spec, limit_of, limit_spec};
use crate::text::{bytes_eq, starts_with, starts_with_spec};

verus! {

/// The bytes of `http`, the scheme prefix that marks a picture reference as
/// already absolute.
pub open spec fn http_prefix() -> Seq<u8> {
    seq![104u8, 116u8, 116u8, 112u8]
}

/// The bytes of `/news/`, the path under which local articles are served.
pub open spec fn news_prefix() -> Seq<u8> {
    seq![47u8, 110u8, 101u8, 119u8, 115u8, 47u8]
}

/// The bytes of `/static/image-not-found.png`, the fixed placeholder used
/// when a referenced local picture does not exist.
pub open spec fn placeholder_picture() -> Seq<u8> {
    seq![
        47u8, 115u8, 116u8, 97u8, 116u8, 105u8, 99u8, 47u8, 105u8, 109u8, 97u8, 103u8,
        101u8, 45u8, 110u8, 111u8, 116u8, 45u8, 102u8, 111u8, 117u8, 110u8, 100u8, 46u8,
        112u8, 110u8, 103u8,
    ]
}

/// The local page path of an article: `/news/<category>/<folder>/`.
pub open spec fn local_link(category: Seq<u8>, folder: Seq<u8>) -> Seq<u8> {
    news_prefix() + category + seq![47u8] + folder + seq![47u8]
}

/// Where the emitted picture URL points for a local article: the reference
/// verbatim when it is already an `http` URL, the served path when the file
/// exists in the folder, and the placeholder otherwise.
pub open spec fn resolve_picture(
    picture: Seq<u8>,
    category: Seq<u8>,
    folder: Seq<u8>,
    files: Seq<Seq<u8>>,
) -> Seq<u8> {
    if starts_with_spec(picture, http_prefix()) {
        picture
    } else if files.contains(picture) {
        local_link(category, folder) + picture
    } else {
        placeholder_picture()
    }
}

/// The article a folder denotes, if any: its manifest must parse with a
/// title and its date must parse. A manifest whose `page` is set is an
/// external article: link and picture are taken verbatim and no local
/// file check happens.
pub open spec fn article_of(category: Seq<u8>, ad: ArticleDirView) -> Option<ArticleView> {
    match ad.manifest {
        None => None,
        Some(content) => match parse_manifest_spec(content) {
            None => None,
            Some(m) => match date_value_of(m.date) {
                None => None,
                Some(ymd) => Some(
                    ArticleView {
                        title: m.title,
                        date: m.date,
                        formatted_date: date_render_of(m.date),
                        picture_url: if m.page.len() > 0 {
                            m.picture
                        } else {
                            resolve_picture(m.picture, category, ad.folder, ad.files)
                        },
                        category: category,
                        link: if m.page.len() > 0 {
                            m.page
                        } else {
                            local_link(category, ad.folder)
                        },
                        year: ymd.0,
                        month: ymd.1,
                        day: ymd.2,
                    },
                ),
            },
        },
    }
}

/// Whether the filter admits the category: no filter admits every name.
pub open spec fn filter_allows(filter: Option<Seq<Seq<u8>>>, name: Seq<u8>) -> bool {
    match filter {
        None => true,
        Some(f) => f.contains(name),
    }
}

/// The articles of one category's folders, in folder order.
pub open spec fn articles_of_dirs(category: Seq<u8>, dirs: Seq<ArticleDirView>) -> Seq<
    ArticleView,
>
    decreases dirs.len(),
{
    if dirs.len() == 0 {
        seq![]
    } else {
        articles_of_dirs(category, dirs.drop_last()) + match article_of(category, dirs.last()) {
            Some(a) => seq![a],
            None => seq![],
        }
    }
}

/// Every article of the tree that the filter admits, in scan order.
pub open spec fn collect_spec(
    tree: Seq<CategoryDirView>,
    filter: Option<Seq<Seq<u8>>>,
) -> Seq<ArticleView>
    decreases tree.len(),
{
    if tree.len() == 0 {
        seq![]
    } else {
        collect_spec(tree.drop_last(), filter) + if filter_allows(filter, tree.last().name) {
            articles_of_dirs(tree.last().name, tree.last().articles)
        } else {
            seq![]
        }
    }
}

/// A fresh copy of a byte vector.
pub fn clone_bytes(v: &Vec<u8>) -> (r: Vec<u8>)
    ensures
        r@ == v@,
{
    vstd::slice::slice_to_vec(v.as_slice())
}

/// Appends the bytes of `s` to `out`.
pub fn append_bytes(out: &mut Vec<u8>, s: &[u8])
    ensures
        final(out)@ == old(out)@ + s@,
{
    let mut i: usize = 0;
    while i < s.len()
        invariant
            0 <= i <= s@.len(),
            out@ == old(out)@ + s@.take(i as int),
        decreases s@.len() - i,
    {
        out.push(s[i]);
        proof {
            assert(old(out)@ + s@.take(i + 1) =~= (old(out)@ + s@.take(i as int)).push(
                s@[i as int],
            ));
        }
        i += 1;
    }
    proof {
        assert(old(out)@ + s@.take(s@.len() as int) =~= old(out)@ + s@);
    }
}

/// True when one of the byte vectors holds exactly the bytes of `x`.
pub fn contains_bytes(list: &Vec<Vec<u8>>, x: &[u8]) -> (r: bool)
    ensures
        r == list.deep_view().contains(x@),
{
    let mut i: usize = 0;
    while i < list.len()
        invariant
            0 <= i <= list.len(),
            forall|j: int| 0 <= j < i ==> list.deep_view()[j] != x@,
        decreases list.len() - i,
    {
        let hit = bytes_eq(list[i].as_slice(), x);
        proof {
            assert(list.deep_view()[i as int] == list@[i as int]@);
        }
        if hit {
            proof {
                assert(list.deep_view()[i as int] == x@);
            }
            return true;
        }
        i += 1;
    }
    proof {
        if list.deep_view().contains(x@) {
            let j = choose|j: int| 0 <= j < list.deep_view().len() && list.deep_view()[j] == x@;
            assert(list.deep_view()[j] != x@);
        }
    }
    false
}

/// Builds `/news/<category>/<folder>/`.
fn build_local_link(category: &[u8], folder: &[u8]) -> (r: Vec<u8>)
    ensures
        r@ == local_link(category@, folder@),
{
    let mut out = vec![47u8, 110u8, 101u8, 119u8, 115u8, 47u8];
    proof {
        assert(out@ =~= news_prefix());
    }
    append_bytes(&mut out, category);
    out.push(47);
    append_bytes(&mut out, folder);
    out.push(47);
    proof {
        assert(out@ =~= local_link(category@, folder@));
    }
    out
}

/// The article of one scanned folder, when the folder holds one.
pub fn article_from_dir(category: &[u8], ad: &ArticleDir) -> (r: Option<Article>)
    ensures
        match r {
            Some(a) => article_of(category@, ad@) == Some(a@),
            None => article_of(category@, ad@) is None,
        },
{
    let content = match &ad.manifest {
        None => {
            return None;
        },
        Some(c) => c,
    };
    let m = match parse_manifest(content.as_slice()) {
        None => {
            return None;
        },
        Some(m) => m,
    };
    let pd = match parse_date(m.date.as_slice()) {
        None => {
            return None;
        },
        Some(p) => p,
    };
    let page_set = m.page.len() > 0;
    let link: Vec<u8> = if page_set {
        clone_bytes(&m.page)
    } else {
        build_local_link(category, ad.folder.as_slice())
    };
    let lit_http = vec![104u8, 116u8, 116u8, 112u8];
    proof {
        assert(lit_http@ =~= http_prefix());
    }
    let picture_url: Vec<u8> = if page_set {
        clone_bytes(&m.picture)
    } else if starts_with(m.picture.as_slice(), lit_http.as_slice()) {
        clone_bytes(&m.picture)
    } else if contains_bytes(&ad.files, m.picture.as_slice()) {
        let mut p = build_local_link(category, ad.folder.as_slice());
        append_bytes(&mut p, m.picture.as_slice());
        p
    } else {
        let p = vec![
            47u8, 115u8, 116u8, 97u8, 116u8, 105u8, 99u8, 47u8, 105u8, 109u8, 97u8, 103u8,
            101u8, 45u8, 110u8, 111u8, 116u8, 45u8, 102u8, 111u8, 117u8, 110u8, 100u8, 46u8,
            112u8, 110u8, 103u8,
        ];
        proof {
            assert(p@ =~= placeholder_picture());
        }
        p
    };
    let a = Article {
        title: m.title,
        date: m.date,
        formatted_date: pd.rendered,
        picture_url,
        category: vstd::slice::slice_to_vec(category),
        link,
        year: pd.year,
        month: pd.month,
        day: pd.day,
    };
    proof {
        assert(article_of(category@, ad@) == Some(a@));
    }
    Some(a)
}

/// Scans the tree: every folder of every admitted category, in order.
pub fn collect_articles(tree: &Vec<CategoryDir>, filter: &Option<Vec<Vec<u8>>>) -> (r: Vec<
    Article,
>)
    ensures
        views(r@) == collect_spec(tree_view(tree@), filter_view(filter)),
{
    let ghost tv = tree_view(tree@);
    let ghost fv = filter_view(filter);
    let mut acc: Vec<Article> = Vec::new();
    let mut i: usize = 0;
    proof {
        assert(views(acc@) =~= collect_spec(tv.take(0), fv));
    }
    while i < tree.len()
        invariant
            0 <= i <= tree.len(),
            tv == tree_view(tree@),
            fv == filter_view(filter),
            views(acc@) == collect_spec(tv.take(i as int), fv),
        decreases tree.len() - i,
    {
        let cat = &tree[i];
        proof {
            assert(tv[i as int] == cat@);
            assert(tv.take(i + 1).drop_last() =~= tv.take(i as int));
            assert(tv.take(i + 1).last() == cat@);
        }
        let allowed = match filter {
            None => true,
            Some(f) => contains_bytes(f, cat.name.as_slice()),
        };
        proof {
            assert(allowed == filter_allows(fv, cat@.name));
        }
        if allowed {
            let mut j: usize = 0;
            proof {
                assert(articles_of_dirs(cat@.name, cat@.articles.take(0)) =~= Seq::<
                    ArticleView,
                >::empty());
            }
            while j < cat.articles.len()
                invariant
                    0 <= j <= cat.articles.len(),
                    tv == tree_view(tree@),
                    fv == filter_view(filter),
                    0 <= i < tree.len(),
                    tv[i as int] == cat@,
                    views(acc@) == collect_spec(tv.take(i as int), fv) + articles_of_dirs(
                        cat@.name,
                        cat@.articles.take(j as int),
                    ),
                decreases cat.articles.len() - j,
            {
                let ad = &cat.articles[j];
                proof {
                    assert(cat@.articles[j as int] == ad@);
                    assert(cat@.articles.take(j + 1).drop_last() =~= cat@.articles.take(
                        j as int,
                    ));
                    assert(cat@.articles.take(j + 1).last() == ad@);
                }
                match article_from_dir(cat.name.as_slice(), ad) {
                    Some(a) => {
                        let ghost pre = views(acc@);
                        acc.push(a);
                        proof {
                            assert(views(acc@) =~= pre + seq![a@]);
                            assert(articles_of_dirs(cat@.name, cat@.articles.take(j + 1))
                                == articles_of_dirs(cat@.name, cat@.articles.take(j as int))
                                + seq![a@]);
                            assert(views(acc@) =~= collect_spec(tv.take(i as int), fv)
                                + articles_of_dirs(cat@.name, cat@.articles.take(j + 1)));
                        }
                    },
                    None => {
                        proof {
                            assert(views(acc@) =~= collect_spec(tv.take(i as int), fv)
                                + articles_of_dirs(cat@.name, cat@.articles.take(j + 1)));
                        }
                    },
                }
                j += 1;
            }
            proof {
                assert(cat@.articles.take(cat@.articles.len() as int) =~= cat@.articles);
                assert(views(acc@) =~= collect_spec(tv.take(i + 1), fv));
            }
        } else {
            proof {
                assert(views(acc@) =~= collect_spec(tv.take(i + 1), fv));
            }
        }
        i += 1;
    }
    proof {
        assert(tv.take(tree@.len() as int) =~= tv);
    }
    acc
}

/// The mathematical image of an optional category filter.
pub open spec fn filter_view(filter: &Option<Vec<Vec<u8>>>) -> Option<Seq<Seq<u8>>> {
    match filter {
        None => None,
        Some(f) => Some(f.deep_view()),
    }
}

/// Strictly-before on articles' parsed dates.
pub open spec fn date_lt_article(a: ArticleView, b: ArticleView) -> bool {
    ymd_lt((a.year, a.month, a.day), (b.year, b.month, b.day))
}

/// Whether `a`'s date is strictly earlier than `b`'s.
pub fn date_lt(a: &Article, b: &Article) -> (r: bool)
    ensures
        r == date_lt_article(a@, b@),
{
    a.year < b.year || (a.year == b.year && (a.month < b.month || (a.month == b.month
        && a.day < b.day)))
}

/// `x` placed into the descending sequence `s`: before the first element
/// whose date is strictly earlier, so after every element with the same
/// date.
pub open spec fn insert_desc(s: Seq<ArticleView>, x: ArticleView) -> Seq<ArticleView>
    decreases s.len(),
{
    if s.len() == 0 {
        seq![x]
    } else if date_lt_article(s[0], x) {
        seq![x] + s
    } else {
        seq![s[0]] + insert_desc(s.drop_first(), x)
    }
}

/// The stable descending sort of the articles: each element inserted, in
/// input order, after every element already placed whose date is not
/// earlier.
pub open spec fn sort_desc(s: Seq<ArticleView>) -> Seq<ArticleView>
    decreases s.len(),
{
    if s.len() == 0 {
        seq![]
    } else {
        insert_desc(sort_desc(s.drop_last()), s.last())
    }
}

pub proof fn lemma_insert_desc_at(s: Seq<ArticleView>, x: ArticleView, pos: int)
    requires
        0 <= pos <= s.len(),
        forall|j: int| 0 <= j < pos ==> !date_lt_article(s[j], x),
        pos < s.len() ==> date_lt_article(s[pos], x),
    ensures
        insert_desc(s, x) == s.take(pos) + seq![x] + s.skip(pos),
    decreases pos,
{
    if pos == 0 {
        if s.len() == 0 {
            assert(insert_desc(s, x) =~= s.take(0) + seq![x] + s.skip(0));
        } else {
            assert(seq![x] + s =~= s.take(0) + seq![x] + s.skip(0));
        }
    } else {
        lemma_insert_desc_at(s.drop_first(), x, pos - 1);
        assert(seq![s[0]] + (s.drop_first().take(pos - 1) + seq![x] + s.drop_first().skip(
            pos - 1,
        )) =~= s.take(pos) + seq![x] + s.skip(pos));
    }
}

/// Places the article into the vector, kept sorted by date descending.
fn insert_article(out: &mut Vec<Article>, a: Article)
    ensures
        views(final(out)@) == insert_desc(views(old(out)@), a@),
{
    let mut pos: usize = 0;
    while pos < out.len() && !date_lt(&out[pos], &a)
        invariant
            0 <= pos <= out.len(),
            out@ == old(out)@,
            forall|j: int| 0 <= j < pos ==> !date_lt_article(views(out@)[j], a@),
        decreases out.len() - pos,
    {
        pos += 1;
    }
    proof {
        lemma_insert_desc_at(views(out@), a@, pos as int);
    }
    out.insert(pos, a);
    proof {
        assert(views(final(out)@) =~= views(old(out)@).take(pos as int) + seq![a@] + views(
            old(out)@,
        ).skip(pos as int));
    }
}

/// Sorts the articles by date, newest first; articles with equal dates keep
/// their scan order.
pub fn sort_articles(input: Vec<Article>) -> (r: Vec<Article>)
    ensures
        views(r@) == sort_desc(views(input@)),
{
    let ghost orig = views(input@);
    let mut rest = input;
    let mut out: Vec<Article> = Vec::new();
    proof {
        assert(views(out@) =~= sort_desc(orig.take(0)));
        assert(views(rest@) =~= orig);
    }
    while rest.len() > 0
        invariant
            views(rest@).len() <= orig.len(),
            views(rest@) == orig.skip(orig.len() - views(rest@).len()),
            views(out@) == sort_desc(orig.take(orig.len() - views(rest@).len())),
        decreases rest.len(),
    {
        let ghost done = orig.len() - views(rest@).len();
        let ghost rv_pre = views(rest@);
        let a = rest.remove(0);
        proof {
            assert(views(rest@) =~= rv_pre.drop_first());
            assert(a@ == rv_pre[0]);
            assert(views(rest@) =~= orig.skip(done + 1));
        }
        insert_article(&mut out, a);
        proof {
            assert(orig.take(done + 1).drop_last() =~= orig.take(done));
            assert(orig.take(done + 1).last() == orig[done]);
            assert(views(out@) == sort_desc(orig.take(done + 1)));
        }
    }
    proof {
        assert(orig.take(orig.len() as int) =~= orig);
    }
    out
}

/// Everything the query asks of the scanned tree: the admitted articles,
/// sorted by date descending, cut to the limit when one is given.
pub open spec fn response_spec(tree: Seq<CategoryDirView>, query: Seq<u8>) -> Seq<ArticleView> {
    let sorted = sort_desc(collect_spec(tree, categories_filter_spec(query)));
    match limit_spec(query) {
        None => sorted,
        Some(l) => if l < sorted.len() {
            sorted.take(l)
        } else {
            sorted
        },
    }
}

/// Lists the articles the query asks for, newest first.
pub fn list_articles(tree: &Vec<CategoryDir>, query: &[u8]) -> (r: Vec<Article>)
    ensures
        views(r@) == response_spec(tree_view(tree@), query@),
{
    let filter = categories_filter(query);
    proof {
        assert(filter_view(&filter) == categories_filter_spec(query@));
    }
    let collected = collect_articles(tree, &filter);
    let mut sorted = sort_articles(collected);
    match limit_of(query) {
        None => {},
        Some(l) => {
            if l < sorted.len() {
                let ghost pre = views(sorted@);
                sorted.truncate(l);
                proof {
                    assert(views(sorted@) =~= pre.take(l as int));
                }
            }
        },
    }
    sorted
}

} // verus!
