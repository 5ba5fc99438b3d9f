//! The properties the lister promises, each proved over the specification
//! functions that the executable contracts speak of: titleless folders are
//! skipped, the response is sorted by date with the sort stable, a limit
//! keeps exactly the latest admitted articles, the category filter is
//! respected, and the picture fallback behaves as stated.

use vstd::prelude::*;

use crate::article::{ArticleDirView, ArticleView, CategoryDirView};
use crate::dates::date_value_of;
use crate::listing::{
    article_of, articles_of_dirs, collect_spec, date_lt_article, filter_allows, http_prefix,
    insert_desc, lemma_insert_desc_at, placeholder_picture, response_spec, sort_desc,
};
use crate::manifest::{manifest_of_lines, parse_manifest_spec, ManifestView};
use crate::query::{categories_filter_spec, limit_spec};
use crate::text::{lines_spec, starts_with_spec};
use vstd::multiset::Multiset;

verus! {

/// Sorted newest first: no article stands before one dated strictly later.
pub open spec fn sorted_desc(s: Seq<ArticleView>) -> bool {
    forall|i: int, j: int| 0 <= i < j < s.len() ==> !date_lt_article(s[i], s[j])
}

/// The position `insert_desc` inserts at: before the first element dated
/// strictly earlier.
pub open spec fn insert_pos(s: Seq<ArticleView>, x: ArticleView) -> int
    decreases s.len(),
{
    if s.len() == 0 {
        0
    } else if date_lt_article(s[0], x) {
        0
    } else {
        1 + insert_pos(s.drop_first(), x)
    }
}

proof fn lemma_insert_pos_props(s: Seq<ArticleView>, x: ArticleView)
    ensures
        0 <= insert_pos(s, x) <= s.len(),
        forall|j: int| 0 <= j < insert_pos(s, x) ==> !date_lt_article(s[j], x),
        insert_pos(s, x) < s.len() ==> date_lt_article(s[insert_pos(s, x)], x),
    decreases s.len(),
{
    if s.len() > 0 && !date_lt_article(s[0], x) {
        lemma_insert_pos_props(s.drop_first(), x);
        assert forall|j: int| 0 <= j < insert_pos(s, x) implies !date_lt_article(s[j], x) by {
            if j > 0 {
                assert(s[j] == s.drop_first()[j - 1]);
            }
        }
    }
}

/// The shape of one insertion: the element goes in at `insert_pos`.
pub proof fn lemma_insert_desc_shape(s: Seq<ArticleView>, x: ArticleView)
    ensures
        0 <= insert_pos(s, x) <= s.len(),
        insert_desc(s, x) == s.take(insert_pos(s, x)) + seq![x] + s.skip(insert_pos(s, x)),
        insert_desc(s, x).len() == s.len() + 1,
{
    lemma_insert_pos_props(s, x);
    lemma_insert_desc_at(s, x, insert_pos(s, x));
}

proof fn lemma_insert_desc_sorted(s: Seq<ArticleView>, x: ArticleView)
    requires
        sorted_desc(s),
    ensures
        sorted_desc(insert_desc(s, x)),
{
    lemma_insert_desc_shape(s, x);
    let pos = insert_pos(s, x);
    lemma_insert_pos_props(s, x);
    let t = insert_desc(s, x);
    assert forall|i: int, j: int| 0 <= i < j < t.len() implies !date_lt_article(t[i], t[j]) by {
        if j < pos {
            assert(t[i] == s[i] && t[j] == s[j]);
            assert(!date_lt_article(s[i], s[j]));
        } else if j == pos {
            assert(t[i] == s[i] && t[j] == x);
            assert(!date_lt_article(s[i], x));
        } else {
            assert(t[j] == s[j - 1]);
            if i < pos {
                assert(t[i] == s[i]);
                assert(!date_lt_article(s[i], s[j - 1]));
            } else if i == pos {
                assert(t[i] == x);
                assert(date_lt_article(s[pos], x));
                if j - 1 > pos {
                    assert(!date_lt_article(s[pos], s[j - 1]));
                }
                assert(!date_lt_article(x, s[j - 1]));
            } else {
                assert(t[i] == s[i - 1]);
                assert(!date_lt_article(s[i - 1], s[j - 1]));
            }
        }
    }
}

proof fn lemma_insert_desc_multiset(s: Seq<ArticleView>, x: ArticleView)
    ensures
        insert_desc(s, x).to_multiset() == s.to_multiset().insert(x),
    decreases s.len(),
{
    broadcast use vstd::seq_lib::group_to_multiset_ensures;
    broadcast use vstd::multiset::group_multiset_axioms;

    if s.len() == 0 {
        assert(insert_desc(s, x) =~= Seq::<ArticleView>::empty().push(x));
        assert(s.to_multiset() =~= Multiset::<ArticleView>::empty());
        assert(insert_desc(s, x).to_multiset() =~= s.to_multiset().insert(x));
    } else if date_lt_article(s[0], x) {
        assert(insert_desc(s, x) =~= seq![x] + s);
        vstd::seq_lib::lemma_multiset_commutative(seq![x], s);
        assert(seq![x].to_multiset() =~= Multiset::<ArticleView>::empty().insert(x)) by {
            assert(seq![x] =~= Seq::<ArticleView>::empty().push(x));
        }
        assert(insert_desc(s, x).to_multiset() =~= s.to_multiset().insert(x));
    } else {
        lemma_insert_desc_multiset(s.drop_first(), x);
        assert(insert_desc(s, x) =~= seq![s[0]] + insert_desc(s.drop_first(), x));
        vstd::seq_lib::lemma_multiset_commutative(seq![s[0]], insert_desc(s.drop_first(), x));
        assert(seq![s[0]].to_multiset() =~= Multiset::<ArticleView>::empty().insert(s[0])) by {
            assert(seq![s[0]] =~= Seq::<ArticleView>::empty().push(s[0]));
        }
        assert(s =~= seq![s[0]] + s.drop_first());
        vstd::seq_lib::lemma_multiset_commutative(seq![s[0]], s.drop_first());
        assert(insert_desc(s, x).to_multiset() =~= s.to_multiset().insert(x));
    }
}

/// What sorting does: the result is sorted newest first, holds exactly the
/// input's articles, and keeps the input's length.
pub proof fn lemma_sort_desc_props(s: Seq<ArticleView>)
    ensures
        sorted_desc(sort_desc(s)),
        sort_desc(s).to_multiset() == s.to_multiset(),
        sort_desc(s).len() == s.len(),
    decreases s.len(),
{
    broadcast use vstd::seq_lib::group_to_multiset_ensures;
    broadcast use vstd::multiset::group_multiset_axioms;

    if s.len() == 0 {
    } else {
        lemma_sort_desc_props(s.drop_last());
        lemma_insert_desc_sorted(sort_desc(s.drop_last()), s.last());
        lemma_insert_desc_multiset(sort_desc(s.drop_last()), s.last());
        lemma_insert_desc_shape(sort_desc(s.drop_last()), s.last());
        assert(s =~= s.drop_last().push(s.last()));
        assert(s.to_multiset() =~= s.drop_last().to_multiset().insert(s.last()));
    }
}

/// The articles of the response with one parsed date.
pub open spec fn with_date(s: Seq<ArticleView>, k: (int, int, int)) -> Seq<ArticleView> {
    s.filter(|a: ArticleView| crate::article::date_of(a) == k)
}

proof fn lemma_filter_empty(s: Seq<ArticleView>, pred: spec_fn(ArticleView) -> bool)
    requires
        forall|i: int| 0 <= i < s.len() ==> !pred(s[i]),
    ensures
        s.filter(pred) == Seq::<ArticleView>::empty(),
    decreases s.len(),
{
    reveal(Seq::filter);
    if s.len() > 0 {
        lemma_filter_empty(s.drop_last(), pred);
    }
}

proof fn lemma_insert_desc_stable(s: Seq<ArticleView>, x: ArticleView, k: (int, int, int))
    requires
        sorted_desc(s),
    ensures
        with_date(insert_desc(s, x), k) == if crate::article::date_of(x) == k {
            with_date(s, k).push(x)
        } else {
            with_date(s, k)
        },
{
    reveal_with_fuel(Seq::filter, 3);
    broadcast use vstd::seq_lib::group_filter_ensures;

    let pred = |a: ArticleView| crate::article::date_of(a) == k;
    lemma_insert_desc_shape(s, x);
    lemma_insert_pos_props(s, x);
    let pos = insert_pos(s, x);
    let head = s.take(pos);
    let tail = s.skip(pos);
    Seq::filter_distributes_over_add(head + seq![x], tail, pred);
    Seq::filter_distributes_over_add(head, seq![x], pred);
    Seq::filter_distributes_over_add(head, tail, pred);
    assert(s =~= head + tail);
    assert(seq![x].filter(pred) =~= if pred(x) {
        seq![x]
    } else {
        Seq::<ArticleView>::empty()
    }) by {
        assert(seq![x].drop_last() =~= Seq::<ArticleView>::empty());
    }
    if crate::article::date_of(x) == k {
        assert forall|i: int| 0 <= i < tail.len() implies !pred(tail[i]) by {
            assert(tail[i] == s[pos + i]);
            if pos < s.len() {
                assert(date_lt_article(s[pos], x));
                if pos + i > pos {
                    assert(!date_lt_article(s[pos], s[pos + i]));
                }
            }
        }
        lemma_filter_empty(tail, pred);
        assert(with_date(insert_desc(s, x), k) =~= with_date(s, k).push(x));
    } else {
        assert(with_date(insert_desc(s, x), k) =~= with_date(s, k));
    }
}

/// Stability of the sort: for every date, the articles carrying that date
/// stand in the sorted response exactly as the scan produced them.
pub proof fn lemma_sort_desc_stable(s: Seq<ArticleView>, k: (int, int, int))
    ensures
        with_date(sort_desc(s), k) == with_date(s, k),
    decreases s.len(),
{
    reveal(Seq::filter);
    if s.len() > 0 {
        lemma_sort_desc_stable(s.drop_last(), k);
        lemma_sort_desc_props(s.drop_last());
        lemma_insert_desc_stable(sort_desc(s.drop_last()), s.last(), k);
        if crate::article::date_of(s.last()) == k {
            assert(with_date(s, k) =~= with_date(s.drop_last(), k).push(s.last()));
        } else {
            assert(with_date(s, k) =~= with_date(s.drop_last(), k));
        }
    }
}

/// Date order of the response: wherever one article stands before another,
/// the earlier one is not dated strictly later — so an article dated
/// strictly later than another always stands before it.
pub proof fn lemma_response_sorted(tree: Seq<CategoryDirView>, query: Seq<u8>)
    ensures
        sorted_desc(response_spec(tree, query)),
{
    let collected = collect_spec(tree, categories_filter_spec(query));
    lemma_sort_desc_props(collected);
    crate::query::lemma_limit_nonneg(query);
    let sorted = sort_desc(collected);
    match limit_spec(query) {
        None => {},
        Some(l) => {
            if l < sorted.len() {
                assert forall|i: int, j: int|
                    0 <= i < j < sorted.take(l).len() implies !date_lt_article(
                    sorted.take(l)[i],
                    sorted.take(l)[j],
                ) by {
                    assert(sorted.take(l)[i] == sorted[i]);
                    assert(sorted.take(l)[j] == sorted[j]);
                    assert(!date_lt_article(sorted[i], sorted[j]));
                }
            }
        },
    }
}

/// How many articles the response holds: all of the admitted ones, or
/// exactly the limit when fewer are asked for.
pub proof fn lemma_response_count(tree: Seq<CategoryDirView>, query: Seq<u8>)
    ensures
        ({
            let m = collect_spec(tree, categories_filter_spec(query)).len() as int;
            match limit_spec(query) {
                None => response_spec(tree, query).len() == m,
                Some(l) => response_spec(tree, query).len() == if l < m {
                    l
                } else {
                    m
                },
            }
        }),
{
    lemma_sort_desc_props(collect_spec(tree, categories_filter_spec(query)));
    crate::query::lemma_limit_nonneg(query);
}

/// What a limit keeps: a prefix of the sorted list, so every kept article
/// is dated no earlier than every article the cut drops.
pub proof fn lemma_limit_keeps_latest(tree: Seq<CategoryDirView>, query: Seq<u8>)
    ensures
        ({
            let sorted = sort_desc(collect_spec(tree, categories_filter_spec(query)));
            let response = response_spec(tree, query);
            &&& forall|i: int| 0 <= i < response.len() ==> response[i] == sorted[i]
            &&& forall|i: int, j: int|
                0 <= i < response.len() && response.len() <= j < sorted.len()
                    ==> !date_lt_article(#[trigger] sorted[i], #[trigger] sorted[j])
        }),
{
    let collected = collect_spec(tree, categories_filter_spec(query));
    lemma_sort_desc_props(collected);
    crate::query::lemma_limit_nonneg(query);
    let sorted = sort_desc(collected);
    let response = response_spec(tree, query);
    assert forall|i: int| 0 <= i < response.len() implies response[i] == sorted[i] by {
        match limit_spec(query) {
            None => {},
            Some(l) => {
                if l < sorted.len() {
                    assert(response[i] == sorted.take(l)[i]);
                }
            },
        }
    }
}

proof fn lemma_dirs_provenance(category: Seq<u8>, dirs: Seq<ArticleDirView>, a: ArticleView)
    requires
        articles_of_dirs(category, dirs).contains(a),
    ensures
        exists|j: int|
            0 <= j < dirs.len() && article_of(category, #[trigger] dirs[j]) == Some(a),
        a.category == category,
    decreases dirs.len(),
{
    if dirs.len() > 0 {
        let prefix = articles_of_dirs(category, dirs.drop_last());
        if prefix.contains(a) {
            lemma_dirs_provenance(category, dirs.drop_last(), a);
            let j = choose|j: int|
                0 <= j < dirs.drop_last().len() && article_of(
                    category,
                    #[trigger] dirs.drop_last()[j],
                ) == Some(a);
            assert(dirs[j] == dirs.drop_last()[j]);
        } else {
            assert(article_of(category, dirs.last()) == Some(a));
            assert(dirs[dirs.len() - 1] == dirs.last());
        }
    }
}

/// Where each response article comes from: an admitted category whose name
/// it carries, and a folder of that category that denotes it.
pub proof fn lemma_collect_provenance(
    tree: Seq<CategoryDirView>,
    filter: Option<Seq<Seq<u8>>>,
    a: ArticleView,
)
    requires
        collect_spec(tree, filter).contains(a),
    ensures
        exists|i: int|
            {
                &&& 0 <= i < tree.len()
                &&& filter_allows(filter, (#[trigger] tree[i]).name)
                &&& a.category == tree[i].name
                &&& exists|j: int|
                    0 <= j < tree[i].articles.len() && article_of(
                        tree[i].name,
                        #[trigger] tree[i].articles[j],
                    ) == Some(a)
            },
    decreases tree.len(),
{
    if tree.len() > 0 {
        let prefix = collect_spec(tree.drop_last(), filter);
        if prefix.contains(a) {
            lemma_collect_provenance(tree.drop_last(), filter, a);
            let i = choose|i: int|
                {
                    &&& 0 <= i < tree.drop_last().len()
                    &&& filter_allows(filter, (#[trigger] tree.drop_last()[i]).name)
                    &&& a.category == tree.drop_last()[i].name
                    &&& exists|j: int|
                        0 <= j < tree.drop_last()[i].articles.len() && article_of(
                            tree.drop_last()[i].name,
                            #[trigger] tree.drop_last()[i].articles[j],
                        ) == Some(a)
                };
            assert(tree[i] == tree.drop_last()[i]);
        } else {
            assert(filter_allows(filter, tree.last().name));
            lemma_dirs_provenance(tree.last().name, tree.last().articles, a);
            assert(tree[tree.len() - 1] == tree.last());
        }
    }
}

/// A folder whose manifest never sets a title, or sets one that is empty
/// after trimming, denotes no article, whatever its other fields hold.
pub proof fn lemma_untitled_folder_excluded(category: Seq<u8>, ad: ArticleDirView)
    requires
        match ad.manifest {
            None => true,
            Some(content) => manifest_of_lines(lines_spec(content)).title.len() == 0,
        },
    ensures
        article_of(category, ad) is None,
{
}

/// Every article of the response belongs to a category the filter names.
pub proof fn lemma_response_respects_filter(
    tree: Seq<CategoryDirView>,
    query: Seq<u8>,
    names: Seq<Seq<u8>>,
    a: ArticleView,
)
    requires
        categories_filter_spec(query) == Some(names),
        response_spec(tree, query).contains(a),
    ensures
        names.contains(a.category),
{
    broadcast use vstd::seq_lib::group_to_multiset_ensures;

    let collected = collect_spec(tree, categories_filter_spec(query));
    let sorted = sort_desc(collected);
    lemma_sort_desc_props(collected);
    crate::query::lemma_limit_nonneg(query);
    let response = response_spec(tree, query);
    assert(sorted.contains(a)) by {
        if response != sorted {
            let i = choose|i: int| 0 <= i < response.len() && response[i] == a;
            assert(0 <= i < sorted.len());
            assert(sorted[i] == a);
        }
    }
    assert(collected.contains(a)) by {
        assert(sorted.to_multiset().count(a) > 0);
    }
    lemma_collect_provenance(tree, categories_filter_spec(query), a);
}

/// A manifest whose `page` is set bypasses the local image check: the
/// emitted picture URL is the `picture` field verbatim, whatever it holds,
/// and the link is the `page` field verbatim.
pub proof fn lemma_external_page_verbatim(
    category: Seq<u8>,
    ad: ArticleDirView,
    m: ManifestView,
    a: ArticleView,
)
    requires
        ad.manifest matches Some(content) && parse_manifest_spec(content) == Some(m),
        m.page.len() > 0,
        article_of(category, ad) == Some(a),
    ensures
        a.picture_url == m.picture,
        a.link == m.page,
{
}

/// A manifest with no `page` whose `picture` is neither an `http` URL nor a
/// file of the folder gets the fixed placeholder, not the constructed path.
pub proof fn lemma_missing_picture_placeholder(
    category: Seq<u8>,
    ad: ArticleDirView,
    m: ManifestView,
    a: ArticleView,
)
    requires
        ad.manifest matches Some(content) && parse_manifest_spec(content) == Some(m),
        m.page.len() == 0,
        !starts_with_spec(m.picture, http_prefix()),
        !ad.files.contains(m.picture),
        article_of(category, ad) == Some(a),
    ensures
        a.picture_url == placeholder_picture(),
{
}

/// A folder whose manifest's date does not parse denotes no article: no
/// record is ever emitted with a blank rendered date.
pub proof fn lemma_bad_date_excluded(category: Seq<u8>, ad: ArticleDirView, m: ManifestView)
    requires
        ad.manifest matches Some(content) && parse_manifest_spec(content) == Some(m),
        date_value_of(m.date) is None,
    ensures
        article_of(category, ad) is None,
{
}

} // verus!
