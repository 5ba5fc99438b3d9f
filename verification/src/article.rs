//! The response record: one emitted article, and the plain-value image of
//! the directory tree that the scan walks. The surrounding binary reads the
//! filesystem into `CategoryDir` values; everything after that is computed
//! here and in the neighbouring modules.

use vstd::prelude::*;

verus! {

/// One article of the response. The six byte-string fields are what the
/// JSON object carries; the calendar fields are the parsed date, computed
/// once and kept so that sorting never parses again.
pub struct Article {
    pub title: Vec<u8>,
    pub date: Vec<u8>,
    pub formatted_date: Vec<u8>,
    pub picture_url: Vec<u8>,
    pub category: Vec<u8>,
    pub link: Vec<u8>,
    pub year: i32,
    pub month: u32,
    pub day: u32,
}

/// The mathematical image of an `Article`.
pub struct ArticleView {
    pub title: Seq<u8>,
    pub date: Seq<u8>,
    pub formatted_date: Seq<u8>,
    pub picture_url: Seq<u8>,
    pub category: Seq<u8>,
    pub link: Seq<u8>,
    pub year: int,
    pub month: int,
    pub day: int,
}

impl View for Article {
    type V = ArticleView;

    open spec fn view(&self) -> ArticleView {
        ArticleView {
            title: self.title@,
            date: self.date@,
            formatted_date: self.formatted_date@,
            picture_url: self.picture_url@,
            category: self.category@,
            link: self.link@,
            year: self.year as int,
            month: self.month as int,
            day: self.day as int,
        }
    }
}

/// The views of a sequence of articles.
pub open spec fn views(s: Seq<Article>) -> Seq<ArticleView> {
    s.map_values(|a: Article| a@)
}

/// The parsed date of an article, as a calendar triple.
pub open spec fn date_of(a: ArticleView) -> (int, int, int) {
    (a.year, a.month, a.day)
}

/// One candidate article folder: its name, the bytes of its manifest file
/// when one could be read, and the relative paths that exist inside the
/// folder (what a picture reference is checked against).
pub struct ArticleDir {
    pub folder: Vec<u8>,
    pub manifest: Option<Vec<u8>>,
    pub files: Vec<Vec<u8>>,
}

/// The mathematical image of an `ArticleDir`.
pub struct ArticleDirView {
    pub folder: Seq<u8>,
    pub manifest: Option<Seq<u8>>,
    pub files: Seq<Seq<u8>>,
}

impl View for ArticleDir {
    type V = ArticleDirView;

    open spec fn view(&self) -> ArticleDirView {
        ArticleDirView {
            folder: self.folder@,
            manifest: match self.manifest {
                Some(m) => Some(m@),
                None => None,
            },
            files: self.files.deep_view(),
        }
    }
}

/// One category: a child directory of the news root and its article
/// folders.
pub struct CategoryDir {
    pub name: Vec<u8>,
    pub articles: Vec<ArticleDir>,
}

/// The mathematical image of a `CategoryDir`.
pub struct CategoryDirView {
    pub name: Seq<u8>,
    pub articles: Seq<ArticleDirView>,
}

impl View for CategoryDir {
    type V = CategoryDirView;

    open spec fn view(&self) -> CategoryDirView {
        CategoryDirView {
            name: self.name@,
            articles: self.articles@.map_values(|a: ArticleDir| a@),
        }
    }
}

/// The views of the whole scanned tree.
pub open spec fn tree_view(s: Seq<CategoryDir>) -> Seq<CategoryDirView> {
    s.map_values(|c: CategoryDir| c@)
}

} // verus!
