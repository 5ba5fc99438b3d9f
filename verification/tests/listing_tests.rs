use news_lister::article::{ArticleDir, CategoryDir};
use news_lister::json::articles_json;
use news_lister::listing::list_articles;

fn bytes(s: &str) -> Vec<u8> {
    s.as_bytes().to_vec()
}

fn dir(folder: &str, manifest: Option<&str>, files: &[&str]) -> ArticleDir {
    ArticleDir {
        folder: bytes(folder),
        manifest: manifest.map(bytes),
        files: files.iter().map(|f| bytes(f)).collect(),
    }
}

fn cat(name: &str, articles: Vec<ArticleDir>) -> CategoryDir {
    CategoryDir { name: bytes(name), articles }
}

/// Three categories of two folders each: one folder has an invalid date,
/// one has no title, four articles are valid.
fn fixture() -> Vec<CategoryDir> {
    vec![
        cat(
            "alpha",
            vec![
                dir(
                    "a1",
                    Some("title = First\ndate = 2024-05-03\npicture = img.png\npage ="),
                    &["img.png"],
                ),
                dir("a2", Some("date = 2024-01-01\npicture = img.png"), &["img.png"]),
            ],
        ),
        cat(
            "beta",
            vec![
                dir(
                    "b1",
                    Some(
                        "title = Second\ndate = 2023-01-12\npicture = not-a-url\npage = https://example.com/x",
                    ),
                    &[],
                ),
                dir("b2", Some("title = Bad\ndate = 2024-99-01"), &[]),
            ],
        ),
        cat(
            "gamma",
            vec![
                dir(
                    "g1",
                    Some("title = Third\ndate = 2024-05-04\npicture = missing.png"),
                    &["other.png"],
                ),
                dir(
                    "g2",
                    Some("title = Fourth\ndate = 2020-29-02\npicture = http://pics/x.png"),
                    &[],
                ),
            ],
        ),
    ]
}

fn titles(tree: &Vec<CategoryDir>, query: &str) -> Vec<String> {
    list_articles(tree, query.as_bytes())
        .into_iter()
        .map(|a| String::from_utf8(a.title).unwrap())
        .collect()
}

#[test]
fn round_trip_no_query_returns_the_four_valid_articles_sorted() {
    let tree = fixture();
    let arts = list_articles(&tree, b"");
    assert_eq!(arts.len(), 4);
    let got: Vec<String> = arts
        .iter()
        .map(|a| String::from_utf8(a.title.clone()).unwrap())
        .collect();
    assert_eq!(got, vec!["Third", "First", "Second", "Fourth"]);
}

#[test]
fn dates_render_like_the_calendar() {
    let tree = fixture();
    let arts = list_articles(&tree, b"");
    let rendered: Vec<String> = arts
        .iter()
        .map(|a| String::from_utf8(a.formatted_date.clone()).unwrap())
        .collect();
    assert_eq!(
        rendered,
        vec!["Apr 05, 2024", "Mar 05, 2024", "Dec 01, 2023", "Feb 29, 2020"]
    );
}

#[test]
fn date_rendering_of_the_fixed_example() {
    let tree = vec![cat(
        "c",
        vec![dir("a", Some("title = T\ndate = 2024-05-03"), &[])],
    )];
    let arts = list_articles(&tree, b"");
    assert_eq!(arts.len(), 1);
    assert_eq!(String::from_utf8(arts[0].date.clone()).unwrap(), "2024-05-03");
    assert_eq!(
        String::from_utf8(arts[0].formatted_date.clone()).unwrap(),
        "Mar 05, 2024"
    );
}

#[test]
fn missing_title_is_skipped_whatever_else_is_valid() {
    let tree = vec![cat(
        "c",
        vec![
            dir("a", Some("date = 2024-01-01\npicture = p.png\npage = http://x"), &[]),
            dir("b", Some("title =   \ndate = 2024-01-01"), &[]),
        ],
    )];
    assert_eq!(list_articles(&tree, b"").len(), 0);
}

#[test]
fn invalid_date_is_skipped_not_emitted_blank() {
    let tree = vec![cat(
        "c",
        vec![dir("a", Some("title = T\ndate = not-a-date"), &[])],
    )];
    assert_eq!(list_articles(&tree, b"").len(), 0);
}

#[test]
fn limit_caps_the_newest_articles() {
    let tree = fixture();
    assert_eq!(titles(&tree, "limit=2"), vec!["Third", "First"]);
    assert_eq!(titles(&tree, "limit=0").len(), 0);
    assert_eq!(titles(&tree, "limit=10").len(), 4);
    // An unparsable limit means no limit.
    assert_eq!(titles(&tree, "limit=abc").len(), 4);
}

#[test]
fn categories_filter_restricts_exactly() {
    let tree = fixture();
    assert_eq!(titles(&tree, "categories=alpha,beta"), vec!["First", "Second"]);
    assert_eq!(titles(&tree, "categories=gamma"), vec!["Third", "Fourth"]);
    // An unknown name yields zero matches without an error.
    assert_eq!(titles(&tree, "categories=nosuch").len(), 0);
    // Absent or empty means every category.
    assert_eq!(titles(&tree, "categories=").len(), 4);
    // Both parameters combine in either order.
    assert_eq!(titles(&tree, "limit=1&categories=alpha,beta"), vec!["First"]);
    assert_eq!(titles(&tree, "categories=alpha,beta&limit=1"), vec!["First"]);
}

#[test]
fn page_set_takes_picture_verbatim_and_skips_the_file_check() {
    let tree = fixture();
    let arts = list_articles(&tree, b"categories=beta");
    assert_eq!(arts.len(), 1);
    assert_eq!(String::from_utf8(arts[0].picture_url.clone()).unwrap(), "not-a-url");
    assert_eq!(
        String::from_utf8(arts[0].link.clone()).unwrap(),
        "https://example.com/x"
    );
}

#[test]
fn missing_local_picture_falls_back_to_the_placeholder() {
    let tree = fixture();
    let arts = list_articles(&tree, b"categories=gamma&limit=1");
    assert_eq!(
        String::from_utf8(arts[0].picture_url.clone()).unwrap(),
        "/static/image-not-found.png"
    );
}

#[test]
fn existing_local_picture_is_served_under_news() {
    let tree = fixture();
    let arts = list_articles(&tree, b"categories=alpha");
    assert_eq!(
        String::from_utf8(arts[0].picture_url.clone()).unwrap(),
        "/news/alpha/a1/img.png"
    );
    assert_eq!(String::from_utf8(arts[0].link.clone()).unwrap(), "/news/alpha/a1/");
    assert_eq!(String::from_utf8(arts[0].category.clone()).unwrap(), "alpha");
}

#[test]
fn http_picture_is_taken_verbatim_for_local_articles() {
    let tree = fixture();
    let arts = list_articles(&tree, b"categories=gamma");
    assert_eq!(
        String::from_utf8(arts[1].picture_url.clone()).unwrap(),
        "http://pics/x.png"
    );
}

#[test]
fn equal_dates_keep_scan_order() {
    let tree = vec![cat(
        "c",
        vec![
            dir("e1", Some("title = E1\ndate = 2024-01-01"), &[]),
            dir("e2", Some("title = E2\ndate = 2024-01-01"), &[]),
            dir("later", Some("title = Later\ndate = 2024-02-01"), &[]),
        ],
    )];
    assert_eq!(titles(&tree, ""), vec!["Later", "E1", "E2"]);
}

#[test]
fn empty_tree_gives_the_empty_array() {
    let tree: Vec<CategoryDir> = Vec::new();
    assert_eq!(String::from_utf8(articles_json(&tree, b"")).unwrap(), "[]");
}

#[test]
fn json_body_has_the_exact_keys_and_order() {
    let tree = vec![cat(
        "c",
        vec![dir("a", Some("title = T\ndate = 2024-05-03"), &[])],
    )];
    let body = String::from_utf8(articles_json(&tree, b"")).unwrap();
    assert_eq!(
        body,
        "[{\"title\":\"T\",\"date\":\"2024-05-03\",\"formatted_date\":\"Mar 05, 2024\",\
         \"picture_url\":\"/static/image-not-found.png\",\"category\":\"c\",\"link\":\"/news/c/a/\"}]"
    );
}

#[test]
fn json_escapes_quotes_backslashes_and_controls() {
    let tree = vec![cat(
        "c",
        vec![dir(
            "a",
            Some("title = He said \"hi\" \\ now\ndate = 2024-05-03"),
            &[],
        )],
    )];
    let body = String::from_utf8(articles_json(&tree, b"")).unwrap();
    assert!(body.contains("\"title\":\"He said \\\"hi\\\" \\\\ now\""));

    let tree2 = vec![cat(
        "c",
        vec![dir("a", Some("title = tab\there\ndate = 2024-05-03"), &[])],
    )];
    let body2 = String::from_utf8(articles_json(&tree2, b"")).unwrap();
    assert!(body2.contains("\"title\":\"tab\\u0009here\""));
}
