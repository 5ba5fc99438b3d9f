use news_lister::manifest::parse_manifest;
use news_lister::query::{categories_filter, limit_of, param_value};
use news_lister::session::{is_credential_valid, login_connected, LoginData, OriginDomain};
use news_lister::static_route::{mime_for_path, route_path, MimeKind};
use news_lister::text::{bytes_eq, split_all, starts_with, trim};

#[test]
fn manifest_last_occurrence_wins_and_junk_is_ignored() {
    let content = b"title = Hello\nunknown = x\njust a line without equals\n\
                    date=2024-01-01\ntitle = Final\npicture =  p.png  \n";
    let m = parse_manifest(content).unwrap();
    assert_eq!(m.title, b"Final".to_vec());
    assert_eq!(m.date, b"2024-01-01".to_vec());
    assert_eq!(m.picture, b"p.png".to_vec());
    assert_eq!(m.page, b"".to_vec());
}

#[test]
fn manifest_without_title_is_no_article() {
    assert!(parse_manifest(b"date = 2024-01-01\npicture = p.png").is_none());
    assert!(parse_manifest(b"title =    \ndate = 2024-01-01").is_none());
    assert!(parse_manifest(b"").is_none());
    // A later empty title unsets an earlier one.
    assert!(parse_manifest(b"title = Good\ntitle =").is_none());
}

#[test]
fn manifest_handles_crlf_lines() {
    let m = parse_manifest(b"title = T\r\ndate = 2024-01-01\r\n").unwrap();
    assert_eq!(m.title, b"T".to_vec());
    assert_eq!(m.date, b"2024-01-01".to_vec());
}

#[test]
fn manifest_value_may_contain_equals() {
    let m = parse_manifest(b"title = T\npage = http://x/?a=b").unwrap();
    assert_eq!(m.page, b"http://x/?a=b".to_vec());
}

#[test]
fn query_lookup_takes_the_last_pair_and_skips_malformed_ones() {
    assert_eq!(param_value(b"a=1&b=2&a=3", b"a"), Some(b"3".to_vec()));
    assert_eq!(param_value(b"noequals&b=2", b"b"), Some(b"2".to_vec()));
    assert_eq!(param_value(b"noequals", b"noequals"), None);
    assert_eq!(param_value(b"", b"a"), None);
    assert_eq!(param_value(b"limit=5", b"categories"), None);
}

#[test]
fn limit_parses_like_a_usize() {
    assert_eq!(limit_of(b"limit=7"), Some(7));
    assert_eq!(limit_of(b"limit=+7"), Some(7));
    assert_eq!(limit_of(b"limit=0"), Some(0));
    assert_eq!(limit_of(b"limit=007"), Some(7));
    assert_eq!(limit_of(b"limit=-7"), None);
    assert_eq!(limit_of(b"limit=++7"), None);
    assert_eq!(limit_of(b"limit="), None);
    assert_eq!(limit_of(b"limit=12a"), None);
    assert_eq!(limit_of(b"limit=99999999999999999999999999999"), None);
    assert_eq!(limit_of(b""), None);
    assert_eq!(limit_of(&format!("limit={}", usize::MAX).into_bytes()), Some(usize::MAX));
}

#[test]
fn categories_parameter_splits_on_commas() {
    let f = categories_filter(b"categories=a,b,c").unwrap();
    let names: Vec<Vec<u8>> = vec![b"a".to_vec(), b"b".to_vec(), b"c".to_vec()];
    assert_eq!(f, names);
    assert!(categories_filter(b"").is_none());
    assert!(categories_filter(b"categories=").is_none());
    // A trailing comma names an empty category, which matches nothing real.
    let g = categories_filter(b"categories=a,").unwrap();
    assert_eq!(g, vec![b"a".to_vec(), b"".to_vec()]);
}

#[test]
fn text_helpers_behave() {
    assert!(bytes_eq(b"abc", b"abc"));
    assert!(!bytes_eq(b"abc", b"abd"));
    assert!(starts_with(b"http://x", b"http"));
    assert!(!starts_with(b"htt", b"http"));
    assert_eq!(trim(b"  x y\t"), b"x y".to_vec());
    assert_eq!(trim(b"   "), b"".to_vec());
    let parts = split_all(b"a,b,,c", 44);
    assert_eq!(
        parts,
        vec![b"a".to_vec(), b"b".to_vec(), b"".to_vec(), b"c".to_vec()]
    );
    assert_eq!(split_all(b"", 44), vec![b"".to_vec()]);
}

#[test]
fn credentials_accept_exactly_the_default_pair() {
    assert!(is_credential_valid("Spock", "enigma42"));
    assert!(!is_credential_valid("Spock", "wrong"));
    assert!(!is_credential_valid("Kirk", "enigma42"));
    assert!(!is_credential_valid("", ""));
}

#[test]
fn origin_domain_keeps_its_origin() {
    let o = OriginDomain::new(String::from("example.com"));
    assert_eq!(o.origin_domain, "example.com");
}

#[test]
fn connection_check_reads_the_session_record() {
    assert!(!login_connected(&None));
    let off = LoginData {
        user_id: String::from("u"),
        connected: false,
        last_interaction: String::new(),
    };
    assert!(!login_connected(&Some(off)));
    let on = LoginData {
        user_id: String::from("u"),
        connected: true,
        last_interaction: String::new(),
    };
    assert!(login_connected(&Some(on)));
}

#[test]
fn static_routes_resolve_directories_and_strip_queries() {
    assert_eq!(route_path(b"/members/"), b"/members/index.html".to_vec());
    assert_eq!(route_path(b"/a/b.css?v=1"), b"/a/b.css".to_vec());
    assert_eq!(route_path(b"/a/b.js&extra=1"), b"/a/b.js".to_vec());
    assert_eq!(route_path(b""), b"".to_vec());
}

#[test]
fn mime_follows_the_extension() {
    assert_eq!(mime_for_path(b"/x/a.jpg"), MimeKind::Jpeg);
    assert_eq!(mime_for_path(b"/x/a.jpeg"), MimeKind::Jpeg);
    assert_eq!(mime_for_path(b"/x/a.png"), MimeKind::Png);
    assert_eq!(mime_for_path(b"/x/a.svg"), MimeKind::Svg);
    assert_eq!(mime_for_path(b"/x/index.html"), MimeKind::Html);
    assert_eq!(mime_for_path(b"/x/a.css"), MimeKind::Css);
    assert_eq!(mime_for_path(b"/x/a.js"), MimeKind::Js);
    assert_eq!(mime_for_path(b"/x/a.xml"), MimeKind::Xml);
    assert_eq!(mime_for_path(b"/x/a.pdf"), MimeKind::Pdf);
    assert_eq!(mime_for_path(b"/x/a.weird"), MimeKind::Plain);
    assert_eq!(mime_for_path(b"/x/noextension"), MimeKind::Plain);
}
