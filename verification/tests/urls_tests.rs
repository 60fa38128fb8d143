use crawl_worker::text::chars_vec;
use crawl_worker::urls::{is_http_scheme, parse_url, resolve_href, url_string, ParsedUrl};

fn resolve(base: &ParsedUrl, href: &str) -> Option<String> {
    resolve_href(base, &chars_vec(href)).map(|u| url_string(&u))
}

#[test]
fn parse_splits_scheme_host_and_path() {
    let u = parse_url("https://Example.ORG/Path?q=1#frag").unwrap();
    assert_eq!(u.scheme, "https");
    assert_eq!(u.host, "example.org");
    assert_eq!(u.path_and_query, "/Path?q=1");
    assert_eq!(url_string(&u), "https://example.org/Path?q=1");
}

#[test]
fn parse_defaults_empty_path_to_root() {
    let u = parse_url("http://example.org").unwrap();
    assert_eq!(u.path_and_query, "/");
    assert_eq!(url_string(&u), "http://example.org/");
    let q = parse_url("http://example.org?x=1").unwrap();
    assert_eq!(q.path_and_query, "/?x=1");
}

#[test]
fn parse_rejects_malformed_text() {
    assert!(parse_url("").is_none());
    assert!(parse_url("no scheme here").is_none());
    assert!(parse_url("mailto:a@example.org").is_none());
    assert!(parse_url("https://").is_none());
    assert!(parse_url("://example.org").is_none());
}

#[test]
fn non_http_schemes_are_recognized() {
    let u = parse_url("ftp://example.org/file").unwrap();
    assert!(!is_http_scheme(&u));
    assert!(is_http_scheme(&parse_url("http://a.example/").unwrap()));
    assert!(is_http_scheme(&parse_url("HTTPS://a.example/").unwrap()));
}

#[test]
fn resolve_handles_each_reference_form() {
    let base = parse_url("https://example.org/dir/page?q=1").unwrap();
    assert_eq!(resolve(&base, "https://other.org/x").as_deref(), Some("https://other.org/x"));
    assert_eq!(resolve(&base, "//cdn.example.org/lib.js").as_deref(), Some("https://cdn.example.org/lib.js"));
    assert_eq!(resolve(&base, "/abs").as_deref(), Some("https://example.org/abs"));
    assert_eq!(resolve(&base, "sibling").as_deref(), Some("https://example.org/dir/sibling"));
    assert_eq!(resolve(&base, "#frag"), None);
    assert_eq!(resolve(&base, ""), None);
}

#[test]
fn resolve_strips_fragments() {
    let base = parse_url("https://example.org/").unwrap();
    assert_eq!(resolve(&base, "/a#sec").as_deref(), Some("https://example.org/a"));
    assert_eq!(
        resolve(&base, "https://example.org/b?x=1#sec").as_deref(),
        Some("https://example.org/b?x=1")
    );
}
