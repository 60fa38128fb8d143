use crawl_worker::extract::{extract, MAX_BODY_CHARS};
use crawl_worker::text::chars_vec;
use crawl_worker::urls::{parse_url, url_string, ParsedUrl};

fn base() -> ParsedUrl {
    parse_url("https://example.org/").unwrap()
}

fn run(html: &str) -> crawl_worker::extract::Extraction {
    extract(&chars_vec(html), &base(), 100)
}

#[test]
fn title_is_first_title_trimmed() {
    let e = run("<html><head><title>  Hello World </title></head><body>x</body></html>");
    assert_eq!(e.title.as_deref(), Some("Hello World"));
    let e2 = run("<title>First</title><title>Second</title>");
    assert_eq!(e2.title.as_deref(), Some("First"));
    let e3 = run("<title>   </title><body>x</body>");
    assert_eq!(e3.title, None);
}

#[test]
fn description_prefers_meta_name_over_og() {
    let e = run("<meta property=\"og:description\" content=\"og text\">\
                 <meta name=\"description\" content=\" main text \">");
    assert_eq!(e.description.as_deref(), Some("main text"));
    let e2 = run("<meta property=\"og:description\" content=\"og text\">");
    assert_eq!(e2.description.as_deref(), Some("og text"));
    let e3 = run("<body>no meta</body>");
    assert_eq!(e3.description, None);
}

#[test]
fn body_text_joins_direct_text_nodes() {
    let e = run("<body>  one \n <div>skipped</div> two <script>var x = 1;</script> three </body>");
    assert_eq!(e.body_text, "one\ntwo\nthree");
    let e2 = run("<head><title>t</title></head>");
    assert_eq!(e2.body_text, "");
}

#[test]
fn comments_and_declarations_are_skipped() {
    let e = run("<!DOCTYPE html><body>a<!-- hidden <b>text</b> -->b</body>");
    assert_eq!(e.body_text, "a\nb");
}

#[test]
fn links_are_same_host_deduplicated_and_resolved() {
    let html = "<body>\
        <a href=\"/a\">one</a>\
        <a href=\"/a#frag\">same</a>\
        <a href=\"https://example.org/b?x=1\">two</a>\
        <a href=\"https://other.org/c\">off-host</a>\
        <a href=\"mailto:x@example.org\">mail</a>\
        <a href=\"rel\">three</a>\
        </body>";
    let e = run(html);
    let got: Vec<String> = e.links.iter().map(url_string).collect();
    assert_eq!(
        got,
        vec![
            String::from("https://example.org/a"),
            String::from("https://example.org/b?x=1"),
            String::from("https://example.org/rel"),
        ]
    );
}

#[test]
fn links_are_capped() {
    let mut html = String::from("<body>");
    for i in 0..10 {
        html.push_str(&format!("<a href=\"/p{i}\">x</a>"));
    }
    html.push_str("</body>");
    let e = extract(&chars_vec(&html), &base(), 4);
    assert_eq!(e.links.len(), 4);
    assert_eq!(url_string(&e.links[3]), "https://example.org/p3");
}

#[test]
fn body_text_is_truncated() {
    let long = "a".repeat(MAX_BODY_CHARS + 500);
    let html = format!("<body>{long}</body>");
    let e = extract(&chars_vec(&html), &base(), 10);
    assert_eq!(e.body_text.chars().count(), MAX_BODY_CHARS);
}

#[test]
fn unquoted_and_single_quoted_attributes_parse() {
    let e = run("<body><a href=/u>u</a><a href='/s'>s</a></body>");
    let got: Vec<String> = e.links.iter().map(url_string).collect();
    assert_eq!(
        got,
        vec![String::from("https://example.org/u"), String::from("https://example.org/s")]
    );
}
