use crawl_worker::crawler::{
    conditional_headers, feed_probe_urls, scrape_one, sitemap_url, CrawlConfig, Crawler,
    FetchOutcome, FetchResponse, FetchScript, ItemReport, PageOutcome, PageProbe, RobotsProbe,
};
use crawl_worker::queue::{INFLIGHT_SECS, SUCCESS_INTERVAL_SECS};
use crawl_worker::robots::RobotsCache;

fn cfg() -> CrawlConfig {
    CrawlConfig {
        user_agent: String::from("TestBot/1.0"),
        per_domain_concurrency: 2,
        per_domain_delay_ms: 0,
        max_tasks: 16,
        robots_ttl_secs: 3600,
        max_links_per_page: 100,
    }
}

fn html_response(status: u16, body: &str) -> FetchOutcome {
    FetchOutcome::Response(FetchResponse {
        status,
        content_type: String::from("text/html"),
        body: body.as_bytes().to_vec(),
        etag: None,
        last_modified: None,
    })
}

fn script_one_page(url: &str, outcome: FetchOutcome) -> FetchScript {
    FetchScript {
        robots: vec![RobotsProbe { host: String::from("example.org"), body: None }],
        pages: vec![PageProbe { url: String::from(url), outcome }],
    }
}

#[test]
fn tick_stores_seeded_page_and_enqueues_link() {
    let mut c = Crawler::new(cfg());
    let now = 1000u64;
    let added = c
        .queue
        .enqueue_if_absent("https://example.org/", Some(String::from("seed")), 100, now);
    assert!(added);

    let html = "<title>Example</title><body>Hello <a href=\"/a\">A</a></body>";
    let net = script_one_page("https://example.org/", html_response(200, html));
    let s = c.crawl_tick(1, now, &net);

    assert_eq!(s.processed_ok, 1);
    assert_eq!(s.failed, 0);
    assert_eq!(s.newly_enqueued, 1);

    let doc = c.docs.get("https://example.org/").expect("document stored");
    assert_eq!(doc.url, "https://example.org/");
    assert_eq!(doc.title.as_deref(), Some("Example"));
    assert_eq!(doc.body_text, "Hello");
    assert_eq!(doc.http_status, 200);
    // SHA-256 of the body text "Hello"
    assert_eq!(
        doc.content_hash.as_deref(),
        Some("185f8db32271fe25f561a6fc938b2e264306ec304eda518007d1764826381969")
    );
    // the language tag is exactly what whatlang says of the body text
    let expected_lang = whatlang::detect("Hello").map(|i| i.lang().code().to_string());
    assert_eq!(doc.lang, expected_lang);

    let row = c.queue.find_by_url("https://example.org/a").expect("link enqueued");
    assert_eq!(row.discovered_via.as_deref(), Some("link"));
    assert_eq!(row.priority, 0);

    let seed_row = c.queue.find_by_url("https://example.org/").expect("seed row");
    assert_eq!(seed_row.last_status, Some(200));
    assert_eq!(seed_row.attempts, 0);
    assert_eq!(seed_row.next_fetch_at, now + SUCCESS_INTERVAL_SECS);
}

#[test]
fn english_body_text_is_tagged_as_english() {
    let mut c = Crawler::new(cfg());
    let now = 77u64;
    c.queue.enqueue_if_absent("https://example.org/essay", None, 1, now);
    let html = "<title>Essay</title><body>The quick brown fox jumps over the lazy dog \
                and then wanders slowly home through quiet fields while evening \
                settles over the hills.</body>";
    let net = script_one_page("https://example.org/essay", html_response(200, html));
    let s = c.crawl_tick(1, now, &net);
    assert_eq!(s.processed_ok, 1);
    let doc = c.docs.get("https://example.org/essay").unwrap();
    assert_eq!(doc.lang.as_deref(), Some("eng"));
}

#[test]
fn tick_on_http_500_reschedules_with_backoff() {
    let mut c = Crawler::new(cfg());
    let now = 1000u64;
    c.queue
        .enqueue_if_absent("https://example.org/", Some(String::from("seed")), 100, now);

    let net = script_one_page("https://example.org/", html_response(500, ""));
    let s = c.crawl_tick(1, now, &net);

    assert_eq!(s.processed_ok, 0);
    assert_eq!(s.failed, 1);
    assert_eq!(s.newly_enqueued, 0);
    assert_eq!(c.docs.len(), 0);

    let row = c.queue.find_by_url("https://example.org/").unwrap();
    // one attempt spent, so a 30 minute backoff from the failure instant
    assert_eq!(row.attempts, 1);
    assert_eq!(row.last_error.as_deref(), Some("http_status"));
    assert_eq!(row.last_status, None);
    assert_eq!(row.next_fetch_at, now + 30 * 60);
    assert!(row.next_fetch_at > now);
}

#[test]
fn tick_on_304_is_success_without_store_write() {
    let mut c = Crawler::new(cfg());
    let now = 2000u64;
    c.queue
        .enqueue_if_absent("https://example.org/", None, 10, now);

    let outcome = FetchOutcome::Response(FetchResponse {
        status: 304,
        content_type: String::new(),
        body: Vec::new(),
        etag: Some(String::from("\"v1\"")),
        last_modified: None,
    });
    let net = script_one_page("https://example.org/", outcome);
    let s = c.crawl_tick(1, now, &net);

    assert_eq!(s.processed_ok, 1);
    assert_eq!(s.failed, 0);
    assert_eq!(c.docs.len(), 0);
    let row = c.queue.find_by_url("https://example.org/").unwrap();
    assert_eq!(row.last_status, Some(304));
    assert_eq!(row.next_fetch_at, now + SUCCESS_INTERVAL_SECS);
}

#[test]
fn invalid_scheme_is_rejected_without_queue_mutation() {
    let mut c = Crawler::new(cfg());
    let now = 100u64;
    c.queue.enqueue_if_absent("ftp://example.org/file", None, 5, now);
    let claimed = c.queue.dequeue_due(1, now);
    assert_eq!(claimed.len(), 1);
    let row_after_claim = c.queue.find_by_url("ftp://example.org/file").unwrap();

    // the script has no entry at all: a fetch attempt would show up as a
    // transport error, not as an invalid-URL failure
    let net = FetchScript { robots: vec![], pages: vec![] };
    let r = c.process_item(&claimed[0], &net, now);
    match r {
        ItemReport::Failed(e) => assert_eq!(e.label(), "invalid_url"),
        _ => panic!("expected a failure report"),
    }
    // no queue mutation beyond the claim itself
    let row = c.queue.find_by_url("ftp://example.org/file").unwrap();
    assert_eq!(row.next_fetch_at, row_after_claim.next_fetch_at);
    assert_eq!(row.attempts, row_after_claim.attempts);
    assert_eq!(row.last_error, None);
    assert_eq!(c.docs.len(), 0);
}

#[test]
fn robots_disallow_blocks_and_reschedules() {
    let mut c = Crawler::new(cfg());
    let now = 50u64;
    c.queue.enqueue_if_absent("https://example.org/private/x", None, 1, now);
    let net = FetchScript {
        robots: vec![RobotsProbe {
            host: String::from("example.org"),
            body: Some(String::from("User-agent: *\nDisallow: /private")),
        }],
        pages: vec![],
    };
    let s = c.crawl_tick(1, now, &net);
    assert_eq!(s.processed_ok, 0);
    assert_eq!(s.failed, 1);
    let row = c.queue.find_by_url("https://example.org/private/x").unwrap();
    assert_eq!(row.last_error.as_deref(), Some("robots_blocked"));
}

#[test]
fn robots_fetch_failure_fails_open_in_tick() {
    let mut c = Crawler::new(cfg());
    let now = 50u64;
    c.queue.enqueue_if_absent("https://example.org/p", None, 1, now);
    // no robots entry for the host: the robots.txt fetch failed; the page
    // must still be fetched
    let net = FetchScript {
        robots: vec![],
        pages: vec![PageProbe {
            url: String::from("https://example.org/p"),
            outcome: html_response(200, "<body>ok</body>"),
        }],
    };
    let s = c.crawl_tick(1, now, &net);
    assert_eq!(s.processed_ok, 1);
    assert_eq!(s.failed, 0);
    assert!(c.docs.get("https://example.org/p").is_some());
}

#[test]
fn non_html_content_type_fails_distinctly() {
    let mut c = Crawler::new(cfg());
    let now = 10u64;
    c.queue.enqueue_if_absent("https://example.org/data", None, 1, now);
    let outcome = FetchOutcome::Response(FetchResponse {
        status: 200,
        content_type: String::from("application/json"),
        body: b"{}".to_vec(),
        etag: None,
        last_modified: None,
    });
    let net = script_one_page("https://example.org/data", outcome);
    let s = c.crawl_tick(1, now, &net);
    assert_eq!(s.failed, 1);
    let row = c.queue.find_by_url("https://example.org/data").unwrap();
    assert_eq!(row.last_error.as_deref(), Some("unsupported_content_type"));
}

#[test]
fn transport_error_fails_as_network_error() {
    let mut c = Crawler::new(cfg());
    let now = 10u64;
    c.queue.enqueue_if_absent("https://example.org/x", None, 1, now);
    let net = script_one_page(
        "https://example.org/x",
        FetchOutcome::TransportError(String::from("timeout")),
    );
    let s = c.crawl_tick(1, now, &net);
    assert_eq!(s.failed, 1);
    let row = c.queue.find_by_url("https://example.org/x").unwrap();
    assert_eq!(row.last_error.as_deref(), Some("network_error"));
}

#[test]
fn scrape_one_decodes_utf8_bodies() {
    let mut cache = RobotsCache::new(60);
    let config = cfg();
    let html = "<title>R\u{e9}sum\u{e9}</title><body>caf\u{e9}</body>";
    let net = script_one_page("https://example.org/", html_response(200, html));
    let r = scrape_one(&mut cache, &config, &net, "https://example.org/", 7);
    match r {
        PageOutcome::Page(doc, _links) => {
            assert_eq!(doc.title.as_deref(), Some("R\u{e9}sum\u{e9}"));
            assert_eq!(doc.body_text, "caf\u{e9}");
        }
        _ => panic!("expected a stored page"),
    }
}

#[test]
fn scrape_one_rejects_invalid_url() {
    let mut cache = RobotsCache::new(60);
    let config = cfg();
    let net = FetchScript { robots: vec![], pages: vec![] };
    match scrape_one(&mut cache, &config, &net, "not a url", 7) {
        PageOutcome::Failed(e) => assert_eq!(e.label(), "invalid_url"),
        _ => panic!("expected invalid url"),
    }
    match scrape_one(&mut cache, &config, &net, "mailto:a@example.org", 7) {
        PageOutcome::Failed(e) => assert_eq!(e.label(), "invalid_url"),
        _ => panic!("expected invalid url"),
    }
}

#[test]
fn robots_cache_is_reused_within_ttl() {
    let mut c = Crawler::new(cfg());
    let now = 50u64;
    c.queue.enqueue_if_absent("https://example.org/private/a", None, 2, now);
    c.queue.enqueue_if_absent("https://example.org/private/b", None, 1, now);
    // the robots body arrives once; the second item must be decided from
    // the cache even though the script no longer answers for the host
    let net1 = FetchScript {
        robots: vec![RobotsProbe {
            host: String::from("example.org"),
            body: Some(String::from("User-agent: *\nDisallow: /private")),
        }],
        pages: vec![],
    };
    let claimed = c.queue.dequeue_due(2, now);
    assert_eq!(claimed.len(), 2);
    let r1 = c.process_item(&claimed[0], &net1, now);
    let net2 = FetchScript { robots: vec![], pages: vec![] };
    let r2 = c.process_item(&claimed[1], &net2, now);
    for r in [r1, r2] {
        match r {
            ItemReport::Failed(e) => assert_eq!(e.label(), "robots_blocked"),
            _ => panic!("expected robots block"),
        }
    }
}

#[test]
fn seed_default_sources_is_idempotent() {
    let mut c = Crawler::new(cfg());
    let n1 = c.seed_default_sources(5);
    assert_eq!(n1, 10);
    let n2 = c.seed_default_sources(6);
    assert_eq!(n2, 0);
    assert_eq!(c.queue.len(), 10);
    let row = c.queue.find_by_url("https://www.ipcc.ch/").unwrap();
    assert_eq!(row.priority, 100);
    assert_eq!(row.discovered_via.as_deref(), Some("seed"));
}

#[test]
fn discover_feeds_takes_first_valid_feed() {
    let mut c = Crawler::new(cfg());
    let rss = "<rss><channel><item><link>https://example.org/p1</link></item>\
               <item><link>https://example.org/p2</link></item></channel></rss>";
    let fetched = vec![
        None,
        Some(String::from("<html><body>not a feed</body></html>")),
        Some(String::from(rss)),
        Some(String::from("<rss><channel><item><link>https://example.org/other</link></item></channel></rss>")),
    ];
    let n = c.try_discover_feeds(&fetched, 3);
    assert_eq!(n, 2);
    assert!(c.queue.find_by_url("https://example.org/p1").is_some());
    assert!(c.queue.find_by_url("https://example.org/p2").is_some());
    assert!(c.queue.find_by_url("https://example.org/other").is_none());
    let row = c.queue.find_by_url("https://example.org/p1").unwrap();
    assert_eq!(row.discovered_via.as_deref(), Some("rss"));
}

#[test]
fn discover_sitemap_enqueues_each_loc() {
    let mut c = Crawler::new(cfg());
    let sm = "<?xml version=\"1.0\"?><urlset>\
              <url><loc>https://example.org/a</loc></url>\
              <url><loc> https://example.org/b </loc></url>\
              </urlset>";
    let n = c.try_discover_sitemap(&Some(String::from(sm)), 4);
    assert_eq!(n, 2);
    assert_eq!(c.queue.find_by_url("https://example.org/b").unwrap().discovered_via.as_deref(), Some("sitemap"));
    assert_eq!(c.try_discover_sitemap(&None, 4), 0);
}

#[test]
fn probe_urls_follow_the_conventional_paths() {
    let probes = feed_probe_urls("https://example.org/blog/post").unwrap();
    assert_eq!(
        probes,
        vec![
            String::from("https://example.org/blog/post"),
            String::from("https://example.org/feed/"),
            String::from("https://example.org/rss.xml"),
            String::from("https://example.org/atom.xml"),
        ]
    );
    assert_eq!(sitemap_url("https://example.org/x"), Some(String::from("https://example.org/sitemap.xml")));
    assert!(feed_probe_urls("nonsense").is_none());
}

#[test]
fn conditional_headers_carry_the_validators() {
    let hs = conditional_headers(&Some(String::from("\"abc\"")), &None);
    assert_eq!(hs.len(), 1);
    assert_eq!(hs[0].name, "if-none-match");
    assert_eq!(hs[0].value, "\"abc\"");
    let hs2 = conditional_headers(
        &Some(String::from("\"abc\"")),
        &Some(String::from("Wed, 21 Oct 2015 07:28:00 GMT")),
    );
    assert_eq!(hs2.len(), 2);
    assert_eq!(hs2[1].name, "if-modified-since");
    let hs3 = conditional_headers(&None, &None);
    assert!(hs3.is_empty());
}

#[test]
fn the_clock_reads_a_present_day_time() {
    // seconds since the epoch; anything before late 2020 means the wrapper
    // did not read the clock
    assert!(crawl_worker::clock::now_secs() > 1_600_000_000);
}

#[test]
fn empty_tick_changes_nothing() {
    let mut c = Crawler::new(cfg());
    let net = FetchScript { robots: vec![], pages: vec![] };
    let s = c.crawl_tick(5, 1, &net);
    assert_eq!(s.processed_ok, 0);
    assert_eq!(s.failed, 0);
    assert_eq!(s.newly_enqueued, 0);
    assert_eq!(c.queue.len(), 0);
}

#[test]
fn store_failure_reschedules_for_retry() {
    let mut c = Crawler::new(cfg());
    let now = 9u64;
    c.queue.enqueue_if_absent("https://example.org/", None, 1, now);
    let claimed = c.queue.dequeue_due(1, now);
    // a durable store may fail after a successful fetch; the row must come
    // back for another attempt
    let found = c
        .queue
        .reschedule_failure(claimed[0].id, "store_failed", now);
    assert!(found);
    let row = c.queue.find_by_url("https://example.org/").unwrap();
    assert_eq!(row.last_error.as_deref(), Some("store_failed"));
    assert_eq!(row.next_fetch_at, now + 30 * 60);
}
