use crawl_worker::discover::{feed_links, sitemap_locs};

#[test]
fn rss_items_yield_their_first_link() {
    let rss = "<?xml version=\"1.0\"?><rss version=\"2.0\"><channel>\
               <title>Feed</title><link>https://example.org/</link>\
               <item><title>A</title><link>https://example.org/a</link></item>\
               <item><link>https://example.org/b</link><link>https://example.org/b2</link></item>\
               </channel></rss>";
    let links = feed_links(rss).expect("valid feed");
    assert_eq!(
        links,
        vec![String::from("https://example.org/a"), String::from("https://example.org/b")]
    );
}

#[test]
fn atom_entries_yield_their_first_href() {
    let atom = "<?xml version=\"1.0\"?><feed xmlns=\"http://www.w3.org/2005/Atom\">\
                <title>Feed</title>\
                <entry><link rel=\"alternate\" href=\"https://example.org/e1\"/><title>E1</title></entry>\
                <entry><link href=\"https://example.org/e2\"/></entry>\
                </feed>";
    let links = feed_links(atom).expect("valid feed");
    assert_eq!(
        links,
        vec![String::from("https://example.org/e1"), String::from("https://example.org/e2")]
    );
}

#[test]
fn non_feed_documents_are_refused() {
    assert!(feed_links("<html><body>hello</body></html>").is_none());
    assert!(feed_links("plain text").is_none());
    assert!(feed_links("").is_none());
}

#[test]
fn entries_without_links_are_dropped() {
    let rss = "<rss><channel><item><title>no link</title></item>\
               <item><link>https://example.org/x</link></item></channel></rss>";
    let links = feed_links(rss).unwrap();
    assert_eq!(links, vec![String::from("https://example.org/x")]);
}

#[test]
fn sitemap_locs_are_collected_in_order() {
    let sm = "<?xml version=\"1.0\" encoding=\"UTF-8\"?>\
              <urlset xmlns=\"http://www.sitemaps.org/schemas/sitemap/0.9\">\
              <url><loc>https://example.org/1</loc><lastmod>2020-01-01</lastmod></url>\
              <url><loc>\n  https://example.org/2\n</loc></url>\
              </urlset>";
    assert_eq!(
        sitemap_locs(sm),
        vec![String::from("https://example.org/1"), String::from("https://example.org/2")]
    );
}

#[test]
fn loc_outside_url_entries_is_ignored() {
    let sm = "<sitemapindex><sitemap><loc>https://example.org/sitemap1.xml</loc></sitemap></sitemapindex>";
    assert!(sitemap_locs(sm).is_empty());
    assert!(sitemap_locs("not xml at all").is_empty());
}
