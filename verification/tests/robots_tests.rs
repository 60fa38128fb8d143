use crawl_worker::robots::{
    parse_robots, robots_allowed, robots_decision, robots_fetch_body, RobotsCache,
};

#[test]
fn longest_disallow_prefix_blocks() {
    let groups = parse_robots("User-agent: *\nDisallow: /private\n");
    assert!(!robots_allowed(&groups, "TestBot", "/private/page"));
    assert!(robots_allowed(&groups, "TestBot", "/public"));
}

#[test]
fn longer_allow_overrides_disallow() {
    let groups = parse_robots("User-agent: *\nDisallow: /private\nAllow: /private/open\n");
    assert!(!robots_allowed(&groups, "TestBot", "/private/page"));
    assert!(robots_allowed(&groups, "TestBot", "/private/open/page"));
}

#[test]
fn empty_disallow_never_blocks() {
    let groups = parse_robots("User-agent: *\nDisallow:\n");
    assert!(robots_allowed(&groups, "TestBot", "/anything"));
}

#[test]
fn agent_group_is_matched_case_insensitively_as_substring() {
    let body = "User-agent: TestBot\nDisallow: /only-testbot\n\nUser-agent: *\nDisallow: /all\n";
    let groups = parse_robots(body);
    // the named group applies to this agent...
    assert!(!robots_allowed(&groups, "Mozilla/5.0 (compatible; testbot/2.1)", "/only-testbot/x"));
    // ...and the wildcard group does not
    assert!(robots_allowed(&groups, "Mozilla/5.0 (compatible; testbot/2.1)", "/all/x"));
    // another agent falls back to the wildcard group
    assert!(!robots_allowed(&groups, "OtherBot", "/all/x"));
    assert!(robots_allowed(&groups, "OtherBot", "/only-testbot/x"));
}

#[test]
fn consecutive_user_agent_lines_share_a_group() {
    let body = "User-agent: alpha\nUser-agent: beta\nDisallow: /x\n";
    let groups = parse_robots(body);
    assert!(!robots_allowed(&groups, "alpha", "/x/1"));
    assert!(!robots_allowed(&groups, "beta", "/x/1"));
    // no wildcard group: an unnamed agent is allowed
    assert!(robots_allowed(&groups, "gamma", "/x/1"));
}

#[test]
fn comments_and_unknown_directives_are_ignored() {
    let body = "# a comment\nUser-agent: * # trailing\nCrawl-delay: 10\nDisallow: /x\n";
    let groups = parse_robots(body);
    assert!(!robots_allowed(&groups, "AnyBot", "/x"));
    assert!(robots_allowed(&groups, "AnyBot", "/y"));
}

#[test]
fn no_groups_allows_everything() {
    let groups = parse_robots("just some text\n");
    assert!(robots_allowed(&groups, "AnyBot", "/anything"));
}

#[test]
fn fetch_failure_fails_open() {
    // a non-success status yields no body, and no body allows the URL
    assert_eq!(robots_fetch_body(503, String::from("ignored")), None);
    assert_eq!(robots_fetch_body(404, String::from("ignored")), None);
    assert!(robots_decision(&None, "TestBot", "/private/page"));
    // whereas a success status hands the body to the parser
    let body = robots_fetch_body(200, String::from("User-agent: *\nDisallow: /private\n"));
    assert!(body.is_some());
    assert!(!robots_decision(&body, "TestBot", "/private/page"));
}

#[test]
fn cache_respects_ttl() {
    let mut cache = RobotsCache::new(100);
    let groups = parse_robots("User-agent: *\nDisallow: /x\n");
    cache.install("example.org", 1000, groups);
    assert!(cache.lookup("example.org", 1050).is_some());
    assert!(cache.lookup("example.org", 1100).is_some());
    // expired
    assert!(cache.lookup("example.org", 1101).is_none());
    // unknown host
    assert!(cache.lookup("other.org", 1050).is_none());
}

#[test]
fn cache_install_replaces_the_host_entry() {
    let mut cache = RobotsCache::new(1000);
    cache.install("example.org", 10, parse_robots("User-agent: *\nDisallow: /a\n"));
    cache.install("example.org", 20, parse_robots("User-agent: *\nDisallow: /b\n"));
    let g = cache.lookup("example.org", 25).unwrap();
    assert!(robots_allowed(g, "X", "/a"));
    assert!(!robots_allowed(g, "X", "/b"));
}
