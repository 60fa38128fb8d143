use crawl_worker::queue::{backoff_minutes, CrawlQueue, INFLIGHT_SECS, SUCCESS_INTERVAL_SECS};

#[test]
fn enqueue_same_url_twice_keeps_one_row() {
    let mut q = CrawlQueue::new();
    assert!(q.enqueue_if_absent("https://a.example/", None, 10, 1));
    assert!(!q.enqueue_if_absent("https://a.example/", None, 5, 2));
    assert_eq!(q.len(), 1);
    let row = q.find_by_url("https://a.example/").unwrap();
    // not downgraded by the second call
    assert_eq!(row.priority, 10);
    // the first call's schedule stands
    assert_eq!(row.next_fetch_at, 1);
}

#[test]
fn enqueue_again_with_higher_priority_upgrades() {
    let mut q = CrawlQueue::new();
    q.enqueue_if_absent("https://a.example/", None, 10, 1);
    assert!(!q.enqueue_if_absent("https://a.example/", None, 90, 2));
    assert_eq!(q.len(), 1);
    assert_eq!(q.find_by_url("https://a.example/").unwrap().priority, 90);
}

#[test]
fn dequeue_claims_by_priority_then_id() {
    let mut q = CrawlQueue::new();
    q.enqueue_if_absent("https://a.example/1", None, 10, 0);
    q.enqueue_if_absent("https://a.example/2", None, 90, 0);
    q.enqueue_if_absent("https://a.example/3", None, 90, 0);
    q.enqueue_if_absent("https://a.example/4", None, 50, 0);
    let claimed = q.dequeue_due(3, 5);
    let urls: Vec<&str> = claimed.iter().map(|c| c.url.as_str()).collect();
    assert_eq!(
        urls,
        vec!["https://a.example/2", "https://a.example/3", "https://a.example/4"]
    );
}

#[test]
fn dequeue_skips_rows_not_yet_due() {
    let mut q = CrawlQueue::new();
    q.enqueue_if_absent("https://a.example/soon", None, 1, 100);
    q.enqueue_if_absent("https://a.example/later", None, 99, 900);
    let claimed = q.dequeue_due(10, 100);
    assert_eq!(claimed.len(), 1);
    assert_eq!(claimed[0].url, "https://a.example/soon");
}

#[test]
fn claim_stamps_the_row_against_second_claims() {
    let mut q = CrawlQueue::new();
    q.enqueue_if_absent("https://a.example/", None, 1, 10);
    let now = 10u64;
    let c1 = q.dequeue_due(5, now);
    assert_eq!(c1.len(), 1);
    assert_eq!(c1[0].attempts, 1);
    assert_eq!(c1[0].next_fetch_at, now + INFLIGHT_SECS);
    // a second caller at the same instant gets nothing
    let c2 = q.dequeue_due(5, now);
    assert!(c2.is_empty());
}

#[test]
fn concurrent_claimers_take_disjoint_sets() {
    let mut q = CrawlQueue::new();
    for i in 0..6 {
        q.enqueue_if_absent(&format!("https://a.example/{i}"), None, i as i32, 0);
    }
    let now = 1u64;
    let c1 = q.dequeue_due(2, now);
    let c2 = q.dequeue_due(2, now);
    let c3 = q.dequeue_due(9, now);
    let mut ids: Vec<i64> = c1.iter().chain(c2.iter()).chain(c3.iter()).map(|c| c.id).collect();
    assert_eq!(ids.len(), 6);
    ids.sort();
    ids.dedup();
    // the union holds no duplicate: every row was claimed exactly once
    assert_eq!(ids.len(), 6);
}

#[test]
fn dequeue_with_zero_batch_claims_nothing() {
    let mut q = CrawlQueue::new();
    q.enqueue_if_absent("https://a.example/", None, 1, 0);
    assert!(q.dequeue_due(0, 5).is_empty());
    // the row is untouched and still due
    assert_eq!(q.dequeue_due(1, 5).len(), 1);
}

#[test]
fn reschedule_success_resets_and_delays() {
    let mut q = CrawlQueue::new();
    q.enqueue_if_absent("https://a.example/", None, 1, 0);
    let c = q.dequeue_due(1, 0);
    let found = q.reschedule_success(c[0].id, 200, 50);
    assert!(found);
    let row = q.find_by_url("https://a.example/").unwrap();
    assert_eq!(row.attempts, 0);
    assert_eq!(row.last_status, Some(200));
    assert_eq!(row.last_error, None);
    assert_eq!(row.next_fetch_at, 50 + SUCCESS_INTERVAL_SECS);
    assert!(!q.reschedule_success(999, 200, 50));
}

#[test]
fn repeated_failures_never_move_the_retry_earlier() {
    let mut q = CrawlQueue::new();
    q.enqueue_if_absent("https://a.example/", None, 1, 0);
    let mut now = 0u64;
    let mut last_next = 0u64;
    for round in 1..6u32 {
        let c = q.dequeue_due(1, now);
        assert_eq!(c.len(), 1, "round {round}: row must be due again");
        q.reschedule_failure(c[0].id, "network_error", now);
        let row = q.find_by_url("https://a.example/").unwrap();
        assert!(row.next_fetch_at >= last_next, "backoff must not retreat");
        assert_eq!(row.attempts, round);
        assert_eq!(row.next_fetch_at, now + 60 * backoff_minutes(round));
        last_next = row.next_fetch_at;
        now = row.next_fetch_at;
    }
}

#[test]
fn backoff_minutes_grows_and_caps() {
    assert_eq!(backoff_minutes(1), 30);
    assert_eq!(backoff_minutes(2), 60);
    assert_eq!(backoff_minutes(11), 330);
    assert_eq!(backoff_minutes(12), 360);
    assert_eq!(backoff_minutes(100), 360);
    let mut prev = 0u64;
    for a in 0..40u32 {
        let b = backoff_minutes(a);
        assert!(b >= prev);
        prev = b;
    }
}

#[test]
fn enqueue_many_counts_only_new_rows() {
    let mut q = CrawlQueue::new();
    q.enqueue_if_absent("https://a.example/1", None, 1, 0);
    let urls = vec![
        String::from("https://a.example/1"),
        String::from("https://a.example/2"),
        String::from("https://a.example/2"),
        String::from("https://a.example/3"),
    ];
    let n = q.enqueue_many(&urls, Some("sitemap"), 7, 3);
    assert_eq!(n, 2);
    assert_eq!(q.len(), 3);
    let row = q.find_by_url("https://a.example/2").unwrap();
    assert_eq!(row.discovered_via.as_deref(), Some("sitemap"));
    assert_eq!(row.priority, 7);
}
