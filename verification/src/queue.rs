//! The durable work queue model: idempotent insert, priority-ordered
//! concurrency-safe claiming of due items, and success/failure rescheduling
//! with a backoff that grows with the number of attempts.
use vstd::prelude::*;

use crate::text;
use crate::types::clone_opt_string;

verus! {

/// Seconds an item stays unclaimable after it has been claimed.
pub const INFLIGHT_SECS: u64 = 300;

/// Seconds until a successfully fetched item comes due again.
pub const SUCCESS_INTERVAL_SECS: u64 = 21600;

/// Addition on timestamps that sticks to the top instead of wrapping.
pub open spec fn sat_add64(a: u64, b: u64) -> u64 {
    if a + b > u64::MAX {
        u64::MAX
    } else {
        (a + b) as u64
    }
}

pub fn sat_add(a: u64, b: u64) -> (r: u64)
    ensures
        r == sat_add64(a, b),
{
    if a > u64::MAX - b {
        u64::MAX
    } else {
        a + b
    }
}

pub open spec fn sat_inc32(a: u32) -> u32 {
    if a < u32::MAX {
        (a + 1) as u32
    } else {
        a
    }
}

/// Minutes of backoff after a failure: grows linearly with the attempts
/// already spent, capped at six hours.
pub open spec fn backoff_minutes_s(attempts: u32) -> u64 {
    if attempts >= 12 {
        360
    } else {
        (30 * attempts) as u64
    }
}

pub fn backoff_minutes(attempts: u32) -> (r: u64)
    ensures
        r == backoff_minutes_s(attempts),
{
    if attempts >= 12 {
        360
    } else {
        30 * (attempts as u64)
    }
}

/// Seconds of backoff after a failure.
pub open spec fn failure_delay_secs(attempts: u32) -> u64 {
    (60 * backoff_minutes_s(attempts)) as u64
}

/// The backoff never shrinks as attempts accumulate.
pub proof fn lemma_backoff_monotone(a1: u32, a2: u32)
    requires
        a1 <= a2,
    ensures
        backoff_minutes_s(a1) <= backoff_minutes_s(a2),
{
}

/// Mathematical shape of one queue row.
pub ghost struct ItemView {
    pub id: i64,
    pub url: Seq<char>,
    pub discovered_via: Option<Seq<char>>,
    pub priority: i32,
    pub next_fetch_at: u64,
    pub attempts: u32,
    pub last_status: Option<i32>,
    pub last_error: Option<Seq<char>>,
}

/// One row of the crawl queue.
pub struct QueueItem {
    pub id: i64,
    pub url: String,
    pub discovered_via: Option<String>,
    pub priority: i32,
    pub next_fetch_at: u64,
    pub attempts: u32,
    pub last_status: Option<i32>,
    pub last_error: Option<String>,
}

impl View for QueueItem {
    type V = ItemView;

    open spec fn view(&self) -> ItemView {
        ItemView {
            id: self.id,
            url: self.url@,
            discovered_via: text::opt_sv(self.discovered_via),
            priority: self.priority,
            next_fetch_at: self.next_fetch_at,
            attempts: self.attempts,
            last_status: self.last_status,
            last_error: text::opt_sv(self.last_error),
        }
    }
}

impl Clone for QueueItem {
    fn clone(&self) -> (r: Self)
        ensures
            r@ == self@,
    {
        QueueItem {
            id: self.id,
            url: self.url.clone(),
            discovered_via: clone_opt_string(&self.discovered_via),
            priority: self.priority,
            next_fetch_at: self.next_fetch_at,
            attempts: self.attempts,
            last_status: self.last_status,
            last_error: clone_opt_string(&self.last_error),
        }
    }
}

/// An item is due when its scheduled time has passed.
pub open spec fn due(it: ItemView, now: u64) -> bool {
    it.next_fetch_at <= now
}

/// Claim selection order: higher priority first, then lower id.
pub open spec fn claim_order(a: ItemView, b: ItemView) -> bool {
    a.priority > b.priority || (a.priority == b.priority && a.id < b.id)
}

/// Two rows with different ids are strictly ordered one way or the other.
pub proof fn lemma_claim_order_total(a: ItemView, b: ItemView)
    requires
        a.id != b.id,
    ensures
        claim_order(a, b) || claim_order(b, a),
{
}

/// A claim stamps the row: one more attempt, and the next fetch pushed
/// beyond the in-flight window so that nobody else can claim it.
pub open spec fn claim_stamp(it: ItemView, now: u64) -> ItemView {
    ItemView {
        attempts: sat_inc32(it.attempts),
        next_fetch_at: sat_add64(now, INFLIGHT_SECS),
        ..it
    }
}

/// First index whose row has the given URL, or the length.
pub open spec fn url_idx(s: Seq<ItemView>, url: Seq<char>) -> int
    decreases s.len(),
{
    if s.len() == 0 {
        0
    } else if s.first().url == url {
        0
    } else {
        1 + url_idx(s.drop_first(), url)
    }
}

/// First index whose row has the given id, or the length.
pub open spec fn id_idx(s: Seq<ItemView>, id: i64) -> int
    decreases s.len(),
{
    if s.len() == 0 {
        0
    } else if s.first().id == id {
        0
    } else {
        1 + id_idx(s.drop_first(), id)
    }
}

pub proof fn lemma_url_idx_props(s: Seq<ItemView>, url: Seq<char>)
    ensures
        0 <= url_idx(s, url) <= s.len(),
        url_idx(s, url) < s.len() ==> s[url_idx(s, url)].url == url,
        forall|m: int| 0 <= m < url_idx(s, url) ==> s[m].url != url,
        url_idx(s, url) == s.len() ==> forall|m: int| 0 <= m < s.len() ==> s[m].url != url,
    decreases s.len(),
{
    if s.len() > 0 && s.first().url != url {
        lemma_url_idx_props(s.drop_first(), url);
        assert forall|m: int| 0 <= m < url_idx(s, url) implies s[m].url != url by {
            if m > 0 {
                assert(s.drop_first()[m - 1] == s[m]);
            }
        }
        if url_idx(s, url) == s.len() {
            assert forall|m: int| 0 <= m < s.len() implies s[m].url != url by {
                if m > 0 {
                    assert(s.drop_first()[m - 1] == s[m]);
                }
            }
        }
    }
}

pub proof fn lemma_url_idx_is(s: Seq<ItemView>, url: Seq<char>, k: int)
    requires
        0 <= k < s.len(),
        s[k].url == url,
        forall|m: int| 0 <= m < k ==> s[m].url != url,
    ensures
        url_idx(s, url) == k,
    decreases k,
{
    if k > 0 {
        assert(forall|m: int| 0 <= m < k - 1 ==> s.drop_first()[m] == s[m + 1]);
        assert(s.drop_first()[k - 1] == s[k]);
        lemma_url_idx_is(s.drop_first(), url, k - 1);
    }
}

pub proof fn lemma_id_idx_is(s: Seq<ItemView>, id: i64, k: int)
    requires
        0 <= k < s.len(),
        s[k].id == id,
        forall|m: int| 0 <= m < k ==> s[m].id != id,
    ensures
        id_idx(s, id) == k,
    decreases k,
{
    if k > 0 {
        assert(forall|m: int| 0 <= m < k - 1 ==> s.drop_first()[m] == s[m + 1]);
        assert(s.drop_first()[k - 1] == s[k]);
        lemma_id_idx_is(s.drop_first(), id, k - 1);
    }
}

/// The row under a URL in a sequence of rows.
pub open spec fn row_by_url(s: Seq<ItemView>, url: Seq<char>) -> Option<ItemView> {
    let k = url_idx(s, url);
    if k < s.len() {
        Some(s[k])
    } else {
        None
    }
}

/// View of a sequence of rows.
pub open spec fn items_view(s: Seq<QueueItem>) -> Seq<ItemView> {
    s.map_values(|it: QueueItem| it@)
}

/// Some claimed row carries this id.
pub open spec fn claimed_has(c: Seq<ItemView>, id: i64) -> bool {
    exists|m: int| 0 <= m < c.len() && c[m].id == id
}

/// The best due row of the scan so far: indices from `k` on are compared
/// against the current candidate `best` (the length when none yet), higher
/// priority first, then lower id.
pub open spec fn best_due_from(s: Seq<ItemView>, now: u64, k: int, best: int) -> int
    decreases s.len() - k,
    when 0 <= k <= s.len() && 0 <= best <= s.len()
{
    if k >= s.len() {
        best
    } else {
        let b2 = if due(s[k], now) && (best == s.len() || claim_order(s[k], s[best])) {
            k
        } else {
            best
        };
        best_due_from(s, now, k + 1, b2)
    }
}

/// What one claim pass leaves behind and takes along.
pub ghost struct ClaimFold {
    pub rows: Seq<ItemView>,
    pub claimed: Seq<ItemView>,
}

/// The claim pass as a function of the rows: repeatedly stamp the best due
/// row, until the batch is full or nothing is due.
pub open spec fn claim_fold(rows: Seq<ItemView>, now: u64, remaining: nat) -> ClaimFold
    decreases remaining,
{
    if remaining == 0 {
        ClaimFold { rows, claimed: Seq::empty() }
    } else {
        let b = best_due_from(rows, now, 0, rows.len() as int);
        if b == rows.len() {
            ClaimFold { rows, claimed: Seq::empty() }
        } else {
            let stamped = claim_stamp(rows[b], now);
            let rest = claim_fold(rows.update(b, stamped), now, (remaining - 1) as nat);
            ClaimFold { rows: rest.rows, claimed: seq![stamped] + rest.claimed }
        }
    }
}

/// The rows after one idempotent insert: an existing row only has its
/// priority raised to the larger value; otherwise a fresh row is appended,
/// unless the id space is exhausted.
pub open spec fn enqueue_rows(
    ov: Seq<ItemView>,
    next_id: i64,
    url: Seq<char>,
    via: Option<Seq<char>>,
    priority: i32,
    now: u64,
) -> Seq<ItemView> {
    let k = url_idx(ov, url);
    if k < ov.len() {
        ov.update(
            k,
            ItemView {
                priority: if priority > ov[k].priority {
                    priority
                } else {
                    ov[k].priority
                },
                ..ov[k]
            },
        )
    } else if next_id == i64::MAX {
        ov
    } else {
        ov.push(
            ItemView {
                id: next_id,
                url: url,
                discovered_via: via,
                priority: priority,
                next_fetch_at: now,
                attempts: 0,
                last_status: None,
                last_error: None,
            },
        )
    }
}

pub open spec fn enqueue_added(ov: Seq<ItemView>, next_id: i64, url: Seq<char>) -> bool {
    url_idx(ov, url) >= ov.len() && next_id != i64::MAX
}

pub open spec fn enqueue_next_id(ov: Seq<ItemView>, next_id: i64, url: Seq<char>) -> i64 {
    if enqueue_added(ov, next_id, url) {
        (next_id + 1) as i64
    } else {
        next_id
    }
}

/// Queue state threaded through a sequence of inserts.
pub ghost struct EnqFold {
    pub rows: Seq<ItemView>,
    pub next_id: i64,
    pub count: int,
}

/// The rows after inserting each URL in turn, and how many were new.
pub open spec fn enqueue_all_s(
    st: EnqFold,
    urls: Seq<Seq<char>>,
    i: int,
    via: Option<Seq<char>>,
    priority: i32,
    now: u64,
) -> EnqFold
    decreases urls.len() - i,
    when 0 <= i <= urls.len()
{
    if i >= urls.len() {
        st
    } else {
        let st2 = EnqFold {
            rows: enqueue_rows(st.rows, st.next_id, urls[i], via, priority, now),
            next_id: enqueue_next_id(st.rows, st.next_id, urls[i]),
            count: st.count + (if enqueue_added(st.rows, st.next_id, urls[i]) {
                1int
            } else {
                0int
            }),
        };
        enqueue_all_s(st2, urls, i + 1, via, priority, now)
    }
}

/// The rows after a success is recorded for an id (unchanged if absent).
pub open spec fn success_rows(ov: Seq<ItemView>, id: i64, http_status: i32, now: u64) -> Seq<
    ItemView,
> {
    let k = id_idx(ov, id);
    if k < ov.len() {
        ov.update(
            k,
            ItemView {
                last_status: Some(http_status),
                last_error: None,
                attempts: 0,
                next_fetch_at: sat_add64(now, SUCCESS_INTERVAL_SECS),
                ..ov[k]
            },
        )
    } else {
        ov
    }
}

/// The rows after a failure is recorded for an id (unchanged if absent).
pub open spec fn failure_rows(ov: Seq<ItemView>, id: i64, error: Seq<char>, now: u64) -> Seq<
    ItemView,
> {
    let k = id_idx(ov, id);
    if k < ov.len() {
        ov.update(
            k,
            ItemView {
                last_status: None,
                last_error: Some(error),
                next_fetch_at: sat_add64(now, failure_delay_secs(ov[k].attempts)),
                ..ov[k]
            },
        )
    } else {
        ov
    }
}

/// The durable crawl queue: rows with unique ids and URLs, and the id the
/// next insert will take.
pub struct CrawlQueue {
    pub items: Vec<QueueItem>,
    pub next_id: i64,
}

impl CrawlQueue {
    pub open spec fn items_v(&self) -> Seq<ItemView> {
        self.items@.map_values(|it: QueueItem| it@)
    }

    pub open spec fn wf(&self) -> bool {
        &&& forall|i: int, j: int|
            0 <= i < j < self.items_v().len() ==> self.items_v()[i].id != self.items_v()[j].id
        &&& forall|i: int, j: int|
            0 <= i < j < self.items_v().len() ==> self.items_v()[i].url != self.items_v()[j].url
        &&& forall|i: int|
            0 <= i < self.items_v().len() ==> 1 <= #[trigger] self.items_v()[i].id
                < self.next_id
        &&& 1 <= self.next_id
    }

    pub fn new() -> (r: CrawlQueue)
        ensures
            r.wf(),
            r.items_v() == Seq::<ItemView>::empty(),
            r.next_id == 1,
    {
        let r = CrawlQueue { items: Vec::new(), next_id: 1 };
        proof {
            assert(r.items_v() =~= Seq::<ItemView>::empty());
        }
        r
    }

    pub fn len(&self) -> (r: usize)
        ensures
            r == self.items_v().len(),
    {
        self.items.len()
    }

    /// A copy of the row holding a URL.
    pub fn find_by_url(&self, url: &str) -> (r: Option<QueueItem>)
        ensures
            match r {
                Some(it) => row_by_url(self.items_v(), url@) == Some(it@),
                None => row_by_url(self.items_v(), url@) is None,
            },
    {
        let uv = text::chars_vec(url);
        let ghost sv = self.items_v();
        let mut i: usize = 0;
        while i < self.items.len()
            invariant
                0 <= i <= self.items@.len(),
                sv == self.items_v(),
                sv.len() == self.items@.len(),
                uv@ == url@,
                forall|m: int| 0 <= m < i ==> sv[m].url != url@,
            decreases self.items.len() - i,
        {
            let iu = text::chars_vec(self.items[i].url.as_str());
            assert(iu@ == sv[i as int].url);
            if text::vec_eq_vec(&iu, &uv) {
                proof {
                    lemma_url_idx_is(sv, url@, i as int);
                }
                return Some(self.items[i].clone());
            }
            i = i + 1;
        }
        proof {
            lemma_url_idx_props(sv, url@);
        }
        None
    }

    /// Insert a URL once: a second insert of the same URL only raises the
    /// priority to the larger of the two. Returns whether a row was added.
    pub fn enqueue_if_absent(
        &mut self,
        url: &str,
        discovered_via: Option<String>,
        priority: i32,
        now: u64,
    ) -> (added: bool)
        requires
            old(self).wf(),
        ensures
            final(self).wf(),
            final(self).items_v() == enqueue_rows(
                old(self).items_v(),
                old(self).next_id,
                url@,
                text::opt_sv(discovered_via),
                priority,
                now,
            ),
            final(self).next_id == enqueue_next_id(old(self).items_v(), old(self).next_id, url@),
            added == enqueue_added(old(self).items_v(), old(self).next_id, url@),
    {
        let uv = text::chars_vec(url);
        let ghost ov = self.items_v();
        let mut i: usize = 0;
        while i < self.items.len()
            invariant
                0 <= i <= self.items@.len(),
                ov == self.items_v(),
                ov == old(self).items_v(),
                old(self).next_id == self.next_id,
                old(self).wf(),
                ov.len() == self.items@.len(),
                uv@ == url@,
                forall|m: int| 0 <= m < i ==> ov[m].url != url@,
            decreases self.items.len() - i,
        {
            let iu = text::chars_vec(self.items[i].url.as_str());
            assert(iu@ == ov[i as int].url);
            if text::vec_eq_vec(&iu, &uv) {
                proof {
                    lemma_url_idx_is(ov, url@, i as int);
                }
                let mut it = self.items[i].clone();
                if priority > it.priority {
                    it.priority = priority;
                }
                self.items[i] = it;
                proof {
                    let nv = self.items_v();
                    assert(nv =~= ov.update(
                        i as int,
                        ItemView {
                            priority: if priority > ov[i as int].priority {
                                priority
                            } else {
                                ov[i as int].priority
                            },
                            ..ov[i as int]
                        },
                    ));
                    assert forall|a: int, b: int| 0 <= a < b < nv.len() implies nv[a].id
                        != nv[b].id && nv[a].url != nv[b].url by {
                        assert(ov[a].id != ov[b].id && ov[a].url != ov[b].url);
                        if a != i as int {
                            assert(nv[a] == ov[a]);
                        }
                        if b != i as int {
                            assert(nv[b] == ov[b]);
                        }
                    }
                    assert forall|a: int| 0 <= a < nv.len() implies 1 <= #[trigger] nv[a].id
                        < self.next_id by {
                        assert(1 <= ov[a].id < self.next_id);
                        if a != i as int {
                            assert(nv[a] == ov[a]);
                        }
                    }
                }
                return false;
            }
            i = i + 1;
        }
        proof {
            lemma_url_idx_props(ov, url@);
        }
        if self.next_id == i64::MAX {
            return false;
        }
        let it = QueueItem {
            id: self.next_id,
            url: url.to_owned(),
            discovered_via,
            priority,
            next_fetch_at: now,
            attempts: 0,
            last_status: None,
            last_error: None,
        };
        let ghost fresh = it@;
        self.items.push(it);
        self.next_id = self.next_id + 1;
        proof {
            let nv = self.items_v();
            assert(nv =~= ov.push(fresh));
            assert forall|a: int, b: int| 0 <= a < b < nv.len() implies nv[a].id != nv[b].id
                && nv[a].url != nv[b].url by {
                if b < ov.len() {
                    assert(ov[a].id != ov[b].id && ov[a].url != ov[b].url);
                } else {
                    assert(nv[b] == fresh);
                    assert(1 <= ov[a].id < old(self).next_id);
                    assert(ov[a].url != url@);
                }
            }
            assert forall|a: int| 0 <= a < nv.len() implies 1 <= #[trigger] nv[a].id
                < self.next_id by {
                if a < ov.len() {
                    assert(1 <= ov[a].id < old(self).next_id);
                }
            }
        }
        true
    }

    /// Insert several URLs in turn, idempotently, all with the same origin
    /// label and priority. Returns how many rows were new.
    pub fn enqueue_many(
        &mut self,
        urls: &Vec<String>,
        discovered_via: Option<&str>,
        priority: i32,
        now: u64,
    ) -> (n: usize)
        requires
            old(self).wf(),
        ensures
            final(self).wf(),
            ({
                let f = enqueue_all_s(
                    EnqFold {
                        rows: old(self).items_v(),
                        next_id: old(self).next_id,
                        count: 0,
                    },
                    text::strings_view(urls@),
                    0,
                    match discovered_via {
                        Some(v) => Some(v@),
                        None => None,
                    },
                    priority,
                    now,
                );
                &&& final(self).items_v() == f.rows
                &&& final(self).next_id == f.next_id
                &&& n as int == f.count
            }),
    {
        let ghost uv = text::strings_view(urls@);
        let ghost via_v: Option<Seq<char>> = match discovered_via {
            Some(v) => Some(v@),
            None => None,
        };
        let ghost init = EnqFold {
            rows: old(self).items_v(),
            next_id: old(self).next_id,
            count: 0,
        };
        let mut n: usize = 0;
        let mut i: usize = 0;
        while i < urls.len()
            invariant
                0 <= i <= urls@.len(),
                uv == text::strings_view(urls@),
                uv.len() == urls@.len(),
                via_v == (match discovered_via {
                    Some(v) => Some(v@),
                    None => None,
                }),
                self.wf(),
                n <= i,
                enqueue_all_s(init, uv, 0, via_v, priority, now) == enqueue_all_s(
                    EnqFold { rows: self.items_v(), next_id: self.next_id, count: n as int },
                    uv,
                    i as int,
                    via_v,
                    priority,
                    now,
                ),
            decreases urls.len() - i,
        {
            let via_owned: Option<String> = match discovered_via {
                Some(v) => Some(v.to_owned()),
                None => None,
            };
            assert(text::opt_sv(via_owned) == via_v);
            assert(urls@[i as int]@ == uv[i as int]);
            let added = self.enqueue_if_absent(urls[i].as_str(), via_owned, priority, now);
            if added {
                n = n + 1;
            }
            i = i + 1;
        }
        n
    }

    /// Claim up to `batch` due rows, best first: highest priority, then
    /// lowest id. Each claimed row is stamped so that a second claim within
    /// the in-flight window cannot take it again.
    pub fn dequeue_due(&mut self, batch: usize, now: u64) -> (claimed: Vec<QueueItem>)
        requires
            old(self).wf(),
            now + INFLIGHT_SECS <= u64::MAX,
        ensures
            final(self).wf(),
            final(self).next_id == old(self).next_id,
            ({
                let ov = old(self).items_v();
                let nv = final(self).items_v();
                let cv = items_view(claimed@);
                &&& cv == claim_fold(ov, now, batch as nat).claimed
                &&& nv == claim_fold(ov, now, batch as nat).rows
                &&& nv.len() == ov.len()
                &&& cv.len() <= batch
                &&& forall|k: int|
                    0 <= k < nv.len() ==> #[trigger] nv[k].id == ov[k].id && nv[k].url
                        == ov[k].url
                &&& forall|m: int|
                    #![trigger cv[m]]
                    0 <= m < cv.len() ==> id_idx(ov, cv[m].id) < ov.len()
                &&& forall|m: int|
                    #![trigger cv[m]]
                    0 <= m < cv.len() ==> due(ov[id_idx(ov, cv[m].id)], now)
                &&& forall|m: int|
                    #![trigger cv[m]]
                    0 <= m < cv.len() ==> cv[m] == claim_stamp(ov[id_idx(ov, cv[m].id)], now)
                &&& forall|k: int|
                    0 <= k < nv.len() ==> #[trigger] nv[k] == (if claimed_has(cv, ov[k].id) {
                        claim_stamp(ov[k], now)
                    } else {
                        ov[k]
                    })
                &&& forall|m1: int, m2: int|
                    0 <= m1 < m2 < cv.len() ==> #[trigger] cv[m1].id != #[trigger] cv[m2].id
                &&& forall|m1: int, m2: int|
                    0 <= m1 < m2 < cv.len() ==> claim_order(cv[m1], cv[m2])
                &&& forall|m: int, k: int|
                    0 <= m < cv.len() && 0 <= k < nv.len() && due(nv[k], now) ==> claim_order(
                        cv[m],
                        nv[k],
                    )
                &&& forall|m: int| 0 <= m < cv.len() ==> #[trigger] cv[m].next_fetch_at > now
                &&& (cv.len() < batch ==> forall|k: int|
                    0 <= k < nv.len() ==> !due(#[trigger] nv[k], now))
            }),
    {
        let ghost ov = self.items_v();
        let n = self.items.len();
        let mut claimed: Vec<QueueItem> = Vec::new();
        proof {
            assert(claimed@.map_values(|it: QueueItem| it@) =~= Seq::<ItemView>::empty());
        }
        loop
            invariant
                old(self).wf(),
                now + INFLIGHT_SECS <= u64::MAX,
                ov == old(self).items_v(),
                n == self.items@.len(),
                self.next_id == old(self).next_id,
                ov.len() == n,
                self.items_v().len() == n,
                ({
                    let sv = self.items_v();
                    let cv = claimed@.map_values(|it: QueueItem| it@);
                    &&& cv.len() <= batch
                    &&& claim_fold(ov, now, batch as nat).claimed == cv + claim_fold(
                        sv,
                        now,
                        (batch - cv.len()) as nat,
                    ).claimed
                    &&& claim_fold(ov, now, batch as nat).rows == claim_fold(
                        sv,
                        now,
                        (batch - cv.len()) as nat,
                    ).rows
                    &&& forall|k: int|
                        0 <= k < n ==> #[trigger] sv[k].id == ov[k].id && sv[k].url == ov[k].url
                    &&& forall|m: int|
                        #![trigger cv[m]]
                        0 <= m < cv.len() ==> id_idx(ov, cv[m].id) < ov.len()
                    &&& forall|m: int|
                        #![trigger cv[m]]
                        0 <= m < cv.len() ==> due(ov[id_idx(ov, cv[m].id)], now)
                    &&& forall|m: int|
                        #![trigger cv[m]]
                        0 <= m < cv.len() ==> cv[m] == claim_stamp(ov[id_idx(ov, cv[m].id)], now)
                    &&& forall|k: int|
                        0 <= k < n ==> #[trigger] sv[k] == (if claimed_has(cv, ov[k].id) {
                            claim_stamp(ov[k], now)
                        } else {
                            ov[k]
                        })
                    &&& forall|m1: int, m2: int|
                        0 <= m1 < m2 < cv.len() ==> #[trigger] cv[m1].id != #[trigger] cv[m2].id
                    &&& forall|m1: int, m2: int|
                        0 <= m1 < m2 < cv.len() ==> claim_order(cv[m1], cv[m2])
                    &&& forall|m: int, k: int|
                        0 <= m < cv.len() && 0 <= k < n && due(sv[k], now) ==> claim_order(
                            cv[m],
                            sv[k],
                        )
                    &&& forall|m: int| 0 <= m < cv.len() ==> #[trigger] cv[m].next_fetch_at > now
                }),
            ensures
                ({
                    let sv = self.items_v();
                    let cv = claimed@.map_values(|it: QueueItem| it@);
                    &&& (cv.len() < batch ==> forall|k: int|
                        0 <= k < n ==> !due(#[trigger] sv[k], now))
                    &&& cv == claim_fold(ov, now, batch as nat).claimed
                    &&& sv == claim_fold(ov, now, batch as nat).rows
                }),
            decreases batch - claimed.len(),
        {
            if claimed.len() >= batch {
                proof {
                    let sv = self.items_v();
                    let cv = claimed@.map_values(|it: QueueItem| it@);
                    assert(claim_fold(sv, now, (batch - cv.len()) as nat).claimed
                        =~= Seq::<ItemView>::empty());
                    assert(cv + claim_fold(sv, now, (batch - cv.len()) as nat).claimed =~= cv);
                }
                break ;
            }
            let ghost sv = self.items_v();
            let ghost cv0 = claimed@.map_values(|it: QueueItem| it@);
            let mut best: usize = n;
            let mut k: usize = 0;
            while k < n
                invariant
                    n == self.items@.len(),
                    sv == self.items_v(),
                    sv.len() == n,
                    0 <= k <= n,
                    best <= n,
                    best_due_from(sv, now, 0, n as int) == best_due_from(
                        sv,
                        now,
                        k as int,
                        best as int,
                    ),
                    best < n ==> due(sv[best as int], now),
                    best == n ==> forall|x: int| 0 <= x < k ==> !due(#[trigger] sv[x], now),
                    best < n ==> forall|x: int|
                        0 <= x < k && due(#[trigger] sv[x], now) ==> (x == best as int
                            || !claim_order(sv[x], sv[best as int])),
                    best < n ==> best < k,
                decreases n - k,
            {
                if self.items[k].next_fetch_at <= now {
                    if best == n {
                        best = k;
                    } else {
                        let better = self.items[k].priority > self.items[best].priority || (
                        self.items[k].priority == self.items[best].priority && self.items[k].id
                            < self.items[best].id);
                        if better {
                            best = k;
                        }
                    }
                }
                k = k + 1;
            }
            if best == n {
                proof {
                    let cv = claimed@.map_values(|it: QueueItem| it@);
                    assert(best_due_from(sv, now, 0, n as int) == n as int);
                    assert(claim_fold(sv, now, (batch - cv.len()) as nat).claimed
                        =~= Seq::<ItemView>::empty());
                    assert(cv + claim_fold(sv, now, (batch - cv.len()) as nat).claimed =~= cv);
                }
                break ;
            }
            let mut it = self.items[best].clone();
            it.attempts = if it.attempts < u32::MAX {
                it.attempts + 1
            } else {
                it.attempts
            };
            it.next_fetch_at = sat_add(now, INFLIGHT_SECS);
            let stamped = it.clone();
            self.items[best] = it;
            claimed.push(stamped);
            proof {
                let svn = self.items_v();
                let cv = claimed@.map_values(|it2: QueueItem| it2@);
                let b = best as int;
                assert(!claimed_has(cv0, ov[b].id)) by {
                    if claimed_has(cv0, ov[b].id) {
                        assert(sv[b] == claim_stamp(ov[b], now));
                        assert(sv[b].next_fetch_at > now);
                    }
                }
                assert(sv[b] == ov[b]);
                assert(cv =~= cv0.push(claim_stamp(ov[b], now)));
                assert(svn =~= sv.update(b, claim_stamp(ov[b], now)));
                assert(best_due_from(sv, now, 0, n as int) == b);
                assert(stamped@ == claim_stamp(sv[b], now));
                assert(claim_fold(sv, now, (batch - cv0.len()) as nat).claimed == seq![
                    claim_stamp(sv[b], now),
                ] + claim_fold(svn, now, (batch - cv.len()) as nat).claimed);
                assert(claim_fold(sv, now, (batch - cv0.len()) as nat).rows == claim_fold(
                    svn,
                    now,
                    (batch - cv.len()) as nat,
                ).rows);
                assert(cv0 + (seq![claim_stamp(sv[b], now)] + claim_fold(
                    svn,
                    now,
                    (batch - cv.len()) as nat,
                ).claimed) =~= cv + claim_fold(svn, now, (batch - cv.len()) as nat).claimed);
                assert forall|x: int| 0 <= x < ov.len() && x != b implies ov[x].id != ov[b].id by {
                    assert(old(self).items_v()[x].id == ov[x].id);
                }
                lemma_id_idx_is(ov, ov[b].id, b);
                assert forall|x: int| 0 <= x < n implies #[trigger] svn[x] == (if claimed_has(
                    cv,
                    ov[x].id,
                ) {
                    claim_stamp(ov[x], now)
                } else {
                    ov[x]
                }) by {
                    if x == b {
                        assert(cv[cv.len() - 1].id == ov[b].id);
                        assert(claimed_has(cv, ov[b].id));
                    } else {
                        assert(svn[x] == sv[x]);
                        if claimed_has(cv, ov[x].id) {
                            let m = choose|m: int|
                                0 <= m < cv.len() && cv[m].id == ov[x].id;
                            if m < cv0.len() {
                                assert(claimed_has(cv0, ov[x].id));
                            } else {
                                assert(cv[m] == claim_stamp(ov[b], now));
                                assert(ov[x].id != ov[b].id);
                            }
                        } else {
                            if claimed_has(cv0, ov[x].id) {
                                let m = choose|m: int|
                                    0 <= m < cv0.len() && cv0[m].id == ov[x].id;
                                assert(cv[m].id == ov[x].id);
                            }
                        }
                    }
                }
                assert forall|m1: int, m2: int| 0 <= m1 < m2 < cv.len() implies #[trigger] cv[m1].id
                    != #[trigger] cv[m2].id by {
                    if m2 == cv.len() - 1 {
                        assert(cv[m1] == cv0[m1]);
                        assert(cv0[m1] == claim_stamp(ov[id_idx(ov, cv0[m1].id)], now));
                        if cv[m1].id == ov[b].id {
                            assert(claimed_has(cv0, ov[b].id));
                        }
                    }
                }
                assert forall|m1: int, m2: int| 0 <= m1 < m2 < cv.len() implies claim_order(
                    cv[m1],
                    cv[m2],
                ) by {
                    if m2 == cv.len() - 1 {
                        assert(cv[m1] == cv0[m1]);
                        assert(due(sv[b], now));
                        assert(claim_order(cv0[m1], sv[b]));
                    }
                }
                assert forall|m: int, x: int|
                    0 <= m < cv.len() && 0 <= x < n && due(svn[x], now) implies claim_order(
                    cv[m],
                    svn[x],
                ) by {
                    assert(svn[b].next_fetch_at == sat_add64(now, INFLIGHT_SECS));
                    assert(!due(svn[b], now));
                    assert(x != b);
                    assert(svn[x] == sv[x]);
                    if m < cv0.len() {
                        assert(claim_order(cv0[m], sv[x]));
                    } else {
                        assert(cv[m] == claim_stamp(ov[b], now));
                        assert(due(sv[x], now));
                        assert(x == b || !claim_order(sv[x], sv[b]));
                        assert(sv[x].id == ov[x].id && sv[b].id == ov[b].id);
                        lemma_claim_order_total(sv[b], sv[x]);
                        assert(claim_order(sv[b], sv[x]));
                        assert(cv[m].priority == sv[b].priority && cv[m].id == sv[b].id);
                    }
                }
            }
        }
        proof {
            let nv = self.items_v();
            assert forall|a: int, b2: int| 0 <= a < b2 < nv.len() implies nv[a].id != nv[b2].id
                && nv[a].url != nv[b2].url by {
                assert(ov[a].id != ov[b2].id && ov[a].url != ov[b2].url);
                assert(nv[a].id == ov[a].id && nv[a].url == ov[a].url);
                assert(nv[b2].id == ov[b2].id && nv[b2].url == ov[b2].url);
            }
            assert forall|a: int| 0 <= a < nv.len() implies 1 <= #[trigger] nv[a].id
                < self.next_id by {
                assert(1 <= ov[a].id < old(self).next_id);
                assert(nv[a].id == ov[a].id);
            }
        }
        claimed
    }

    /// Record a successful fetch: status noted, error cleared, attempts
    /// reset, and the row scheduled out by the success interval.
    pub fn reschedule_success(&mut self, id: i64, http_status: i32, now: u64) -> (found: bool)
        requires
            old(self).wf(),
        ensures
            final(self).wf(),
            final(self).next_id == old(self).next_id,
            final(self).items_v() == success_rows(old(self).items_v(), id, http_status, now),
            found == (id_idx(old(self).items_v(), id) < old(self).items_v().len()),
    {
        let ghost ov = self.items_v();
        let mut i: usize = 0;
        while i < self.items.len()
            invariant
                0 <= i <= self.items@.len(),
                ov == self.items_v(),
                ov == old(self).items_v(),
                self.next_id == old(self).next_id,
                old(self).wf(),
                ov.len() == self.items@.len(),
                forall|m: int| 0 <= m < i ==> ov[m].id != id,
            decreases self.items.len() - i,
        {
            if self.items[i].id == id {
                proof {
                    lemma_id_idx_is(ov, id, i as int);
                }
                let mut it = self.items[i].clone();
                it.last_status = Some(http_status);
                it.last_error = None;
                it.attempts = 0;
                it.next_fetch_at = sat_add(now, SUCCESS_INTERVAL_SECS);
                self.items[i] = it;
                proof {
                    let nv = self.items_v();
                    assert(nv =~= ov.update(
                        i as int,
                        ItemView {
                            last_status: Some(http_status),
                            last_error: None,
                            attempts: 0,
                            next_fetch_at: sat_add64(now, SUCCESS_INTERVAL_SECS),
                            ..ov[i as int]
                        },
                    ));
                    assert forall|a: int, b: int| 0 <= a < b < nv.len() implies nv[a].id
                        != nv[b].id && nv[a].url != nv[b].url by {
                        assert(ov[a].id != ov[b].id && ov[a].url != ov[b].url);
                        if a != i as int {
                            assert(nv[a] == ov[a]);
                        }
                        if b != i as int {
                            assert(nv[b] == ov[b]);
                        }
                    }
                    assert forall|a: int| 0 <= a < nv.len() implies 1 <= #[trigger] nv[a].id
                        < self.next_id by {
                        assert(1 <= ov[a].id < self.next_id);
                        if a != i as int {
                            assert(nv[a] == ov[a]);
                        }
                    }
                }
                return true;
            }
            i = i + 1;
        }
        proof {
            if id_idx(ov, id) < ov.len() {
                lemma_id_idx_bounds(ov, id);
            }
        }
        false
    }

    /// Record a failed attempt: the error noted, the status cleared, and the
    /// row scheduled out by the attempts-based backoff.
    pub fn reschedule_failure(&mut self, id: i64, error: &str, now: u64) -> (found: bool)
        requires
            old(self).wf(),
        ensures
            final(self).wf(),
            final(self).next_id == old(self).next_id,
            final(self).items_v() == failure_rows(old(self).items_v(), id, error@, now),
            found == (id_idx(old(self).items_v(), id) < old(self).items_v().len()),
    {
        let ghost ov = self.items_v();
        let mut i: usize = 0;
        while i < self.items.len()
            invariant
                0 <= i <= self.items@.len(),
                ov == self.items_v(),
                ov == old(self).items_v(),
                self.next_id == old(self).next_id,
                old(self).wf(),
                ov.len() == self.items@.len(),
                forall|m: int| 0 <= m < i ==> ov[m].id != id,
            decreases self.items.len() - i,
        {
            if self.items[i].id == id {
                proof {
                    lemma_id_idx_is(ov, id, i as int);
                }
                let mut it = self.items[i].clone();
                it.last_status = None;
                it.last_error = Some(error.to_owned());
                let mins = backoff_minutes(it.attempts);
                it.next_fetch_at = sat_add(now, 60 * mins);
                self.items[i] = it;
                proof {
                    let nv = self.items_v();
                    assert(nv =~= ov.update(
                        i as int,
                        ItemView {
                            last_status: None,
                            last_error: Some(error@),
                            next_fetch_at: sat_add64(now, failure_delay_secs(ov[i as int].attempts)),
                            ..ov[i as int]
                        },
                    ));
                    assert forall|a: int, b: int| 0 <= a < b < nv.len() implies nv[a].id
                        != nv[b].id && nv[a].url != nv[b].url by {
                        assert(ov[a].id != ov[b].id && ov[a].url != ov[b].url);
                        if a != i as int {
                            assert(nv[a] == ov[a]);
                        }
                        if b != i as int {
                            assert(nv[b] == ov[b]);
                        }
                    }
                    assert forall|a: int| 0 <= a < nv.len() implies 1 <= #[trigger] nv[a].id
                        < self.next_id by {
                        assert(1 <= ov[a].id < self.next_id);
                        if a != i as int {
                            assert(nv[a] == ov[a]);
                        }
                    }
                }
                return true;
            }
            i = i + 1;
        }
        proof {
            if id_idx(ov, id) < ov.len() {
                lemma_id_idx_bounds(ov, id);
            }
        }
        false
    }
}

/// Inserting the same URL twice yields exactly one row: the second insert
/// adds nothing, keeps every other row as it was, and at most raises the
/// priority of the row the first insert left behind.
pub proof fn lemma_enqueue_idempotent(
    ov: Seq<ItemView>,
    next_id: i64,
    url: Seq<char>,
    via1: Option<Seq<char>>,
    via2: Option<Seq<char>>,
    p1: i32,
    p2: i32,
    now1: u64,
    now2: u64,
)
    requires
        next_id < i64::MAX,
    ensures
        ({
            let r1 = enqueue_rows(ov, next_id, url, via1, p1, now1);
            let n1 = enqueue_next_id(ov, next_id, url);
            let r2 = enqueue_rows(r1, n1, url, via2, p2, now2);
            let k = url_idx(r1, url);
            &&& !enqueue_added(r1, n1, url)
            &&& r2.len() == r1.len()
            &&& k < r1.len()
            &&& r2 == r1.update(
                k,
                ItemView {
                    priority: if p2 > r1[k].priority {
                        p2
                    } else {
                        r1[k].priority
                    },
                    ..r1[k]
                },
            )
        }),
{
    let r1 = enqueue_rows(ov, next_id, url, via1, p1, now1);
    lemma_url_idx_props(ov, url);
    let k0 = url_idx(ov, url);
    if k0 < ov.len() {
        assert(r1[k0].url == url);
        assert forall|m: int| 0 <= m < k0 implies r1[m].url != url by {
            assert(r1[m] == ov[m]);
        }
        lemma_url_idx_is(r1, url, k0);
    } else {
        assert(r1[ov.len() as int].url == url);
        lemma_url_idx_is(r1, url, ov.len() as int);
    }
}

/// Two claim passes over the same queue at the same instant take disjoint
/// sets of rows: a row stamped by the first pass is no longer due, so the
/// second pass cannot take it. The hypotheses are exactly the relations
/// that `dequeue_due` guarantees of its claimed rows and of the queue it
/// leaves behind.
pub proof fn lemma_claims_disjoint(
    ov: Seq<ItemView>,
    c1: Seq<ItemView>,
    s1: Seq<ItemView>,
    c2: Seq<ItemView>,
    now: u64,
)
    requires
        now + INFLIGHT_SECS <= u64::MAX,
        s1.len() == ov.len(),
        forall|k: int| 0 <= k < s1.len() ==> #[trigger] s1[k].id == ov[k].id,
        forall|k: int|
            0 <= k < s1.len() ==> #[trigger] s1[k] == (if claimed_has(c1, ov[k].id) {
                claim_stamp(ov[k], now)
            } else {
                ov[k]
            }),
        forall|m: int|
            0 <= m < c2.len() ==> ({
                let k = id_idx(s1, #[trigger] c2[m].id);
                k < s1.len() && due(s1[k], now)
            }),
    ensures
        forall|m1: int, m2: int|
            0 <= m1 < c1.len() && 0 <= m2 < c2.len() ==> c1[m1].id != c2[m2].id,
{
    assert forall|m1: int, m2: int|
        0 <= m1 < c1.len() && 0 <= m2 < c2.len() implies c1[m1].id != c2[m2].id by {
        if c1[m1].id == c2[m2].id {
            let i = c1[m1].id;
            lemma_id_idx_bounds(s1, i);
            let k = id_idx(s1, i);
            assert(k < s1.len() && due(s1[k], now));
            assert(s1[k].id == i);
            assert(ov[k].id == i);
            assert(claimed_has(c1, ov[k].id));
            assert(s1[k] == claim_stamp(ov[k], now));
            assert(s1[k].next_fetch_at == sat_add64(now, INFLIGHT_SECS));
            assert(!due(s1[k], now));
        }
    }
}

/// Once a failure has scheduled a retry, a later claim of the row and a
/// second failure never move the retry earlier: the row only becomes due
/// again after the scheduled time, and the new backoff counts from the
/// (still later) instant of the second failure.
pub proof fn lemma_backoff_never_retreats(
    retry_at: u64,
    claim_now: u64,
    fail_now: u64,
    attempts: u32,
)
    requires
        retry_at <= claim_now,
        claim_now <= fail_now,
    ensures
        sat_add64(fail_now, failure_delay_secs(attempts)) >= retry_at,
{
}

pub proof fn lemma_id_idx_bounds(s: Seq<ItemView>, id: i64)
    ensures
        0 <= id_idx(s, id) <= s.len(),
        id_idx(s, id) < s.len() ==> s[id_idx(s, id)].id == id,
        forall|m: int| 0 <= m < id_idx(s, id) ==> s[m].id != id,
    decreases s.len(),
{
    if s.len() > 0 && s.first().id != id {
        lemma_id_idx_bounds(s.drop_first(), id);
        assert forall|m: int| 0 <= m < id_idx(s, id) implies s[m].id != id by {
            if m > 0 {
                assert(s.drop_first()[m - 1] == s[m]);
            }
        }
    }
}

} // verus!
