//! The orchestrator: it validates URLs, consults the robots rules through
//! the cache (failing open), turns fetch outcomes into stored documents and
//! discovered links, reschedules queue rows, and aggregates a tick. All
//! network traffic reaches it as plain values: what each robots.txt and page
//! fetch returned.
use vstd::prelude::*;

use crate::digest;
use crate::discover;
use crate::docstore;
use crate::docstore::DocumentStore;
use crate::extract;
use crate::langdetect;
use crate::queue;
use crate::queue::{CrawlQueue, QueueItem};
use crate::robots;
use crate::robots::RobotsCache;
use crate::text;
use crate::types::{clone_opt_string, CrawlError, Document, DocView, ErrorView};
use crate::urls;
use crate::urls::{ParsedUrl, UrlView};

verus! {

/// How the crawler is tuned.
pub struct CrawlConfig {
    pub user_agent: String,
    pub per_domain_concurrency: usize,
    pub per_domain_delay_ms: u64,
    pub max_tasks: usize,
    pub robots_ttl_secs: u64,
    pub max_links_per_page: usize,
}

impl Clone for CrawlConfig {
    fn clone(&self) -> (r: Self)
        ensures
            r.user_agent@ == self.user_agent@,
            r.per_domain_concurrency == self.per_domain_concurrency,
            r.per_domain_delay_ms == self.per_domain_delay_ms,
            r.max_tasks == self.max_tasks,
            r.robots_ttl_secs == self.robots_ttl_secs,
            r.max_links_per_page == self.max_links_per_page,
    {
        CrawlConfig {
            user_agent: self.user_agent.clone(),
            per_domain_concurrency: self.per_domain_concurrency,
            per_domain_delay_ms: self.per_domain_delay_ms,
            max_tasks: self.max_tasks,
            robots_ttl_secs: self.robots_ttl_secs,
            max_links_per_page: self.max_links_per_page,
        }
    }
}

/// One HTTP request header.
pub struct Header {
    pub name: String,
    pub value: String,
}

pub ghost struct HeaderView {
    pub name: Seq<char>,
    pub value: Seq<char>,
}

impl View for Header {
    type V = HeaderView;

    open spec fn view(&self) -> HeaderView {
        HeaderView { name: self.name@, value: self.value@ }
    }
}

/// The conditional-GET headers for known validators: `If-None-Match` for an
/// entity tag, `If-Modified-Since` for a modification date.
pub open spec fn cond_headers_s(etag: Option<Seq<char>>, last_modified: Option<Seq<char>>) -> Seq<
    HeaderView,
> {
    let s0 = Seq::<HeaderView>::empty();
    let s1 = match etag {
        Some(v) => s0.push(HeaderView { name: "if-none-match"@, value: v }),
        None => s0,
    };
    match last_modified {
        Some(v) => s1.push(HeaderView { name: "if-modified-since"@, value: v }),
        None => s1,
    }
}

pub fn conditional_headers(etag: &Option<String>, last_modified: &Option<String>) -> (r: Vec<
    Header,
>)
    ensures
        r@.map_values(|h: Header| h@) == cond_headers_s(
            text::opt_sv(*etag),
            text::opt_sv(*last_modified),
        ),
{
    let mut r: Vec<Header> = Vec::new();
    proof {
        assert(r@.map_values(|h: Header| h@) =~= Seq::<HeaderView>::empty());
    }
    match etag {
        Some(v) => {
            let ghost pre = r@.map_values(|h: Header| h@);
            r.push(Header { name: "if-none-match".to_owned(), value: v.clone() });
            proof {
                assert(r@.map_values(|h: Header| h@) =~= pre.push(
                    HeaderView { name: "if-none-match"@, value: v@ },
                ));
            }
        },
        None => {},
    }
    match last_modified {
        Some(v) => {
            let ghost pre = r@.map_values(|h: Header| h@);
            r.push(Header { name: "if-modified-since".to_owned(), value: v.clone() });
            proof {
                assert(r@.map_values(|h: Header| h@) =~= pre.push(
                    HeaderView { name: "if-modified-since"@, value: v@ },
                ));
            }
        },
        None => {},
    }
    r
}

/// What one page fetch returned.
pub struct FetchResponse {
    pub status: u16,
    pub content_type: String,
    pub body: Vec<u8>,
    pub etag: Option<String>,
    pub last_modified: Option<String>,
}

pub ghost struct RespView {
    pub status: u16,
    pub content_type: Seq<char>,
    pub body: Seq<u8>,
    pub etag: Option<Seq<char>>,
    pub last_modified: Option<Seq<char>>,
}

impl View for FetchResponse {
    type V = RespView;

    open spec fn view(&self) -> RespView {
        RespView {
            status: self.status,
            content_type: self.content_type@,
            body: self.body@,
            etag: text::opt_sv(self.etag),
            last_modified: text::opt_sv(self.last_modified),
        }
    }
}

/// A fetch either produced a response or failed in transport (timeout,
/// refused connection, redirect overflow).
pub enum FetchOutcome {
    Response(FetchResponse),
    TransportError(String),
}

pub ghost enum OutcomeView {
    Response(RespView),
    TransportError(Seq<char>),
}

impl View for FetchOutcome {
    type V = OutcomeView;

    open spec fn view(&self) -> OutcomeView {
        match self {
            FetchOutcome::Response(r) => OutcomeView::Response(r@),
            FetchOutcome::TransportError(e) => OutcomeView::TransportError(e@),
        }
    }
}

/// What the network answered while a tick ran, as plain values: the
/// robots.txt body per host (none when that fetch failed or was refused),
/// and the outcome per page URL.
pub struct RobotsProbe {
    pub host: String,
    pub body: Option<String>,
}

pub ghost struct RProbeView {
    pub host: Seq<char>,
    pub body: Option<Seq<char>>,
}

impl View for RobotsProbe {
    type V = RProbeView;

    open spec fn view(&self) -> RProbeView {
        RProbeView { host: self.host@, body: text::opt_sv(self.body) }
    }
}

pub struct PageProbe {
    pub url: String,
    pub outcome: FetchOutcome,
}

pub ghost struct PProbeView {
    pub url: Seq<char>,
    pub outcome: OutcomeView,
}

impl View for PageProbe {
    type V = PProbeView;

    open spec fn view(&self) -> PProbeView {
        PProbeView { url: self.url@, outcome: self.outcome@ }
    }
}

pub struct FetchScript {
    pub robots: Vec<RobotsProbe>,
    pub pages: Vec<PageProbe>,
}

impl FetchScript {
    pub open spec fn robots_v(&self) -> Seq<RProbeView> {
        self.robots@.map_values(|p: RobotsProbe| p@)
    }

    pub open spec fn pages_v(&self) -> Seq<PProbeView> {
        self.pages@.map_values(|p: PageProbe| p@)
    }
}

/// The robots.txt body recorded for a host, from entry `i` on: the first
/// matching entry counts; none means the fetch failed.
pub open spec fn script_robots_from(s: Seq<RProbeView>, host: Seq<char>, i: int) -> Option<
    Seq<char>,
>
    decreases s.len() - i,
    when 0 <= i <= s.len()
{
    if i >= s.len() {
        None
    } else if s[i].host == host {
        s[i].body
    } else {
        script_robots_from(s, host, i + 1)
    }
}

pub open spec fn script_robots_s(s: Seq<RProbeView>, host: Seq<char>) -> Option<Seq<char>> {
    script_robots_from(s, host, 0)
}

/// The outcome recorded for a page URL, from entry `i` on; a URL the script
/// does not know counts as unreachable.
pub open spec fn script_page_from(s: Seq<PProbeView>, url: Seq<char>, i: int) -> OutcomeView
    decreases s.len() - i,
    when 0 <= i <= s.len()
{
    if i >= s.len() {
        OutcomeView::TransportError("unreachable"@)
    } else if s[i].url == url {
        s[i].outcome
    } else {
        script_page_from(s, url, i + 1)
    }
}

pub open spec fn script_page_s(s: Seq<PProbeView>, url: Seq<char>) -> OutcomeView {
    script_page_from(s, url, 0)
}

fn script_robots(net: &FetchScript, host: &Vec<char>) -> (r: Option<String>)
    ensures
        text::opt_sv(r) == script_robots_s(net.robots_v(), host@),
{
    let ghost sv = net.robots_v();
    let mut i: usize = 0;
    while i < net.robots.len()
        invariant
            0 <= i <= net.robots@.len(),
            sv == net.robots_v(),
            sv.len() == net.robots@.len(),
            script_robots_s(sv, host@) == script_robots_from(sv, host@, i as int),
        decreases net.robots.len() - i,
    {
        let hv = text::chars_vec(net.robots[i].host.as_str());
        assert(hv@ == sv[i as int].host);
        if text::vec_eq_vec(&hv, host) {
            return clone_opt_string(&net.robots[i].body);
        }
        i = i + 1;
    }
    None
}

fn clone_outcome(o: &FetchOutcome) -> (r: FetchOutcome)
    ensures
        r@ == o@,
{
    match o {
        FetchOutcome::Response(resp) => FetchOutcome::Response(
            FetchResponse {
                status: resp.status,
                content_type: resp.content_type.clone(),
                body: resp.body.clone(),
                etag: clone_opt_string(&resp.etag),
                last_modified: clone_opt_string(&resp.last_modified),
            },
        ),
        FetchOutcome::TransportError(e) => FetchOutcome::TransportError(e.clone()),
    }
}

fn script_page(net: &FetchScript, url: &Vec<char>) -> (r: FetchOutcome)
    ensures
        r@ == script_page_s(net.pages_v(), url@),
{
    let ghost sv = net.pages_v();
    let mut i: usize = 0;
    while i < net.pages.len()
        invariant
            0 <= i <= net.pages@.len(),
            sv == net.pages_v(),
            sv.len() == net.pages@.len(),
            script_page_s(sv, url@) == script_page_from(sv, url@, i as int),
        decreases net.pages.len() - i,
    {
        let uv = text::chars_vec(net.pages[i].url.as_str());
        assert(uv@ == sv[i as int].url);
        if text::vec_eq_vec(&uv, url) {
            return clone_outcome(&net.pages[i].outcome);
        }
        i = i + 1;
    }
    FetchOutcome::TransportError("unreachable".to_owned())
}

/// A status in the success range.
pub open spec fn is_success_status(status: u16) -> bool {
    200 <= status < 300
}

/// The content type names HTML (case-insensitively, parameters allowed).
pub open spec fn is_html_ct(ct: Seq<char>) -> bool {
    text::is_prefix_at(text::lower_s(ct), 0, "text/html"@)
}

fn is_html_content_type(ct: &str) -> (r: bool)
    ensures
        r == is_html_ct(ct@),
{
    let cv = text::chars_vec(ct);
    let lv = text::lower_vec(&cv);
    let p = text::chars_vec("text/html");
    text::starts_with_from(&lv, 0, &p)
}

/// The document a successful HTML response yields, and the links it
/// discovers: decoded text extracted against the page's own URL, the hash
/// of the body text, and a best-effort language tag.
pub open spec fn page_doc_s(u: UrlView, resp: RespView, now: u64, max_links: int) -> (
    DocView,
    Seq<UrlView>,
) {
    let html = text::utf8_lossy_of(resp.body);
    let ext = extract::extract_s(html, u, max_links);
    (
        DocView {
            url: urls::url_str_s(u),
            fetched_at: now,
            title: ext.title,
            description: ext.description,
            body_text: ext.body_text,
            content_type: Some(resp.content_type),
            http_status: resp.status as i32,
            content_hash: Some(digest::sha256_hex_of(ext.body_text)),
            etag: resp.etag,
            lang: langdetect::detected_lang_of(ext.body_text),
            last_modified: resp.last_modified,
        },
        ext.links,
    )
}

/// What became of one page fetch.
pub enum PageOutcome {
    /// `304 Not Modified`: nothing to store, the stored copy stands.
    Unchanged,
    /// A document to store and the links it discovered.
    Page(Document, Vec<ParsedUrl>),
    /// The fetch failed; the error says how.
    Failed(CrawlError),
}

pub ghost enum POView {
    Unchanged,
    Page(DocView, Seq<UrlView>),
    Failed(ErrorView),
}

impl View for PageOutcome {
    type V = POView;

    open spec fn view(&self) -> POView {
        match self {
            PageOutcome::Unchanged => POView::Unchanged,
            PageOutcome::Page(d, ls) => POView::Page(d@, extract::links_view(ls@)),
            PageOutcome::Failed(e) => POView::Failed(e@),
        }
    }
}

/// How a fetch outcome is classified: transport failure, `304`, non-success
/// status and non-HTML types are told apart; a successful HTML response is
/// extracted into a document and links.
pub open spec fn page_outcome_s(u: UrlView, o: OutcomeView, now: u64, max_links: int) -> POView {
    match o {
        OutcomeView::TransportError(e) => POView::Failed(ErrorView::NetworkError(e)),
        OutcomeView::Response(r) => {
            if r.status == 304 {
                POView::Unchanged
            } else if !is_success_status(r.status) {
                POView::Failed(ErrorView::HttpStatus(r.status))
            } else if !is_html_ct(r.content_type) {
                POView::Failed(ErrorView::UnsupportedContentType(r.content_type))
            } else {
                let (d, ls) = page_doc_s(u, r, now, max_links);
                POView::Page(d, ls)
            }
        },
    }
}

/// Classify one fetch outcome for the URL it came from.
pub fn evaluate_response(u: &ParsedUrl, o: &FetchOutcome, now: u64, max_links: usize) -> (r:
    PageOutcome)
    ensures
        r@ == page_outcome_s(u@, o@, now, max_links as int),
{
    match o {
        FetchOutcome::TransportError(e) => PageOutcome::Failed(CrawlError::NetworkError(e.clone())),
        FetchOutcome::Response(resp) => {
            if resp.status == 304 {
                return PageOutcome::Unchanged;
            }
            if !(200 <= resp.status && resp.status < 300) {
                return PageOutcome::Failed(CrawlError::HttpStatus(resp.status));
            }
            if !is_html_content_type(resp.content_type.as_str()) {
                return PageOutcome::Failed(
                    CrawlError::UnsupportedContentType(resp.content_type.clone()),
                );
            }
            let html = text::utf8_lossy(&resp.body);
            let hv = text::chars_vec(html.as_str());
            let ext = extract::extract(&hv, u, max_links);
            let hash = digest::sha256_hex(ext.body_text.as_str());
            let lang = langdetect::detect_lang_code(ext.body_text.as_str());
            let doc = Document {
                url: urls::url_string(u),
                fetched_at: now,
                title: ext.title,
                description: ext.description,
                body_text: ext.body_text,
                content_type: Some(resp.content_type.clone()),
                http_status: resp.status as i32,
                content_hash: Some(hash),
                etag: clone_opt_string(&resp.etag),
                lang,
                last_modified: clone_opt_string(&resp.last_modified),
            };
            PageOutcome::Page(doc, ext.links)
        },
    }
}

/// Whether a fresh robots entry is cached for the host.
pub open spec fn robots_hit(entries: Seq<robots::EntryView>, ttl: u64, host: Seq<char>, now: u64) -> bool {
    match robots::cache_find(entries, host) {
        Some(e) => robots::fresh_at(e, now, ttl),
        None => false,
    }
}

/// The robots decision for a URL: a fresh cache entry decides; otherwise the
/// body the network returned decides; no body at all fails open.
pub open spec fn robots_phase_allowed(
    entries: Seq<robots::EntryView>,
    ttl: u64,
    net_robots: Seq<RProbeView>,
    host: Seq<char>,
    ua: Seq<char>,
    path: Seq<char>,
    now: u64,
) -> bool {
    if robots_hit(entries, ttl, host, now) {
        robots::allowed_s(
            robots::cache_find(entries, host)->0.groups,
            text::lower_s(ua),
            path,
        )
    } else {
        match script_robots_s(net_robots, host) {
            Some(b) => robots::allowed_s(robots::parse_robots_s(b), text::lower_s(ua), path),
            None => true,
        }
    }
}

/// How one scrape leaves the robots cache: untouched, unless the host
/// missed the cache and a robots.txt body arrived, which is parsed and
/// cached under the host.
pub open spec fn robots_after_scrape_s(
    entries: Seq<robots::EntryView>,
    ttl: u64,
    net_robots: Seq<RProbeView>,
    url: Seq<char>,
    now: u64,
) -> Seq<robots::EntryView> {
    match urls::url_parse_s(url) {
        None => entries,
        Some(u) => {
            if !urls::is_http_s(u) || robots_hit(entries, ttl, u.host, now) {
                entries
            } else {
                match script_robots_s(net_robots, u.host) {
                    Some(b) => robots::install_rows(entries, u.host, now, robots::parse_robots_s(b)),
                    None => entries,
                }
            }
        },
    }
}

/// Robots fails open: with no fresh cache entry and no robots.txt body
/// (the fetch timed out, failed, or answered with a non-success status),
/// the URL is allowed.
pub proof fn lemma_robots_fail_open(
    entries: Seq<robots::EntryView>,
    ttl: u64,
    net_robots: Seq<RProbeView>,
    host: Seq<char>,
    ua: Seq<char>,
    path: Seq<char>,
    now: u64,
)
    requires
        !robots_hit(entries, ttl, host, now),
        script_robots_s(net_robots, host) is None,
    ensures
        robots_phase_allowed(entries, ttl, net_robots, host, ua, path, now),
{
}

/// What one whole scrape decides for a raw URL: an unparseable or
/// non-`http(s)` URL fails as invalid before anything else; a robots denial
/// fails as blocked; otherwise the page fetch outcome is classified.
pub open spec fn scrape_outcome_s(
    entries: Seq<robots::EntryView>,
    ttl: u64,
    ua: Seq<char>,
    max_links: int,
    net_robots: Seq<RProbeView>,
    net_pages: Seq<PProbeView>,
    url: Seq<char>,
    now: u64,
) -> POView {
    match urls::url_parse_s(url) {
        None => POView::Failed(ErrorView::InvalidUrl),
        Some(u) => {
            if !urls::is_http_s(u) {
                POView::Failed(ErrorView::InvalidUrl)
            } else if !robots_phase_allowed(entries, ttl, net_robots, u.host, ua, u.path_and_query, now) {
                POView::Failed(ErrorView::RobotsBlocked)
            } else {
                page_outcome_s(u, script_page_s(net_pages, urls::url_str_s(u)), now, max_links)
            }
        },
    }
}

/// An invalid URL is turned away before any network use: whatever any
/// script would answer, the outcome is the same invalid-URL failure, so no
/// robots or page fetch is ever issued for it.
pub proof fn lemma_invalid_url_never_fetched(
    entries: Seq<robots::EntryView>,
    ttl: u64,
    ua: Seq<char>,
    max_links: int,
    r1: Seq<RProbeView>,
    p1: Seq<PProbeView>,
    r2: Seq<RProbeView>,
    p2: Seq<PProbeView>,
    url: Seq<char>,
    now: u64,
)
    requires
        match urls::url_parse_s(url) {
            None => true,
            Some(u) => !urls::is_http_s(u),
        },
    ensures
        scrape_outcome_s(entries, ttl, ua, max_links, r1, p1, url, now) == POView::Failed(
            ErrorView::InvalidUrl,
        ),
        scrape_outcome_s(entries, ttl, ua, max_links, r1, p1, url, now) == scrape_outcome_s(
            entries,
            ttl,
            ua,
            max_links,
            r2,
            p2,
            url,
            now,
        ),
        robots_after_scrape_s(entries, ttl, r1, url, now) == entries,
{
}

/// Scrape one URL against scripted network answers: validate, consult
/// robots through the cache, classify the page fetch. Only the robots cache
/// changes: a missed host whose robots.txt arrived is cached.
pub fn scrape_one(
    robots_cache: &mut RobotsCache,
    cfg: &CrawlConfig,
    net: &FetchScript,
    url_raw: &str,
    now: u64,
) -> (r: PageOutcome)
    requires
        old(robots_cache).wf(),
    ensures
        final(robots_cache).wf(),
        final(robots_cache).ttl_secs == old(robots_cache).ttl_secs,
        r@ == scrape_outcome_s(
            old(robots_cache).entries_v(),
            old(robots_cache).ttl_secs,
            cfg.user_agent@,
            cfg.max_links_per_page as int,
            net.robots_v(),
            net.pages_v(),
            url_raw@,
            now,
        ),
        final(robots_cache).entries_v() == robots_after_scrape_s(
            old(robots_cache).entries_v(),
            old(robots_cache).ttl_secs,
            net.robots_v(),
            url_raw@,
            now,
        ),
{
    let uvv = text::chars_vec(url_raw);
    let parsed = urls::parse_url_chars(&uvv);
    let u = match parsed {
        None => {
            return PageOutcome::Failed(CrawlError::InvalidUrl);
        },
        Some(u) => u,
    };
    if !urls::is_http_scheme(&u) {
        return PageOutcome::Failed(CrawlError::InvalidUrl);
    }
    let hostv = text::chars_vec(u.host.as_str());
    let cached_allowed: Option<bool> = match robots_cache.lookup(u.host.as_str(), now) {
        Some(groups) => Some(
            robots::robots_allowed(groups, cfg.user_agent.as_str(), u.path_and_query.as_str()),
        ),
        None => None,
    };
    let allowed: bool = match cached_allowed {
        Some(a) => a,
        None => {
            let body = script_robots(net, &hostv);
            match body {
                Some(b) => {
                    let groups = robots::parse_robots(b.as_str());
                    let a = robots::robots_allowed(
                        &groups,
                        cfg.user_agent.as_str(),
                        u.path_and_query.as_str(),
                    );
                    robots_cache.install(u.host.as_str(), now, groups);
                    a
                },
                None => true,
            }
        },
    };
    if !allowed {
        return PageOutcome::Failed(CrawlError::RobotsBlocked);
    }
    let ustr = urls::url_string(&u);
    let ucv = text::chars_vec(ustr.as_str());
    let outcome = script_page(net, &ucv);
    evaluate_response(&u, &outcome, now, cfg.max_links_per_page)
}

/// What became of one queue item in a tick.
pub enum ItemReport {
    /// The page was fetched and stored; carries how many newly discovered
    /// links entered the queue.
    Stored { newly_enqueued: usize },
    /// The server answered `304 Not Modified`.
    Unchanged,
    /// The attempt failed; the row was rescheduled with backoff.
    Failed(CrawlError),
}

pub ghost enum ReportView {
    Stored(int),
    Unchanged,
    Failed(ErrorView),
}

impl View for ItemReport {
    type V = ReportView;

    open spec fn view(&self) -> ReportView {
        match self {
            ItemReport::Stored { newly_enqueued } => ReportView::Stored(*newly_enqueued as int),
            ItemReport::Unchanged => ReportView::Unchanged,
            ItemReport::Failed(e) => ReportView::Failed(e@),
        }
    }
}

/// The state the orchestration acts on: queue rows and id counter, stored
/// documents, and cached robots entries.
pub ghost struct CrawlerState {
    pub rows: Seq<queue::ItemView>,
    pub next_id: i64,
    pub docs: Seq<DocView>,
    pub robots_entries: Seq<robots::EntryView>,
}

/// What handling one claimed item does to the state, and what it reports.
pub ghost struct ItemStep {
    pub state: CrawlerState,
    pub report: ReportView,
}

/// The transition of one claimed item: scrape it (which may cache freshly
/// fetched robots rules), then persist and reschedule. An invalid URL
/// changes no row; any other failure reschedules the row with backoff under
/// the error's label; `304` reschedules as success with no store write; a
/// fetched page is stored (merge-upsert), its links enter the queue
/// idempotently under `link`, and the row is rescheduled as success.
pub open spec fn item_step_s(
    st: CrawlerState,
    ttl: u64,
    ua: Seq<char>,
    max_links: int,
    net_robots: Seq<RProbeView>,
    net_pages: Seq<PProbeView>,
    item: queue::ItemView,
    now: u64,
) -> ItemStep {
    let robots2 = robots_after_scrape_s(st.robots_entries, ttl, net_robots, item.url, now);
    match scrape_outcome_s(
        st.robots_entries,
        ttl,
        ua,
        max_links,
        net_robots,
        net_pages,
        item.url,
        now,
    ) {
        POView::Failed(e) => {
            if e == ErrorView::InvalidUrl {
                ItemStep {
                    state: CrawlerState { robots_entries: robots2, ..st },
                    report: ReportView::Failed(ErrorView::InvalidUrl),
                }
            } else {
                ItemStep {
                    state: CrawlerState {
                        rows: queue::failure_rows(st.rows, item.id, e.label_s(), now),
                        robots_entries: robots2,
                        ..st
                    },
                    report: ReportView::Failed(e),
                }
            }
        },
        POView::Unchanged => ItemStep {
            state: CrawlerState {
                rows: queue::success_rows(st.rows, item.id, 304, now),
                robots_entries: robots2,
                ..st
            },
            report: ReportView::Unchanged,
        },
        POView::Page(d, links) => {
            let f = queue::enqueue_all_s(
                queue::EnqFold { rows: st.rows, next_id: st.next_id, count: 0 },
                links.map_values(|l: UrlView| urls::url_str_s(l)),
                0,
                Some("link"@),
                0,
                now,
            );
            ItemStep {
                state: CrawlerState {
                    rows: queue::success_rows(f.rows, item.id, d.http_status, now),
                    next_id: f.next_id,
                    docs: docstore::upsert_rows(st.docs, d),
                    robots_entries: robots2,
                },
                report: ReportView::Stored(f.count),
            }
        },
    }
}

/// What one tick did.
pub struct TickSummary {
    pub processed_ok: usize,
    pub failed: usize,
    pub newly_enqueued: usize,
}

/// The running state and counts of a tick.
pub ghost struct TickFold {
    pub state: CrawlerState,
    pub ok: int,
    pub failed: int,
    pub newly: int,
}

/// The saturating count addition the tick uses for discovered rows.
pub open spec fn sat_add_count(a: int, b: int) -> int {
    if a + b > usize::MAX {
        usize::MAX as int
    } else {
        a + b
    }
}

/// A tick after the claim: handle each claimed item in order with
/// `item_step_s`, counting a stored or unchanged outcome as one success and
/// any failure as one failure, and summing (saturating) the newly inserted
/// rows.
pub open spec fn tick_fold_s(
    st: TickFold,
    ttl: u64,
    ua: Seq<char>,
    max_links: int,
    net_robots: Seq<RProbeView>,
    net_pages: Seq<PProbeView>,
    claimed: Seq<queue::ItemView>,
    i: int,
    now: u64,
) -> TickFold
    decreases claimed.len() - i,
    when 0 <= i <= claimed.len()
{
    if i >= claimed.len() {
        st
    } else {
        let step = item_step_s(st.state, ttl, ua, max_links, net_robots, net_pages, claimed[i], now);
        let st2 = match step.report {
            ReportView::Stored(n) => TickFold {
                state: step.state,
                ok: st.ok + 1,
                failed: st.failed,
                newly: sat_add_count(st.newly, n),
            },
            ReportView::Unchanged => TickFold {
                state: step.state,
                ok: st.ok + 1,
                failed: st.failed,
                newly: st.newly,
            },
            ReportView::Failed(e) => TickFold {
                state: step.state,
                ok: st.ok,
                failed: st.failed + 1,
                newly: st.newly,
            },
        };
        tick_fold_s(st2, ttl, ua, max_links, net_robots, net_pages, claimed, i + 1, now)
    }
}

/// The whole crawler: configuration, the work queue, the document store and
/// the robots cache.
pub struct Crawler {
    pub cfg: CrawlConfig,
    pub queue: CrawlQueue,
    pub docs: DocumentStore,
    pub robots: RobotsCache,
}

impl Crawler {
    pub open spec fn wf(&self) -> bool {
        self.queue.wf() && self.docs.wf() && self.robots.wf()
    }

    /// The mathematical state the orchestration contracts speak of.
    pub open spec fn state_v(&self) -> CrawlerState {
        CrawlerState {
            rows: self.queue.items_v(),
            next_id: self.queue.next_id,
            docs: self.docs.docs_v(),
            robots_entries: self.robots.entries_v(),
        }
    }

    pub fn new(cfg: CrawlConfig) -> (r: Crawler)
        ensures
            r.wf(),
            r.cfg == cfg,
            r.queue.items_v() == Seq::<queue::ItemView>::empty(),
            r.queue.next_id == 1,
            r.docs.docs_v() == Seq::<DocView>::empty(),
            r.robots.entries_v() == Seq::<robots::EntryView>::empty(),
            r.robots.ttl_secs == cfg.robots_ttl_secs,
    {
        let ttl = cfg.robots_ttl_secs;
        Crawler {
            cfg,
            queue: CrawlQueue::new(),
            docs: DocumentStore::new(),
            robots: RobotsCache::new(ttl),
        }
    }

    /// Handle one claimed queue item: scrape it, then persist and
    /// reschedule. An invalid URL changes nothing (it is turned away before
    /// any network use); a failure reschedules the row with backoff under
    /// the error's label; `304` reschedules as success without any store
    /// write; a fetched page is stored, its links enter the queue
    /// idempotently, and the row is rescheduled as success.
    pub fn process_item(&mut self, item: &QueueItem, net: &FetchScript, now: u64) -> (r:
        ItemReport)
        requires
            old(self).wf(),
        ensures
            final(self).wf(),
            final(self).cfg == old(self).cfg,
            final(self).robots.ttl_secs == old(self).robots.ttl_secs,
            (ItemStep { state: final(self).state_v(), report: r@ }) == item_step_s(
                old(self).state_v(),
                old(self).robots.ttl_secs,
                old(self).cfg.user_agent@,
                old(self).cfg.max_links_per_page as int,
                net.robots_v(),
                net.pages_v(),
                item@,
                now,
            ),
    {
        let po = scrape_one(&mut self.robots, &self.cfg, net, item.url.as_str(), now);
        match po {
            PageOutcome::Failed(e) => {
                let is_invalid = match &e {
                    CrawlError::InvalidUrl => true,
                    _ => false,
                };
                if is_invalid {
                    return ItemReport::Failed(e);
                }
                let label = e.label();
                self.queue.reschedule_failure(item.id, label.as_str(), now);
                ItemReport::Failed(e)
            },
            PageOutcome::Unchanged => {
                self.queue.reschedule_success(item.id, 304, now);
                ItemReport::Unchanged
            },
            PageOutcome::Page(doc, links) => {
                let status = doc.http_status;
                let ghost dv = doc@;
                let ghost lv = extract::links_view(links@);
                self.docs.upsert_document(doc);
                let mut lss: Vec<String> = Vec::new();
                proof {
                    assert(text::strings_view(lss@) =~= Seq::<Seq<char>>::empty());
                    assert(lv.map_values(|l: UrlView| urls::url_str_s(l)).take(0) =~= Seq::<
                        Seq<char>,
                    >::empty());
                }
                let mut i: usize = 0;
                while i < links.len()
                    invariant
                        0 <= i <= links@.len(),
                        lv == extract::links_view(links@),
                        lv.len() == links@.len(),
                        text::strings_view(lss@) == lv.map_values(
                            |l: UrlView| urls::url_str_s(l),
                        ).take(i as int),
                    decreases links.len() - i,
                {
                    let ghost pre = text::strings_view(lss@);
                    let s = urls::url_string(&links[i]);
                    lss.push(s);
                    proof {
                        assert(text::strings_view(lss@) =~= pre.push(
                            urls::url_str_s(lv[i as int]),
                        ));
                        assert(lv.map_values(|l: UrlView| urls::url_str_s(l)).take(i + 1 as int)
                            =~= lv.map_values(|l: UrlView| urls::url_str_s(l)).take(i as int).push(
                            urls::url_str_s(lv[i as int]),
                        ));
                    }
                    i = i + 1;
                }
                proof {
                    assert(lv.map_values(|l: UrlView| urls::url_str_s(l)).take(lv.len() as int)
                        =~= lv.map_values(|l: UrlView| urls::url_str_s(l)));
                }
                let n = self.queue.enqueue_many(&lss, Some("link"), 0, now);
                self.queue.reschedule_success(item.id, status, now);
                ItemReport::Stored { newly_enqueued: n }
            },
        }
    }

    /// Run one tick against scripted network answers: claim a due batch and
    /// handle each claimed item in turn. The final state and the counts are
    /// exactly the fold of the per-item transitions (`item_step_s`) over the
    /// claimed rows (`claim_fold`) in claim order: every claimed row reaches
    /// one outcome, successes count the stored and unchanged pages, failures
    /// the rest, and the new-row tally sums what the links inserted. With
    /// nothing due, nothing changes.
    pub fn crawl_tick(&mut self, batch: usize, now: u64, net: &FetchScript) -> (s: TickSummary)
        requires
            old(self).wf(),
            now + queue::INFLIGHT_SECS <= u64::MAX,
        ensures
            final(self).wf(),
            final(self).cfg == old(self).cfg,
            final(self).robots.ttl_secs == old(self).robots.ttl_secs,
            s.processed_ok + s.failed <= batch,
            ({
                let cl = queue::claim_fold(old(self).queue.items_v(), now, batch as nat);
                let tf = tick_fold_s(
                    TickFold {
                        state: CrawlerState {
                            rows: cl.rows,
                            next_id: old(self).queue.next_id,
                            docs: old(self).docs.docs_v(),
                            robots_entries: old(self).robots.entries_v(),
                        },
                        ok: 0,
                        failed: 0,
                        newly: 0,
                    },
                    old(self).robots.ttl_secs,
                    old(self).cfg.user_agent@,
                    old(self).cfg.max_links_per_page as int,
                    net.robots_v(),
                    net.pages_v(),
                    cl.claimed,
                    0,
                    now,
                );
                &&& final(self).state_v() == tf.state
                &&& s.processed_ok as int == tf.ok
                &&& s.failed as int == tf.failed
                &&& s.newly_enqueued as int == tf.newly
                &&& s.processed_ok + s.failed == cl.claimed.len()
            }),
            (batch > 0 && (exists|k: int|
                0 <= k < old(self).queue.items_v().len() && queue::due(
                    #[trigger] old(self).queue.items_v()[k],
                    now,
                ))) ==> s.processed_ok + s.failed >= 1,
            (forall|k: int|
                0 <= k < old(self).queue.items_v().len() ==> !queue::due(
                    #[trigger] old(self).queue.items_v()[k],
                    now,
                )) ==> ({
                &&& final(self).queue.items_v() == old(self).queue.items_v()
                &&& final(self).queue.next_id == old(self).queue.next_id
                &&& final(self).docs.docs_v() == old(self).docs.docs_v()
                &&& final(self).robots.entries_v() == old(self).robots.entries_v()
                &&& s.processed_ok == 0
                &&& s.failed == 0
                &&& s.newly_enqueued == 0
            }),
    {
        let ghost oq = self.queue.items_v();
        let ghost odocs = self.docs.docs_v();
        let ghost orobots = self.robots.entries_v();
        let ghost onid = self.queue.next_id;
        let ghost ttl = self.robots.ttl_secs;
        let ghost ua = self.cfg.user_agent@;
        let ghost maxl = self.cfg.max_links_per_page as int;
        let claimed = self.queue.dequeue_due(batch, now);
        let ghost cv = queue::items_view(claimed@);
        let ghost cl = queue::claim_fold(oq, now, batch as nat);
        let ghost init_tf = TickFold {
            state: CrawlerState { rows: cl.rows, next_id: onid, docs: odocs, robots_entries: orobots },
            ok: 0,
            failed: 0,
            newly: 0,
        };
        proof {
            assert(cv == cl.claimed);
            assert(self.queue.items_v() == cl.rows);
        }
        if claimed.len() == 0 {
            proof {
                assert forall|k: int| 0 <= k < self.queue.items_v().len() implies #[trigger] self.queue.items_v()[k] == oq[k] by {
                    assert(!queue::claimed_has(cv, oq[k].id));
                }
                assert(self.queue.items_v() =~= oq);
                assert(oq == old(self).queue.items_v());
                if batch > 0 {
                    assert forall|k: int| 0 <= k < oq.len() implies !queue::due(
                        #[trigger] old(self).queue.items_v()[k],
                        now,
                    ) by {
                        assert(!queue::due(self.queue.items_v()[k], now));
                        assert(self.queue.items_v()[k] == oq[k]);
                    }
                }
                assert(cl.claimed.len() == 0);
                assert(tick_fold_s(
                    init_tf,
                    ttl,
                    ua,
                    maxl,
                    net.robots_v(),
                    net.pages_v(),
                    cl.claimed,
                    0,
                    now,
                ) == init_tf);
            }
            return TickSummary { processed_ok: 0, failed: 0, newly_enqueued: 0 };
        }
        proof {
            assert(cv.len() > 0);
            assert(oq == old(self).queue.items_v());
            queue::lemma_id_idx_bounds(oq, cv[0].id);
            let k0 = queue::id_idx(oq, cv[0].id);
            assert(0 <= k0 < oq.len());
            assert(queue::due(oq[k0], now));
            assert(queue::due(old(self).queue.items_v()[k0], now));
        }
        let mut ok_n: usize = 0;
        let mut failed_n: usize = 0;
        let mut newly: usize = 0;
        let mut i: usize = 0;
        while i < claimed.len()
            invariant
                self.wf(),
                self.cfg == old(self).cfg,
                self.robots.ttl_secs == old(self).robots.ttl_secs,
                ttl == old(self).robots.ttl_secs,
                ua == old(self).cfg.user_agent@,
                maxl == old(self).cfg.max_links_per_page as int,
                cv == queue::items_view(claimed@),
                cv == cl.claimed,
                0 <= i <= claimed@.len(),
                cv.len() == claimed@.len(),
                claimed@.len() <= batch,
                ok_n + failed_n == i,
                tick_fold_s(init_tf, ttl, ua, maxl, net.robots_v(), net.pages_v(), cv, 0, now)
                    == tick_fold_s(
                    TickFold {
                        state: self.state_v(),
                        ok: ok_n as int,
                        failed: failed_n as int,
                        newly: newly as int,
                    },
                    ttl,
                    ua,
                    maxl,
                    net.robots_v(),
                    net.pages_v(),
                    cv,
                    i as int,
                    now,
                ),
            decreases claimed.len() - i,
        {
            let ghost pre_tf = TickFold {
                state: self.state_v(),
                ok: ok_n as int,
                failed: failed_n as int,
                newly: newly as int,
            };
            let r = self.process_item(&claimed[i], net, now);
            proof {
                assert(claimed@[i as int]@ == cv[i as int]);
                assert((ItemStep { state: self.state_v(), report: r@ }) == item_step_s(
                    pre_tf.state,
                    ttl,
                    ua,
                    maxl,
                    net.robots_v(),
                    net.pages_v(),
                    cv[i as int],
                    now,
                ));
            }
            match r {
                ItemReport::Stored { newly_enqueued } => {
                    ok_n = ok_n + 1;
                    if newly > usize::MAX - newly_enqueued {
                        newly = usize::MAX;
                    } else {
                        newly = newly + newly_enqueued;
                    }
                },
                ItemReport::Unchanged => {
                    ok_n = ok_n + 1;
                },
                ItemReport::Failed(_) => {
                    failed_n = failed_n + 1;
                },
            }
            i = i + 1;
        }
        proof {
            assert(tick_fold_s(
                TickFold {
                    state: self.state_v(),
                    ok: ok_n as int,
                    failed: failed_n as int,
                    newly: newly as int,
                },
                ttl,
                ua,
                maxl,
                net.robots_v(),
                net.pages_v(),
                cv,
                cv.len() as int,
                now,
            ) == (TickFold {
                state: self.state_v(),
                ok: ok_n as int,
                failed: failed_n as int,
                newly: newly as int,
            }));
        }
        TickSummary { processed_ok: ok_n, failed: failed_n, newly_enqueued: newly }
    }

    /// Insert the curated seed URLs, idempotently, at high priority.
    pub fn seed_default_sources(&mut self, now: u64) -> (n: usize)
        requires
            old(self).wf(),
        ensures
            final(self).wf(),
            final(self).cfg == old(self).cfg,
            final(self).docs.docs_v() == old(self).docs.docs_v(),
            final(self).robots.entries_v() == old(self).robots.entries_v(),
            ({
                let f = queue::enqueue_all_s(
                    queue::EnqFold {
                        rows: old(self).queue.items_v(),
                        next_id: old(self).queue.next_id,
                        count: 0,
                    },
                    seed_urls_s(),
                    0,
                    Some("seed"@),
                    100,
                    now,
                );
                &&& final(self).queue.items_v() == f.rows
                &&& final(self).queue.next_id == f.next_id
                &&& n as int == f.count
            }),
    {
        let mut seeds: Vec<String> = Vec::new();
        seeds.push("https://www.noaa.gov/news".to_owned());
        seeds.push("https://climate.nasa.gov/news/".to_owned());
        seeds.push("https://www.epa.gov/climate-change".to_owned());
        seeds.push("https://www.ipcc.ch/".to_owned());
        seeds.push("https://unfccc.int/news".to_owned());
        seeds.push("https://www.carbonbrief.org/".to_owned());
        seeds.push("https://www.nature.com/subjects/climate-science".to_owned());
        seeds.push("https://www.sciencedaily.com/news/earth_climate/".to_owned());
        seeds.push("https://yaleclimateconnections.org/".to_owned());
        seeds.push("https://www.theguardian.com/environment/climate-crisis".to_owned());
        proof {
            assert(text::strings_view(seeds@) =~= seed_urls_s());
        }
        self.queue.enqueue_many(&seeds, Some("seed"), 100, now)
    }

    /// Take the first fetched probe body that is a feed and insert each
    /// entry's first link; every other body is passed over. Returns how many
    /// rows were new; no feed among the bodies inserts nothing.
    pub fn try_discover_feeds(&mut self, fetched: &Vec<Option<String>>, now: u64) -> (n: usize)
        requires
            old(self).wf(),
        ensures
            final(self).wf(),
            final(self).cfg == old(self).cfg,
            final(self).docs.docs_v() == old(self).docs.docs_v(),
            final(self).robots.entries_v() == old(self).robots.entries_v(),
            ({
                let bs = opt_strings_view(fetched@);
                let j = first_feed_idx(bs, 0);
                if j < bs.len() {
                    let f = queue::enqueue_all_s(
                        queue::EnqFold {
                            rows: old(self).queue.items_v(),
                            next_id: old(self).queue.next_id,
                            count: 0,
                        },
                        discover::feed_links_s(bs[j]->0),
                        0,
                        Some("rss"@),
                        0,
                        now,
                    );
                    &&& final(self).queue.items_v() == f.rows
                    &&& final(self).queue.next_id == f.next_id
                    &&& n as int == f.count
                } else {
                    &&& final(self).queue.items_v() == old(self).queue.items_v()
                    &&& final(self).queue.next_id == old(self).queue.next_id
                    &&& n == 0
                }
            }),
    {
        let ghost bs = opt_strings_view(fetched@);
        let mut i: usize = 0;
        while i < fetched.len()
            invariant
                0 <= i <= fetched@.len(),
                bs == opt_strings_view(fetched@),
                bs.len() == fetched@.len(),
                self.wf(),
                *self == *old(self),
                first_feed_idx(bs, 0) == first_feed_idx(bs, i as int),
            decreases fetched.len() - i,
        {
            match &fetched[i] {
                Some(b) => {
                    assert(bs[i as int] == Some(b@));
                    match discover::feed_links(b.as_str()) {
                        Some(links) => {
                            proof {
                                assert(first_feed_idx(bs, i as int) == i as int);
                            }
                            let n = self.queue.enqueue_many(&links, Some("rss"), 0, now);
                            return n;
                        },
                        None => {},
                    }
                },
                None => {},
            }
            i = i + 1;
        }
        0
    }

    /// Insert each URL listed by a fetched sitemap body; with no body (the
    /// fetch failed or answered non-success) nothing is inserted.
    pub fn try_discover_sitemap(&mut self, body: &Option<String>, now: u64) -> (n: usize)
        requires
            old(self).wf(),
        ensures
            final(self).wf(),
            final(self).cfg == old(self).cfg,
            final(self).docs.docs_v() == old(self).docs.docs_v(),
            final(self).robots.entries_v() == old(self).robots.entries_v(),
            ({
                match text::opt_sv(*body) {
                    Some(b) => {
                        let f = queue::enqueue_all_s(
                            queue::EnqFold {
                                rows: old(self).queue.items_v(),
                                next_id: old(self).queue.next_id,
                                count: 0,
                            },
                            discover::sitemap_locs_s(b),
                            0,
                            Some("sitemap"@),
                            0,
                            now,
                        );
                        &&& final(self).queue.items_v() == f.rows
                        &&& final(self).queue.next_id == f.next_id
                        &&& n as int == f.count
                    },
                    None => {
                        &&& final(self).queue.items_v() == old(self).queue.items_v()
                        &&& final(self).queue.next_id == old(self).queue.next_id
                        &&& n == 0
                    },
                }
            }),
    {
        match body {
            Some(b) => {
                let locs = discover::sitemap_locs(b.as_str());
                self.queue.enqueue_many(&locs, Some("sitemap"), 0, now)
            },
            None => 0,
        }
    }
}

/// The curated seed URLs.
pub open spec fn seed_urls_s() -> Seq<Seq<char>> {
    seq![
        "https://www.noaa.gov/news"@,
        "https://climate.nasa.gov/news/"@,
        "https://www.epa.gov/climate-change"@,
        "https://www.ipcc.ch/"@,
        "https://unfccc.int/news"@,
        "https://www.carbonbrief.org/"@,
        "https://www.nature.com/subjects/climate-science"@,
        "https://www.sciencedaily.com/news/earth_climate/"@,
        "https://yaleclimateconnections.org/"@,
        "https://www.theguardian.com/environment/climate-crisis"@,
    ]
}

/// View of a sequence of optional bodies.
pub open spec fn opt_strings_view(s: Seq<Option<String>>) -> Seq<Option<Seq<char>>> {
    s.map_values(|o: Option<String>| text::opt_sv(o))
}

/// First index at or after `i` whose body is present and parses as a feed.
pub open spec fn first_feed_idx(bs: Seq<Option<Seq<char>>>, i: int) -> int
    decreases bs.len() - i,
    when 0 <= i <= bs.len()
{
    if i >= bs.len() {
        bs.len() as int
    } else {
        match bs[i] {
            Some(b) => if discover::feed_valid_s(b) {
                i
            } else {
                first_feed_idx(bs, i + 1)
            },
            None => first_feed_idx(bs, i + 1),
        }
    }
}

/// The URL with its path and query replaced.
pub open spec fn with_path(u: UrlView, p: Seq<char>) -> UrlView {
    UrlView { scheme: u.scheme, host: u.host, path_and_query: p }
}

/// Where feeds are conventionally probed for: the origin itself, then
/// `/feed/`, `/rss.xml` and `/atom.xml` on its host.
pub open spec fn feed_probes_s(u: UrlView) -> Seq<Seq<char>> {
    seq![
        urls::url_str_s(u),
        urls::url_str_s(with_path(u, "/feed/"@)),
        urls::url_str_s(with_path(u, "/rss.xml"@)),
        urls::url_str_s(with_path(u, "/atom.xml"@)),
    ]
}

fn replace_path(u: &ParsedUrl, p: &str) -> (r: ParsedUrl)
    ensures
        r@ == with_path(u@, p@),
{
    ParsedUrl { scheme: u.scheme.clone(), host: u.host.clone(), path_and_query: p.to_owned() }
}

/// The URLs to probe for a feed of the given origin, or nothing when the
/// origin does not parse.
pub fn feed_probe_urls(origin: &str) -> (r: Option<Vec<String>>)
    ensures
        match r {
            Some(v) => urls::url_parse_s(origin@) matches Some(u) && text::strings_view(v@)
                == feed_probes_s(u),
            None => urls::url_parse_s(origin@) is None,
        },
{
    let u = match urls::parse_url(origin) {
        Some(u) => u,
        None => {
            return None;
        },
    };
    let mut v: Vec<String> = Vec::new();
    v.push(urls::url_string(&u));
    let p1 = replace_path(&u, "/feed/");
    v.push(urls::url_string(&p1));
    let p2 = replace_path(&u, "/rss.xml");
    v.push(urls::url_string(&p2));
    let p3 = replace_path(&u, "/atom.xml");
    v.push(urls::url_string(&p3));
    proof {
        assert(text::strings_view(v@) =~= feed_probes_s(u@));
    }
    Some(v)
}

/// The conventional sitemap URL of an origin, or nothing when the origin
/// does not parse.
pub fn sitemap_url(origin: &str) -> (r: Option<String>)
    ensures
        match r {
            Some(s) => urls::url_parse_s(origin@) matches Some(u) && s@ == urls::url_str_s(
                with_path(u, "/sitemap.xml"@),
            ),
            None => urls::url_parse_s(origin@) is None,
        },
{
    let u = match urls::parse_url(origin) {
        Some(u) => u,
        None => {
            return None;
        },
    };
    let p = replace_path(&u, "/sitemap.xml");
    Some(urls::url_string(&p))
}

} // verus!
