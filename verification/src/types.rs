//! The data carried through the pipeline: extracted documents, the ingest
//! request and health shapes of the administrative surface, and the error
//! taxonomy of a crawl attempt.
use vstd::prelude::*;

use crate::text;

verus! {

/// Mathematical shape of a stored document.
pub ghost struct DocView {
    pub url: Seq<char>,
    pub fetched_at: u64,
    pub title: Option<Seq<char>>,
    pub description: Option<Seq<char>>,
    pub body_text: Seq<char>,
    pub content_type: Option<Seq<char>>,
    pub http_status: i32,
    pub content_hash: Option<Seq<char>>,
    pub etag: Option<Seq<char>>,
    pub lang: Option<Seq<char>>,
    pub last_modified: Option<Seq<char>>,
}

/// One fetched and extracted document, keyed by URL.
pub struct Document {
    pub url: String,
    pub fetched_at: u64,
    pub title: Option<String>,
    pub description: Option<String>,
    pub body_text: String,
    pub content_type: Option<String>,
    pub http_status: i32,
    pub content_hash: Option<String>,
    pub etag: Option<String>,
    pub lang: Option<String>,
    pub last_modified: Option<String>,
}

impl View for Document {
    type V = DocView;

    open spec fn view(&self) -> DocView {
        DocView {
            url: self.url@,
            fetched_at: self.fetched_at,
            title: text::opt_sv(self.title),
            description: text::opt_sv(self.description),
            body_text: self.body_text@,
            content_type: text::opt_sv(self.content_type),
            http_status: self.http_status,
            content_hash: text::opt_sv(self.content_hash),
            etag: text::opt_sv(self.etag),
            lang: text::opt_sv(self.lang),
            last_modified: text::opt_sv(self.last_modified),
        }
    }
}

pub fn clone_opt_string(o: &Option<String>) -> (r: Option<String>)
    ensures
        text::opt_sv(r) == text::opt_sv(*o),
{
    match o {
        Some(s) => Some(s.clone()),
        None => None,
    }
}

impl Clone for Document {
    fn clone(&self) -> (r: Self)
        ensures
            r@ == self@,
    {
        Document {
            url: self.url.clone(),
            fetched_at: self.fetched_at,
            title: clone_opt_string(&self.title),
            description: clone_opt_string(&self.description),
            body_text: self.body_text.clone(),
            content_type: clone_opt_string(&self.content_type),
            http_status: self.http_status,
            content_hash: clone_opt_string(&self.content_hash),
            etag: clone_opt_string(&self.etag),
            lang: clone_opt_string(&self.lang),
            last_modified: clone_opt_string(&self.last_modified),
        }
    }
}

/// Body of the administrative request that ingests one URL.
pub struct IngestRequest {
    pub url: String,
}

/// Body of the health answer.
pub struct Health {
    pub status: String,
}

/// Mathematical shape of a crawl error.
pub ghost enum ErrorView {
    InvalidUrl,
    RobotsBlocked,
    NetworkError(Seq<char>),
    HttpStatus(u16),
    UnsupportedContentType(Seq<char>),
    StoreError,
}

/// Why one crawl attempt failed.
pub enum CrawlError {
    /// The URL does not parse, or its scheme is neither `http` nor `https`.
    InvalidUrl,
    /// robots.txt rules forbid the URL.
    RobotsBlocked,
    /// Transport failure: timeout, refused connection, too many redirects.
    NetworkError(String),
    /// The server answered with a non-success status.
    HttpStatus(u16),
    /// The response is not HTML.
    UnsupportedContentType(String),
    /// The document could not be persisted.
    StoreError,
}

impl View for CrawlError {
    type V = ErrorView;

    open spec fn view(&self) -> ErrorView {
        match self {
            CrawlError::InvalidUrl => ErrorView::InvalidUrl,
            CrawlError::RobotsBlocked => ErrorView::RobotsBlocked,
            CrawlError::NetworkError(s) => ErrorView::NetworkError(s@),
            CrawlError::HttpStatus(c) => ErrorView::HttpStatus(*c),
            CrawlError::UnsupportedContentType(s) => ErrorView::UnsupportedContentType(s@),
            CrawlError::StoreError => ErrorView::StoreError,
        }
    }
}

impl CrawlError {
    /// A short stable label for the error, recorded in the queue.
    pub fn label(&self) -> (r: String)
        ensures
            r@ == self@.label_s(),
    {
        match self {
            CrawlError::InvalidUrl => "invalid_url".to_owned(),
            CrawlError::RobotsBlocked => "robots_blocked".to_owned(),
            CrawlError::NetworkError(_) => "network_error".to_owned(),
            CrawlError::HttpStatus(_) => "http_status".to_owned(),
            CrawlError::UnsupportedContentType(_) => "unsupported_content_type".to_owned(),
            CrawlError::StoreError => "store_failed".to_owned(),
        }
    }
}

impl ErrorView {
    pub open spec fn label_s(self) -> Seq<char> {
        match self {
            ErrorView::InvalidUrl => "invalid_url"@,
            ErrorView::RobotsBlocked => "robots_blocked"@,
            ErrorView::NetworkError(_) => "network_error"@,
            ErrorView::HttpStatus(_) => "http_status"@,
            ErrorView::UnsupportedContentType(_) => "unsupported_content_type"@,
            ErrorView::StoreError => "store_failed"@,
        }
    }
}

} // verus!
