//! Core logic of a polite, resumable web crawler: a priority work queue with
//! backoff-aware scheduling, robots.txt compliance, HTML/feed/sitemap
//! extraction, and the orchestration that ties them together.
pub mod clock;
pub mod crawler;
pub mod digest;
pub mod discover;
pub mod docstore;
pub mod extract;
pub mod langdetect;
pub mod markup;
pub mod queue;
pub mod robots;
pub mod text;
pub mod types;
pub mod urls;
