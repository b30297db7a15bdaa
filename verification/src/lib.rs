//! Search aggregation core: pluggable content-source adapters, an HTML
//! listing adapter, and an orchestrator that queries every adapter and
//! merges, deduplicates and ranks the combined results. The merge step is
//! commutative over how partial lists are gathered, so a caller may fan the
//! per-adapter work out to parallel workers and feed what comes back to
//! [`search::merge_rank`] without changing the outcome.

pub mod client;
pub mod config;
pub mod downloader;
pub mod l337xto;
pub mod scrape;
pub mod search;
pub mod text;
