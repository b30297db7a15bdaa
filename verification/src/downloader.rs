//! The content-fetching capability and the source-adapter interface.

use vstd::prelude::*;
use crate::search::SearchResult;
use crate::scrape::{first_href, html_first_href, opt_view};

verus! {

/// Seconds allowed both for connecting and for the whole request.
pub const FETCH_TIMEOUT_SECS: u64 = 30;

/// A capability that retrieves the text content of a URL, bounded by a
/// connect timeout and a total-request timeout. Any network error, timeout
/// or non-success response yields `None`; fetch failure is never fatal.
pub trait Downloader {
    fn download(&self, url: String) -> Option<String>;
}

/// The network-backed `Downloader`.
pub struct TorrentDownloader;

impl TorrentDownloader {
    pub fn new() -> Box<Self> {
        Box::new(Self)
    }
}

/// Relies on reqwest's blocking client (Client::builder with
/// connect_timeout and timeout, get, send, Response::status and
/// Response::text): returns whether the response had a success status,
/// together with the body text, or `None` on a network error or timeout.
/// The outcome depends on the network, so nothing is promised of it.
/// The blocking client panics when built inside an async runtime: run this
/// only from a dedicated thread, as the program's worker threads do.
#[verifier::external_body]
fn fetch_text(url: &str, timeout_secs: u64) -> Option<(bool, String)> {
    let builder = reqwest::blocking::Client::builder()
        .connect_timeout(std::time::Duration::from_secs(timeout_secs))
        .timeout(std::time::Duration::from_secs(timeout_secs));
    let client = match builder.build() { Ok(c) => c, Err(_) => return None };
    let response = match client.get(url).send() { Ok(r) => r, Err(_) => return None };
    let ok = response.status().is_success();
    match response.text() { Ok(t) => Some((ok, t)), Err(_) => None }
}

/// What the fetcher reports for each outcome of the HTTP exchange: the body
/// of a response whose status was a success, and no content for a failed
/// exchange or a non-success response.
pub fn accept_response(fetched: Option<(bool, String)>) -> (content: Option<String>)
    ensures
        match fetched {
            Some(outcome) => content == (if outcome.0 {
                Some(outcome.1)
            } else {
                None
            }),
            None => content is None,
        },
{
    match fetched {
        Some((ok, body)) => if ok {
            Some(body)
        } else {
            None
        },
        None => None,
    }
}

impl Downloader for TorrentDownloader {
    fn download(&self, url: String) -> Option<String> {
        accept_response(fetch_text(url.as_str(), FETCH_TIMEOUT_SECS))
    }
}

/// A pluggable content source: it turns search terms into a source-specific
/// query URL, retrieves documents, and parses a listing document into an
/// ordered partial result list.
pub trait SourceAdapter {
    fn build_url(&self, terms: &str) -> String;

    fn select_results(&self, document: String) -> Vec<SearchResult>;

    fn get_document(&self, url: String) -> Option<String>;

    /// The final download link of a row: the `href` of the first element of
    /// `document` matching `selector` (a known link-scheme prefix pattern).
    fn find_magnet(&self, document: &str, selector: &str) -> (r: Option<String>)
        default_ensures
            opt_view(r) == first_href(document@, selector@),
    {
        html_first_href(document, selector)
    }
}

} // verus!
