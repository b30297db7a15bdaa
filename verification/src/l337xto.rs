//! The CSS-selector-driven listing adapter for the reference site: a
//! two-stage pipeline that parses the listing page into rows and then
//! resolves each row's final download link through its detail page.

use vstd::prelude::*;
use crate::config::{default_selectors, L337xToConfig, L337xToSelectors};
use crate::downloader::{Downloader, SourceAdapter};
use crate::scrape::{
    count_matches, first_href, match_count, nested_href, nested_text, nth_inner_href,
    nth_inner_text,
};
use crate::search::SearchResult;
use crate::text::{escape_terms, escaped, first_token, first_token_spec, parse_u32, parse_u32_spec};

verus! {

/// Listing rows beyond this count are ignored, bounding the parsing cost of
/// an arbitrarily long page.
pub const MAX_ROWS: usize = 6;

/// The fields of one complete listing row, before link resolution.
pub ghost struct RowData {
    pub name: Seq<char>,
    pub seeders: u32,
    pub leechers: u32,
    pub size: Seq<char>,
    pub href: Seq<char>,
}

/// Every required field of listing row `i` is present and both counters
/// parse as decimal numbers.
pub open spec fn row_fields_ok(doc: Seq<char>, sels: L337xToSelectors, i: int) -> bool {
    &&& nested_text(doc, sels.row@, i, sels.name@) is Some
    &&& match nested_text(doc, sels.row@, i, sels.seeders@) {
        Some(t) => parse_u32_spec(t) is Some,
        None => false,
    }
    &&& match nested_text(doc, sels.row@, i, sels.leechers@) {
        Some(t) => parse_u32_spec(t) is Some,
        None => false,
    }
    &&& nested_text(doc, sels.row@, i, sels.size@) is Some
    &&& nested_href(doc, sels.row@, i, sels.url@) is Some
}

/// The parsed fields of a complete row `i`: the name text, the numeric
/// counters, the first whitespace-delimited token of the size text, and
/// the detail-page href.
pub open spec fn row_data(doc: Seq<char>, sels: L337xToSelectors, i: int) -> RowData {
    RowData {
        name: nested_text(doc, sels.row@, i, sels.name@)->Some_0,
        seeders: parse_u32_spec(nested_text(doc, sels.row@, i, sels.seeders@)->Some_0)->Some_0,
        leechers: parse_u32_spec(nested_text(doc, sels.row@, i, sels.leechers@)->Some_0)->Some_0,
        size: first_token_spec(nested_text(doc, sels.row@, i, sels.size@)->Some_0),
        href: nested_href(doc, sels.row@, i, sels.url@)->Some_0,
    }
}

/// The complete rows among the first `n` listing rows, in document order.
pub open spec fn rows_upto(doc: Seq<char>, sels: L337xToSelectors, n: int) -> Seq<RowData>
    decreases n,
{
    if n <= 0 {
        Seq::empty()
    } else if row_fields_ok(doc, sels, n - 1) {
        rows_upto(doc, sels, n - 1).push(row_data(doc, sels, n - 1))
    } else {
        rows_upto(doc, sels, n - 1)
    }
}

/// How many listing rows are considered: all of them, capped at `MAX_ROWS`.
pub open spec fn row_limit(doc: Seq<char>, sels: L337xToSelectors) -> int {
    if match_count(doc, sels.row@) < MAX_ROWS {
        match_count(doc, sels.row@) as int
    } else {
        MAX_ROWS as int
    }
}

/// All complete rows of the capped listing, in document order.
pub open spec fn listing_rows(doc: Seq<char>, sels: L337xToSelectors) -> Seq<RowData> {
    rows_upto(doc, sels, row_limit(doc, sels))
}

/// Law: a listing row missing a required field is absent from the parsed
/// rows, and the rows around it are exactly what they would be without it.
pub proof fn lemma_incomplete_row_skipped(doc: Seq<char>, sels: L337xToSelectors, n: int)
    requires
        0 < n,
        !row_fields_ok(doc, sels, n - 1),
    ensures
        rows_upto(doc, sels, n) == rows_upto(doc, sels, n - 1),
{
}

/// How a finished result relates to its parsed row: the parsed fields are
/// copied unchanged, and the url is either a link resolved from some detail
/// page through the magnet selector, or empty when resolution failed.
pub open spec fn result_of_row(res: SearchResult, row: RowData, magnet_sel: Seq<char>) -> bool {
    &&& res.name@ == row.name
    &&& res.seeders == row.seeders
    &&& res.leechers == row.leechers
    &&& res.size@ == row.size
    &&& (res.url@ == Seq::<char>::empty() || (exists|d: Seq<char>|
        first_href(d, magnet_sel) == Some(res.url@)))
}

/// One partially-parsed listing entry; internal to the adapter.
pub(crate) struct Row {
    pub name: String,
    pub seeders: u32,
    pub leechers: u32,
    pub size: String,
    pub href: String,
}

impl View for Row {
    type V = RowData;

    closed spec fn view(&self) -> RowData {
        RowData {
            name: self.name@,
            seeders: self.seeders,
            leechers: self.leechers,
            size: self.size@,
            href: self.href@,
        }
    }
}

/// The concrete `SourceAdapter` for the reference site.
pub struct L337xTo<D: Downloader> {
    pub downloader: D,
    pub config: L337xToConfig,
}

impl<D: Downloader> L337xTo<D> {
    /// An adapter over `downloader` with the reference site's base URL and
    /// selector set.
    pub fn new(downloader: D) -> (a: Self)
        ensures
            a.downloader == downloader,
            a.config.base_url@ == "https://1337xx.to"@,
            default_selectors(a.config.selectors),
    {
        Self { downloader, config: L337xToConfig::default() }
    }

    /// An adapter with its own base URL and selector set; new sources are
    /// configured, not coded.
    pub fn with_config(downloader: D, config: L337xToConfig) -> (a: Self)
        ensures
            a.downloader == downloader,
            a.config == config,
    {
        Self { downloader, config }
    }

    /// Parses the capped listing into its complete rows, in document order,
    /// silently skipping any row with a missing required field.
    fn parse_rows(&self, document: &str) -> (rows: Vec<Row>)
        ensures
            rows@.map_values(|r: Row| r@) == listing_rows(document@, self.config.selectors),
    {
        let total = count_matches(document, self.config.selectors.row.as_str());
        let limit = if total < MAX_ROWS {
            total
        } else {
            MAX_ROWS
        };
        proof {
            assert(limit as int == row_limit(document@, self.config.selectors));
        }
        let mut rows: Vec<Row> = Vec::new();
        let mut i: usize = 0;
        while i < limit
            invariant
                i <= limit,
                limit as int == row_limit(document@, self.config.selectors),
                rows@.map_values(|r: Row| r@) == rows_upto(document@, self.config.selectors, i as int),
            decreases limit - i,
        {
            let ghost pre = rows@;
            let row_sel = self.config.selectors.row.as_str();
            let name = nth_inner_text(document, row_sel, i, self.config.selectors.name.as_str());
            let seeders_text = nth_inner_text(
                document,
                row_sel,
                i,
                self.config.selectors.seeders.as_str(),
            );
            let leechers_text = nth_inner_text(
                document,
                row_sel,
                i,
                self.config.selectors.leechers.as_str(),
            );
            let size_text = nth_inner_text(document, row_sel, i, self.config.selectors.size.as_str());
            let href = nth_inner_href(document, row_sel, i, self.config.selectors.url.as_str());
            match (name, seeders_text, leechers_text, size_text, href) {
                (Some(name), Some(st), Some(lt), Some(sz), Some(href)) => {
                    let seeders = parse_u32(st.as_str());
                    let leechers = parse_u32(lt.as_str());
                    match (seeders, leechers) {
                        (Some(seeders), Some(leechers)) => {
                            let size = first_token(sz.as_str());
                            let row = Row { name, seeders, leechers, size, href };
                            proof {
                                assert(row_fields_ok(document@, self.config.selectors, i as int));
                                assert(row@ == row_data(document@, self.config.selectors, i as int));
                            }
                            rows.push(row);
                            proof {
                                assert(rows@.map_values(|r: Row| r@) =~= pre.map_values(
                                    |r: Row| r@,
                                ).push(rows@.last()@));
                            }
                        },
                        _ => {
                            proof {
                                assert(!row_fields_ok(document@, self.config.selectors, i as int));
                            }
                        },
                    }
                },
                _ => {
                    proof {
                        assert(!row_fields_ok(document@, self.config.selectors, i as int));
                    }
                },
            }
            i += 1;
        }
        rows
    }

    /// The final link derived from an optionally fetched detail page: the
    /// href of the page's first match of `selector`, or the empty string
    /// when the fetch failed or no matching link exists. A row whose detail
    /// fetch failed is still produced downstream, carrying this empty link.
    pub fn link_from_detail(&self, detail: Option<String>, selector: &str) -> (url: String)
        ensures
            match detail {
                Some(d) => match first_href(d@, selector@) {
                    Some(h) => url@ == h,
                    None => url@ == Seq::<char>::empty(),
                },
                None => url@ == Seq::<char>::empty(),
            },
    {
        match detail {
            Some(d) => match self.find_magnet(d.as_str(), selector) {
                Some(m) => m,
                None => String::new(),
            },
            None => String::new(),
        }
    }
}

impl<D: Downloader> SourceAdapter for L337xTo<D> {
    /// The query URL: the percent-escaped search terms embedded in the fixed
    /// search path of the configured base URL.
    fn build_url(&self, terms: &str) -> (url: String)
        ensures
            url@ == self.config.base_url@ + "/search/"@ + escaped(terms) + "/1/"@,
    {
        let mut url = self.config.base_url.clone();
        url.append("/search/");
        let esc = escape_terms(terms);
        url.append(esc.as_str());
        url.append("/1/");
        url
    }

    /// The adapter's partial result list for a listing document, in document
    /// order: one result per complete listing row (a row missing a required
    /// field is skipped, later rows unaffected), each carrying the row's
    /// parsed fields and a link resolved through its detail page — empty
    /// when the detail fetch fails or no link matches.
    fn select_results(&self, document: String) -> (results: Vec<SearchResult>)
        ensures
            results@.len() == listing_rows(document@, self.config.selectors).len(),
            forall|k: int|
                0 <= k < results@.len() ==> result_of_row(
                    #[trigger] results@[k],
                    listing_rows(document@, self.config.selectors)[k],
                    self.config.selectors.magnet@,
                ),
    {
        let rows = self.parse_rows(document.as_str());
        let mut results: Vec<SearchResult> = Vec::new();
        let mut i: usize = 0;
        while i < rows.len()
            invariant
                i <= rows@.len(),
                rows@.map_values(|r: Row| r@) == listing_rows(document@, self.config.selectors),
                results@.len() == i,
                forall|k: int|
                    0 <= k < i ==> result_of_row(
                        #[trigger] results@[k],
                        listing_rows(document@, self.config.selectors)[k],
                        self.config.selectors.magnet@,
                    ),
            decreases rows@.len() - i,
        {
            let row = &rows[i];
            let mut detail_url = self.config.base_url.clone();
            detail_url.append(row.href.as_str());
            let detail = self.get_document(detail_url);
            let ghost fetched = detail;
            let url = self.link_from_detail(detail, self.config.selectors.magnet.as_str());
            proof {
                match fetched {
                    Some(d) => {
                        if url@ != Seq::<char>::empty() {
                            assert(first_href(d@, self.config.selectors.magnet@) == Some(url@));
                        }
                    },
                    None => {},
                }
            }
            let res = SearchResult {
                name: row.name.clone(),
                seeders: row.seeders,
                leechers: row.leechers,
                size: row.size.clone(),
                url,
            };
            proof {
                assert(rows@.map_values(|r: Row| r@)[i as int] == rows@[i as int]@);
                assert(result_of_row(
                    res,
                    listing_rows(document@, self.config.selectors)[i as int],
                    self.config.selectors.magnet@,
                ));
            }
            results.push(res);
            i += 1;
        }
        results
    }

    /// Delegates to the injected content fetcher.
    fn get_document(&self, url: String) -> Option<String> {
        self.downloader.download(url)
    }
}

} // verus!
