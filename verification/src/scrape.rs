//! Trusted boundary to the `scraper` crate: CSS-selector queries over HTML
//! text. Every query is a deterministic function of the document and
//! selector strings alone, named here by uninterpreted spec functions.

use vstd::prelude::*;

verus! {

/// The number of elements matching the CSS selector `sel` in the fragment
/// parse of `doc`; zero when `sel` is not a valid selector.
pub uninterp spec fn match_count(doc: Seq<char>, sel: Seq<char>) -> nat;

/// The concatenated descendant text of the first `inner` match inside the
/// `idx`-th `outer` match of `doc`; `None` when either match is missing or
/// either selector is not valid.
pub uninterp spec fn nested_text(doc: Seq<char>, outer: Seq<char>, idx: int, inner: Seq<char>) -> Option<
    Seq<char>,
>;

/// The `href` attribute of the first `inner` match inside the `idx`-th
/// `outer` match of `doc`; `None` when a match or the attribute is missing
/// or either selector is not valid.
pub uninterp spec fn nested_href(doc: Seq<char>, outer: Seq<char>, idx: int, inner: Seq<char>) -> Option<
    Seq<char>,
>;

/// The `href` attribute of the first match of `sel` in `doc`; `None` when
/// there is no match, the attribute is missing, or `sel` is not valid.
pub uninterp spec fn first_href(doc: Seq<char>, sel: Seq<char>) -> Option<Seq<char>>;

/// The view of an optional string.
pub open spec fn opt_view(o: Option<String>) -> Option<Seq<char>> {
    match o {
        Some(s) => Some(s@),
        None => None,
    }
}

/// Relies on scraper's Selector::parse, Html::parse_fragment and
/// Html::select: counts the elements of `doc` matching `sel`.
#[verifier::external_body]
pub(crate) fn count_matches(doc: &str, sel: &str) -> (n: usize)
    ensures
        n as nat == match_count(doc@, sel@),
{
    let html = scraper::Html::parse_fragment(doc);
    let selector = match scraper::Selector::parse(sel) { Ok(s) => s, Err(_) => return 0 };
    html.select(&selector).count()
}

/// Relies on scraper's Selector::parse, Html::parse_fragment, Html::select,
/// ElementRef::select and ElementRef::text: the concatenated text of the
/// first `inner` match within the `idx`-th `outer` match.
#[verifier::external_body]
pub(crate) fn nth_inner_text(doc: &str, outer: &str, idx: usize, inner: &str) -> (r: Option<String>)
    ensures
        opt_view(r) == nested_text(doc@, outer@, idx as int, inner@),
{
    let html = scraper::Html::parse_fragment(doc);
    let osel = match scraper::Selector::parse(outer) { Ok(s) => s, Err(_) => return None };
    let isel = match scraper::Selector::parse(inner) { Ok(s) => s, Err(_) => return None };
    let row = match html.select(&osel).nth(idx) { Some(r) => r, None => return None };
    let el = match row.select(&isel).next() { Some(e) => e, None => return None };
    Some(el.text().collect::<String>())
}

/// Relies on scraper's Selector::parse, Html::parse_fragment, Html::select,
/// ElementRef::select and ElementRef::attr: the `href` attribute of the
/// first `inner` match within the `idx`-th `outer` match.
#[verifier::external_body]
pub(crate) fn nth_inner_href(doc: &str, outer: &str, idx: usize, inner: &str) -> (r: Option<String>)
    ensures
        opt_view(r) == nested_href(doc@, outer@, idx as int, inner@),
{
    let html = scraper::Html::parse_fragment(doc);
    let osel = match scraper::Selector::parse(outer) { Ok(s) => s, Err(_) => return None };
    let isel = match scraper::Selector::parse(inner) { Ok(s) => s, Err(_) => return None };
    let row = match html.select(&osel).nth(idx) { Some(r) => r, None => return None };
    let el = match row.select(&isel).next() { Some(e) => e, None => return None };
    el.attr("href").map(|v| v.to_string())
}

/// Relies on scraper's Selector::parse, Html::parse_fragment, Html::select
/// and ElementRef::attr: the `href` attribute of the first match of `sel`.
#[verifier::external_body]
pub(crate) fn html_first_href(doc: &str, sel: &str) -> (r: Option<String>)
    ensures
        opt_view(r) == first_href(doc@, sel@),
{
    let html = scraper::Html::parse_fragment(doc);
    let selector = match scraper::Selector::parse(sel) { Ok(s) => s, Err(_) => return None };
    match html.select(&selector).next() {
        Some(el) => el.attr("href").map(|v| v.to_string()),
        None => None,
    }
}

} // verus!
