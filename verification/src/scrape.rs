//! Trusted bridges to the scraper crate: the parsed HTML document, CSS
//! selectors and element references are opaque values carried through;
//! every byte the adapters reason about comes out of these wrappers as a
//! plain byte string.

use vstd::prelude::*;

use crate::common::FetchError;

verus! {

#[verifier::external_type_specification]
#[verifier::external_body]
pub struct ExHtml(scraper::Html);

#[verifier::external_type_specification]
#[verifier::external_body]
pub struct ExSelector(scraper::Selector);

#[verifier::external_type_specification]
#[verifier::external_body]
pub struct ExElementRef<'a>(scraper::ElementRef<'a>);

/// Relies on scraper::Selector::parse: compiling a CSS selector. A parse
/// failure is mapped to the library's own selector error.
#[verifier::external_body]
pub fn parse_selector(selector: &str) -> (r: Result<scraper::Selector, FetchError>)
    ensures
        r matches Err(e) ==> e == FetchError::BadSelector,
{
    scraper::Selector::parse(selector).map_err(|_| FetchError::BadSelector)
}

/// Relies on scraper::Html::parse_document (with lossy UTF-8 re-reading of
/// the already-decoded bytes): HTML parsing never fails.
#[verifier::external_body]
pub(crate) fn parse_document(body: &[u8]) -> (r: scraper::Html) {
    scraper::Html::parse_document(&String::from_utf8_lossy(body))
}

/// Relies on scraper::Html::select: every match in the document, in order.
#[verifier::external_body]
pub(crate) fn select_all<'a>(doc: &'a scraper::Html, sel: &scraper::Selector) -> (r: Vec<
    scraper::ElementRef<'a>,
>) {
    doc.select(sel).collect()
}

/// Relies on scraper::ElementRef::select: every descendant match, in order.
#[verifier::external_body]
pub(crate) fn select_within<'a>(el: &scraper::ElementRef<'a>, sel: &scraper::Selector) -> (r: Vec<
    scraper::ElementRef<'a>,
>) {
    el.select(sel).collect()
}

/// Relies on scraper::ElementRef::attr: the attribute's value, if set.
#[verifier::external_body]
pub(crate) fn attr_bytes(el: &scraper::ElementRef<'_>, name: &str) -> (r: Option<Vec<u8>>) {
    el.attr(name).map(|v| v.as_bytes().to_vec())
}

/// Relies on scraper::ElementRef::text: the concatenation of all
/// descendant text, in document order.
#[verifier::external_body]
pub(crate) fn text_bytes(el: &scraper::ElementRef<'_>) -> (r: Vec<u8>) {
    el.text().collect::<String>().into_bytes()
}

/// Relies on ego_tree's child iterator, reached through scraper: the
/// element's `i`-th direct child; the inner option is its text when it is
/// a text node.
#[verifier::external_body]
pub(crate) fn child_text_at(el: &scraper::ElementRef<'_>, i: usize) -> (r: Option<Option<String>>) {
    match el.children().nth(i) {
        None => None,
        Some(c) => match c.value() {
            scraper::Node::Text(t) => Some(Some(t.text.to_string())),
            _ => Some(None),
        },
    }
}

} // verus!
