use vstd::prelude::*;
use vstd::utf8::encode_utf8;

verus! {

/// The longest page, in bytes, that is handed to the parser. The parser keeps text in
/// buffers whose length is a 32-bit number and whose capacity grows to the next power
/// of two, and it may write three bytes where it read one. Under this bound no buffer
/// comes near either limit.
pub const MAX_PAGE_BYTES: usize = 0x0FFF_FFFF;

/// The page is short enough to be parsed.
pub open spec fn parsable(html: Seq<char>) -> bool {
    encode_utf8(html).len() <= MAX_PAGE_BYTES
}

/// Declares `scraper::Html`, a parsed document, as a type whose inside is not looked at.
#[verifier::external_type_specification]
#[verifier::external_body]
pub struct ExHtml(scraper::Html);

/// Declares `scraper::Selector`, a parsed selector group, as a type whose inside is not
/// looked at.
#[verifier::external_type_specification]
#[verifier::external_body]
pub struct ExSelector(scraper::Selector);

/// Declares `scraper::ElementRef`, a reference to one element of a document, as a type
/// whose inside is not looked at.
#[verifier::external_type_specification]
#[verifier::external_body]
pub struct ExElementRef<'a>(scraper::ElementRef<'a>);

/// The document tree that `scraper::Html::parse_document` builds from a text.
pub uninterp spec fn parsed_document(html: Seq<char>) -> scraper::Html;

/// The selector that `scraper::Selector::parse` reads from a text, if it reads one.
pub uninterp spec fn parsed_selector(css: Seq<char>) -> Option<scraper::Selector>;

/// The elements of a document that `scraper::Html::select` yields for a selector, in
/// the order in which it yields them.
pub uninterp spec fn document_matches(
    document: scraper::Html,
    selector: scraper::Selector,
) -> Seq<scraper::ElementRef<'static>>;

/// The elements below an element that `scraper::ElementRef::select` yields for a
/// selector, in the order in which it yields them.
pub uninterp spec fn element_matches(
    element: scraper::ElementRef<'_>,
    selector: scraper::Selector,
) -> Seq<scraper::ElementRef<'static>>;

/// The first item that `scraper::ElementRef::text` yields for an element: the content
/// of the first text node below it, if it has one.
pub uninterp spec fn first_text(element: scraper::ElementRef<'_>) -> Option<Seq<char>>;

/// Calls `scraper::Html::parse_document`, which parses any text into a document tree
/// and reports no error. It panics where one of its buffers would pass the length that
/// a 32-bit number can hold, so pages over [`MAX_PAGE_BYTES`] are left out. The contract
/// only names the tree: equal texts give equal trees.
#[verifier::external_body]
pub(crate) fn parse_document(html: &str) -> (document: scraper::Html)
    requires
        parsable(html@),
    ensures
        document == parsed_document(html@),
{
    scraper::Html::parse_document(html)
}

/// Calls `scraper::Selector::parse` and drops the error's detail. The contract only
/// names the outcome: equal texts give equal selectors, or fail alike.
#[verifier::external_body]
pub(crate) fn parse_selector(css: &str) -> (selector: Option<scraper::Selector>)
    ensures
        selector == parsed_selector(css@),
{
    scraper::Selector::parse(css).ok()
}

/// Calls `scraper::Html::select` and collects what the iterator yields. The contract
/// only names the elements found.
#[verifier::external_body]
pub(crate) fn select_in_document<'a>(
    document: &'a scraper::Html,
    selector: &scraper::Selector,
) -> (found: Vec<scraper::ElementRef<'a>>)
    ensures
        found@ == document_matches(*document, *selector),
{
    document.select(selector).collect()
}

/// Calls `scraper::ElementRef::select` and collects what the iterator yields. The
/// contract only names the elements found.
#[verifier::external_body]
pub(crate) fn select_in_element<'a>(
    element: &scraper::ElementRef<'a>,
    selector: &scraper::Selector,
) -> (found: Vec<scraper::ElementRef<'a>>)
    ensures
        found@ == element_matches(*element, *selector),
{
    element.select(selector).collect()
}

/// Calls `scraper::ElementRef::text` and takes the first item of the iterator, copied
/// into a `String`. The contract only names that text.
#[verifier::external_body]
pub(crate) fn element_text(element: &scraper::ElementRef<'_>) -> (text: Option<String>)
    ensures
        text is Some == first_text(*element) is Some,
        text matches Some(t) ==> first_text(*element) == Some(t@),
{
    element.text().next().map(String::from)
}

} // verus!
