use vstd::prelude::*;

verus! {

/// The raw link strings that the HTML link-extraction collaborator finds in a
/// page body, in document order: the `href` values of the anchor elements,
/// syntactically invalid ones included. Extraction is opaque to the crawl;
/// the crawl classifies what comes back and never pre-filters it.
pub uninterp spec fn links_of(html: Seq<char>) -> Seq<Seq<char>>;

/// Relies on scraper (scraper::Html::parse_document, scraper::Selector::parse
/// and ElementRef::attr): parsing a fixed document and reading the `href` of
/// each anchor depends on the page text alone.
#[verifier::external_body]
pub fn get_urls(html: &str) -> (r: Vec<String>)
    ensures
        r.deep_view() == links_of(html@),
{
    let document = scraper::Html::parse_document(html);
    let anchors = scraper::Selector::parse("a[href]").unwrap();
    let mut urls: Vec<String> = Vec::new();
    for element in document.select(&anchors) {
        if let Some(href) = element.attr("href") {
            urls.push(href.to_owned());
        }
    }
    urls
}

} // verus!
