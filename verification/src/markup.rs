//! From the text of a page to its links.
//!
//! Reading the markup is the work of the `scraper` crate; what it finds is a
//! function of the page's text and is spoken of here under a name of its own.

use vstd::prelude::*;
use crate::config::{LinkError, PipelineConfig};
use crate::link::Url;
use crate::order::{ascending, descending};
use crate::pipeline::{process, processed, raw_texts, texts};

verus! {

/// The `href` values of the anchors of the page `html`, in the order in which
/// the page holds them.
pub uninterp spec fn anchor_hrefs(html: Seq<char>) -> Seq<Seq<char>>;

/// Parses the page with `scraper::Html::parse_document`, selects with
/// `scraper::Html::select` what `scraper::Selector::parse` makes of `a[href]`,
/// and copies out what `scraper::node::Element::attr` gives for `href` on each
/// element found. Trusted: the result is what those calls find in `html`, in
/// the order in which the selection hands it out.
#[verifier::external_body]
fn scan_hrefs(html: &str) -> (r: Vec<String>)
    ensures
        raw_texts(r@) == anchor_hrefs(html@),
{
    let document = scraper::Html::parse_document(html);
    match scraper::Selector::parse("a[href]") {
        Ok(anchors) => document.select(&anchors).filter_map(|a| a.value().attr("href")).map(
            String::from,
        ).collect(),
        Err(_) => Vec::new(),
    }
}

/// The links of the page `html` found at `base`, as `config` asks for them.
///
/// Fails only where `config` asks for internal and external links at once, and
/// then before the page is read.
pub fn extract_and_process_links(html: &str, base: &Url, config: &PipelineConfig) -> (r: Result<
    Vec<Url>,
    LinkError,
>)
    ensures
        r is Ok <==> config.valid(),
        r is Err ==> r == Err::<Vec<Url>, LinkError>(LinkError::ConfigError),
        r matches Ok(links) ==> {
            &&& texts(links@) == processed(base@, anchor_hrefs(html@), *config)
            &&& texts(links@).no_duplicates()
            &&& config.sort && !config.reverse ==> ascending(texts(links@))
            &&& config.sort && config.reverse ==> descending(texts(links@))
        },
{
    if config.validate().is_err() {
        return Err(LinkError::ConfigError);
    }
    let raw_links = scan_hrefs(html);
    process(base, &raw_links, config)
}

} // verus!
