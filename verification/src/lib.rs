//! The core of a depth-bounded web crawler: link extraction, URL resolution
//! and the crawl driver, each with a machine-checked contract.
//!
//! A page's links are the `href` values of its `<a>` start tags
//! ([`extract`]); a link becomes an absolute URL by being parsed, or joined
//! to the URL of its page ([`resolver`]); the driver ([`crawl`]) turns a
//! frontier and a depth bound into the fetches to make, one level after
//! another, and keeps the record of how each ended. Fetching itself is left
//! to the caller.

use crate::extract::extract_links;
use crate::extract::links_of;
use crate::html::html_tokens;
use crate::html::page_fits;
use crate::resolver::resolve_links;
use crate::resolver::resolved_links;
use crate::resolver::urls_view;
use crate::resolver::PageUrl;
use vstd::prelude::*;

pub mod crawl;
pub mod extract;
pub mod html;
pub mod model;
pub mod resolver;
pub mod runs;

verus! {

/// The links of `page`, resolved against the URL `url` at which the page was
/// found, in document order. A link that does not resolve is left out; the
/// others are not affected by it.
pub fn get_links(url: &PageUrl, page: String) -> (links: Vec<PageUrl>)
    requires
        page_fits(page@),
    ensures
        urls_view(links@) == resolved_links(url@, links_of(html_tokens(page@))),
{
    let raws = extract_links(page.as_str());
    resolve_links(url, &raws)
}

} // verus!
