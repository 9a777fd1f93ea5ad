//! The settings of the metrics scraper.

use vstd::prelude::*;

verus! {

/// Scrapes the node's metrics endpoint.
pub struct Scraper {
    pub url: String,
    pub timeout_ms: u64,
}

impl Scraper {
    pub fn new(url: String, timeout_ms: u64) -> (s: Scraper)
        ensures
            s.url == url,
            s.timeout_ms == timeout_ms,
    {
        Scraper { url, timeout_ms }
    }
}

} // verus!
