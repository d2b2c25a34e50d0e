//! A research-feed client that is not yet wired to any data source.

use vstd::prelude::*;

verus! {

/// A news alert from the research layer; relevance in micro-units.
#[derive(Debug, Clone)]
pub struct NewsAlert {
    pub market_id: String,
    pub headline: String,
    pub relevance: i64,
}

/// Stub client: answers no alerts until a data source is wired in.
pub struct OpenClawClient;

impl core::default::Default for OpenClawClient {
    fn default() -> Self {
        OpenClawClient::new()
    }
}

impl OpenClawClient {
    pub fn new() -> (r: OpenClawClient) {
        OpenClawClient
    }

    /// Check for breaking news on the given markets: none, for now.
    pub fn check_news_alerts(&self, market_ids: &Vec<String>) -> (r: Vec<NewsAlert>)
        ensures
            r@.len() == 0,
    {
        let _ = market_ids;
        Vec::new()
    }
}

} // verus!
