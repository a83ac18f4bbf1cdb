//! Feeds: where requests to create indicators come from.
//!
//! A collector pulls a batch of requests from one outside source. The
//! fetching is the collector's own business; what the entries of each feed
//! mean is laid down in the modules below.

pub mod alienvault;
pub mod emerging_threats;
pub mod honeytrap;

use crate::models::{CreateIndicatorRequest, CreateIndicatorRequestView};
use vstd::prelude::*;

verus! {

/// A source of requests.
pub trait FeedCollector {
    /// The name of the feed.
    fn name(&self) -> &'static str;

    /// Pulls a batch of requests from the feed, or says why that failed.
    fn fetch(&self) -> Result<Vec<CreateIndicatorRequest>, String>;

    /// Whether the feed has what it needs to be asked, a key for one. A
    /// feed that does not say otherwise needs nothing: it is configured.
    fn is_configured(&self) -> (configured: bool)
        default_ensures
            configured,
    {
        true
    }
}

/// What a feed yielded.
#[derive(Debug)]
pub struct FeedResult {
    pub source: String,
    pub indicators: Vec<CreateIndicatorRequest>,
    pub errors: Vec<String>,
}

/// What a list of requests holds.
pub open spec fn request_views(v: Seq<CreateIndicatorRequest>) -> Seq<CreateIndicatorRequestView> {
    v.map_values(|r: CreateIndicatorRequest| r@)
}

} // verus!
