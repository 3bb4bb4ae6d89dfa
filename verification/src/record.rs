//! The counters kept for one page.

use vstd::prelude::*;

verus! {

/// The three counters of one page. A record is a plain value: it is stored and
/// handed out whole, and no operation of this crate changes a single counter.
#[derive(Clone, Copy, Debug, PartialEq, Eq, Structural)]
pub struct Analytics {
    pub page_views: u64,
    pub impressions: u64,
    pub clicks: u64,
}

} // verus!
