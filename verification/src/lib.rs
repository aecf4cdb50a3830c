//! Netblock extraction: conditional fetching of routing-table snapshots with
//! crash-safe cache metadata, gzip decompression planning, scanning of route
//! announcements for origin ASNs, and CIDR set algebra that removes excluded
//! sub-ranges while covering exactly the remaining address space.

use vstd::prelude::*;

pub mod exclude;
pub mod fetch;
pub mod gzip;
pub mod prefix;
pub mod scan;

verus! {

/// Hook for enabling diagnostic output; this build emits none.
pub fn init_logger() {
}

} // verus!
