//! The state of the engine.

use vstd::prelude::*;
use crate::index::indexer::pending_count;
use crate::index::size::shown_size;

verus! {

/// What the administrator is shown.
#[derive(Debug, Clone, Copy, PartialEq, Eq, Structural)]
pub struct StatusResponse {
    pub index_size_bytes: i64,
    pub max_index_bytes: i64,
    pub crawl_targets_total: i64,
    pub crawls_active: i64,
    pub crawls_queued: i64,
    pub crawl_paused: bool,
    /// How many pages are on their way to the index.
    pub indexing_pending_count: i64,
}

/// A size as it is shown.
pub open spec fn size_shown(bytes: u64) -> i64 {
    if bytes > i64::MAX as u64 {
        i64::MAX
    } else {
        bytes as i64
    }
}

/// The state as it is shown. What could not be found out counts as zero, and
/// running and waiting crawls are not counted.
pub fn get_status(
    index_size: Option<u64>,
    max_index_bytes: u64,
    crawl_targets: Option<i64>,
    inflight: i64,
    crawl_paused: bool,
) -> (r: StatusResponse)
    ensures
        r == (StatusResponse {
            index_size_bytes: match index_size {
                Some(bytes) => size_shown(bytes),
                None => 0,
            },
            max_index_bytes: size_shown(max_index_bytes),
            crawl_targets_total: match crawl_targets {
                Some(n) => n,
                None => 0,
            },
            crawls_active: 0,
            crawls_queued: 0,
            crawl_paused,
            indexing_pending_count: if inflight < 0 {
                0
            } else {
                inflight
            },
        }),
{
    let index_size_bytes = match index_size {
        Some(bytes) => shown_size(bytes),
        None => 0,
    };
    let crawl_targets_total = match crawl_targets {
        Some(n) => n,
        None => 0,
    };
    StatusResponse {
        index_size_bytes,
        max_index_bytes: shown_size(max_index_bytes),
        crawl_targets_total,
        crawls_active: 0,
        crawls_queued: 0,
        crawl_paused,
        indexing_pending_count: pending_count(inflight),
    }
}

/// A size is shown as it is, up to the largest number that can be shown.
pub proof fn sizes_are_shown_as_they_are(bytes: u64)
    ensures
        bytes <= i64::MAX ==> size_shown(bytes) == bytes,
        bytes > i64::MAX ==> size_shown(bytes) == i64::MAX,
{
}

} // verus!
