//! Crawl targets as the administrator sees them.

use vstd::prelude::*;
use crate::ids::{is_id, new_id};

verus! {

/// A crawl target, by the numbers of its row and of its collection's.
#[derive(Debug, Clone, PartialEq, Eq)]
pub struct CrawlTargetRecord {
    pub id: i64,
    pub collection_id: i64,
    pub url_prefix: String,
    pub recrawl_interval_secs: i64,
}

/// A crawl target with its state.
#[derive(Debug, Clone, PartialEq, Eq)]
pub struct CrawlTargetListItem {
    pub id: i64,
    pub collection_id: i64,
    pub collection_name: String,
    pub url_prefix: String,
    pub recrawl_interval_secs: i64,
    pub enabled: bool,
    pub last_crawled_at: Option<i64>,
    pub created_at: String,
    /// Some page of the target was last refused for too many requests.
    pub rate_limited: bool,
    /// How many pages of the target last failed otherwise.
    pub error_pages_count: i64,
    /// The wait between pages of this target in seconds, where it has its own.
    pub crawl_delay_secs: Option<i64>,
}

/// A crawl target to store. The interval is stored twice, and both are kept
/// equal.
#[derive(Debug, Clone, PartialEq, Eq)]
pub struct NewCrawlTarget {
    pub id: String,
    pub url_prefix: String,
    pub recrawl_interval_s: i64,
    pub recrawl_interval_secs: i64,
    pub created_at: String,
}

/// `t` is a new target with the prefix and the interval.
pub open spec fn is_new_target(
    t: NewCrawlTarget,
    url_prefix: Seq<char>,
    recrawl_interval_secs: i64,
    now: Seq<char>,
) -> bool {
    &&& is_id(t.id@)
    &&& t.url_prefix@ == url_prefix
    &&& t.recrawl_interval_s == recrawl_interval_secs
    &&& t.recrawl_interval_secs == recrawl_interval_secs
    &&& t.created_at@ == now
}

/// A new crawl target to store.
pub fn add(url_prefix: &str, recrawl_interval_secs: i64, now: &str) -> (r: NewCrawlTarget)
    ensures
        is_new_target(r, url_prefix@, recrawl_interval_secs, now@),
{
    NewCrawlTarget {
        id: new_id(),
        url_prefix: url_prefix.to_owned(),
        recrawl_interval_s: recrawl_interval_secs,
        recrawl_interval_secs,
        created_at: now.to_owned(),
    }
}

/// A page with this status was refused for too many requests.
pub open spec fn is_refused(status: Option<i64>) -> bool {
    status == Some(429i64)
}

/// A page with this status failed, other than for too many requests.
pub open spec fn is_failed(status: Option<i64>) -> bool {
    match status {
        Some(s) => s >= 400 && s != 429,
        None => false,
    }
}

/// What the last statuses of a target's pages say of it: whether some page was
/// refused for too many requests, and how many failed otherwise.
pub fn page_state(statuses: &Vec<Option<i64>>) -> (r: (bool, usize))
    ensures
        r.0 == (exists|i: int| 0 <= i < statuses.len() && is_refused(#[trigger] statuses@[i])),
        r.1 == statuses@.filter(|s: Option<i64>| is_failed(s)).len(),
{
    let ghost failed = |s: Option<i64>| is_failed(s);
    let mut refused = false;
    let mut n: usize = 0;
    let mut i: usize = 0;
    assert(statuses@.take(0) =~= Seq::<Option<i64>>::empty());
    assert(statuses@.take(0).filter(failed).len() == 0) by {
        statuses@.take(0).lemma_filter_len(failed);
    }
    while i < statuses.len()
        invariant
            i <= statuses.len(),
            failed == (|s: Option<i64>| is_failed(s)),
            refused == (exists|j: int| 0 <= j < i && is_refused(#[trigger] statuses@[j])),
            n == statuses@.take(i as int).filter(failed).len(),
            n <= i,
        decreases statuses.len() - i,
    {
        proof {
            assert(statuses@.take(i + 1) =~= statuses@.take(i as int).push(statuses@[i as int]));
            statuses@.take(i as int).lemma_filter_push(statuses@[i as int], failed);
        }
        match statuses[i] {
            Some(s) => {
                if s == 429 {
                    assert(is_refused(statuses@[i as int]));
                    refused = true;
                } else if s >= 400 {
                    n = n + 1;
                }
            },
            None => {},
        }
        i = i + 1;
    }
    assert(statuses@.take(statuses@.len() as int) =~= statuses@);
    (refused, n)
}

/// No page counts both as refused for too many requests and as failed
/// otherwise.
pub proof fn refusals_are_not_failures(status: Option<i64>)
    ensures
        !(is_refused(status) && is_failed(status)),
{
}

/// A page counts as refused for the status 429 alone, and as failed for any other
/// status from 400 on.
pub proof fn statuses_are_told_apart(status: i64)
    ensures
        is_refused(Some(status)) <==> status == 429,
        is_failed(Some(status)) <==> status >= 400 && status != 429,
        !is_refused(None) && !is_failed(None),
{
}

/// A new target has the prefix and the interval it was made with.
pub proof fn targets_are_made_as_asked(
    t: NewCrawlTarget,
    url_prefix: Seq<char>,
    recrawl_interval_secs: i64,
    now: Seq<char>,
)
    requires
        is_new_target(t, url_prefix, recrawl_interval_secs, now),
    ensures
        t.url_prefix@ == url_prefix,
        t.recrawl_interval_s == recrawl_interval_secs,
        t.recrawl_interval_secs == recrawl_interval_secs,
        t.created_at@ == now,
{
}

} // verus!
