//! Changes to crawl targets.

use vstd::prelude::*;
use crate::api::reply::{missing, missing_reply, Reply};
use crate::db::crawl_targets::{is_new_target, NewCrawlTarget};

verus! {

/// What the administrator asks for.
#[derive(Debug, Clone)]
pub enum CrawlTargetAction {
    Add { collection_id: i64, url_prefix: String, recrawl_interval_secs: i64 },
    Remove { id: i64 },
    SetInterval { id: i64, recrawl_interval_secs: i64 },
    /// Sets the target's own wait between pages, or takes it away.
    SetCrawlDelay { id: i64, crawl_delay_secs: Option<i64> },
}

/// What to do about it.
#[derive(Debug)]
pub enum TargetChange {
    /// Store the target below the collection.
    Add { collection_id: i64, target: NewCrawlTarget },
    /// Remove the target, and have the documents of these pages removed from
    /// the index, where there are any.
    Remove { id: i64, delete: Option<Vec<String>> },
    SetInterval { id: i64, recrawl_interval_s: i64, recrawl_interval_secs: i64 },
    SetCrawlDelay { id: i64, crawl_delay_secs: Option<i64> },
}

impl CrawlTargetAction {
    /// The sort of row that has to be there.
    pub open spec fn sort(self) -> Seq<char> {
        match self {
            CrawlTargetAction::Add { .. } => "collection"@,
            _ => "crawl target"@,
        }
    }

    /// The number of the row that has to be there.
    pub open spec fn row(self) -> i64 {
        match self {
            CrawlTargetAction::Add { collection_id, .. } => collection_id,
            CrawlTargetAction::Remove { id } => id,
            CrawlTargetAction::SetInterval { id, .. } => id,
            CrawlTargetAction::SetCrawlDelay { id, .. } => id,
        }
    }
}

/// `change` is what `action` asks for. A new target gets the canonical prefix
/// that was detected, and the typed one where none was.
pub open spec fn carries_out(
    change: TargetChange,
    action: CrawlTargetAction,
    detected: Option<Seq<char>>,
    page_urls: Vec<String>,
    now: Seq<char>,
) -> bool {
    match action {
        CrawlTargetAction::Add { collection_id, url_prefix, recrawl_interval_secs } => {
            change matches TargetChange::Add { collection_id: c, target } && c == collection_id
                && is_new_target(
                target,
                match detected {
                    Some(d) => d,
                    None => url_prefix@,
                },
                recrawl_interval_secs,
                now,
            )
        },
        CrawlTargetAction::Remove { id } => change == (TargetChange::Remove {
            id,
            delete: if page_urls.len() == 0 {
                None
            } else {
                Some(page_urls)
            },
        }),
        CrawlTargetAction::SetInterval { id, recrawl_interval_secs } => change == (
        TargetChange::SetInterval {
            id,
            recrawl_interval_s: recrawl_interval_secs,
            recrawl_interval_secs,
        }),
        CrawlTargetAction::SetCrawlDelay { id, crawl_delay_secs } => change == (
        TargetChange::SetCrawlDelay { id, crawl_delay_secs }),
    }
}

/// Decides on a request. `found` says whether the row that it names is there,
/// `detected` is the canonical prefix of a target that is added, and
/// `page_urls` are the pages of a target that is removed.
pub fn handle_crawl_targets(
    action: CrawlTargetAction,
    detected: Option<String>,
    found: bool,
    page_urls: Vec<String>,
    now: &str,
) -> (r: Result<TargetChange, Reply>)
    ensures
        !found ==> (r matches Err(reply) && reply.deep_view() == missing_reply(
            action.sort(),
            action.row(),
        )),
        found ==> (r matches Ok(change) && carries_out(
            change,
            action,
            detected.deep_view(),
            page_urls,
            now@,
        )),
{
    match action {
        CrawlTargetAction::Add { collection_id, url_prefix, recrawl_interval_secs } => {
            if !found {
                return Err(missing("collection", collection_id));
            }
            let prefix = match detected {
                Some(d) => d,
                None => url_prefix,
            };
            Ok(
                TargetChange::Add {
                    collection_id,
                    target: crate::db::crawl_targets::add(prefix.as_str(), recrawl_interval_secs, now),
                },
            )
        },
        CrawlTargetAction::Remove { id } => {
            if !found {
                return Err(missing("crawl target", id));
            }
            let delete = if page_urls.len() == 0 {
                None
            } else {
                Some(page_urls)
            };
            Ok(TargetChange::Remove { id, delete })
        },
        CrawlTargetAction::SetInterval { id, recrawl_interval_secs } => {
            if !found {
                return Err(missing("crawl target", id));
            }
            Ok(
                TargetChange::SetInterval {
                    id,
                    recrawl_interval_s: recrawl_interval_secs,
                    recrawl_interval_secs,
                },
            )
        },
        CrawlTargetAction::SetCrawlDelay { id, crawl_delay_secs } => {
            if !found {
                return Err(missing("crawl target", id));
            }
            Ok(TargetChange::SetCrawlDelay { id, crawl_delay_secs })
        },
    }
}

/// What is done is what was asked for. A new target has the detected prefix, or
/// else the typed one, and its interval; a removed one takes all its pages along.
pub proof fn requests_are_carried_out(
    change: TargetChange,
    action: CrawlTargetAction,
    detected: Option<Seq<char>>,
    page_urls: Vec<String>,
    now: Seq<char>,
)
    requires
        carries_out(change, action, detected, page_urls, now),
    ensures
        match action {
            CrawlTargetAction::Add { collection_id, url_prefix, recrawl_interval_secs } => {
                match change {
                    TargetChange::Add { collection_id: c, target } => {
                        &&& c == collection_id && action.row() == collection_id
                        &&& action.sort() == "collection"@
                        &&& detected matches Some(d) ==> target.url_prefix@ == d
                        &&& detected is None ==> target.url_prefix@ == url_prefix@
                        &&& target.recrawl_interval_s == recrawl_interval_secs
                        &&& target.recrawl_interval_secs == recrawl_interval_secs
                        &&& target.created_at@ == now
                    },
                    _ => false,
                }
            },
            CrawlTargetAction::Remove { id } => {
                match change {
                    TargetChange::Remove { id: i, delete } => {
                        &&& i == id && action.row() == id && action.sort() == "crawl target"@
                        &&& page_urls.len() > 0 ==> delete == Some(page_urls)
                        &&& page_urls.len() == 0 ==> delete is None
                    },
                    _ => false,
                }
            },
            CrawlTargetAction::SetInterval { id, recrawl_interval_secs } => {
                match change {
                    TargetChange::SetInterval {
                        id: i,
                        recrawl_interval_s: a,
                        recrawl_interval_secs: b,
                    } => i == id && a == recrawl_interval_secs && b == recrawl_interval_secs
                        && action.row() == id,
                    _ => false,
                }
            },
            CrawlTargetAction::SetCrawlDelay { id, crawl_delay_secs } => {
                match change {
                    TargetChange::SetCrawlDelay { id: i, crawl_delay_secs: d } => i == id && d
                        == crawl_delay_secs && action.row() == id,
                    _ => false,
                }
            },
        },
{
}

} // verus!
