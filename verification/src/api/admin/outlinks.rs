//! What the administrator decides on suggested hosts.

use vstd::prelude::*;
use crate::api::reply::{missing, missing_reply, Reply};
use crate::db::crawl_targets::{is_new_target, NewCrawlTarget};
use crate::db::outlink_hosts::OutlinkHostRecord;

verus! {

/// The prefix of a target that is made from a suggested host: the given one,
/// or else the host's root.
pub open spec fn promoted_prefix(host: Seq<char>, url_prefix: Option<Seq<char>>) -> Seq<char> {
    match url_prefix {
        Some(p) => p,
        None => "https://"@ + host + "/"@,
    }
}

/// The crawl target to store for the suggestion `id` that is promoted.
pub fn promote_outlink(
    row: &Option<OutlinkHostRecord>,
    id: i64,
    url_prefix: Option<String>,
    recrawl_interval_secs: i64,
    now: &str,
) -> (r: Result<NewCrawlTarget, Reply>)
    ensures
        match row {
            None => r matches Err(reply) && reply.deep_view() == missing_reply("outlink"@, id),
            Some(row) => r matches Ok(target) && is_new_target(
                target,
                promoted_prefix(row.host@, url_prefix.deep_view()),
                recrawl_interval_secs,
                now@,
            ),
        },
{
    match row {
        None => Err(missing("outlink", id)),
        Some(row) => {
            let prefix = match url_prefix {
                Some(p) => p,
                None => {
                    let mut p: String = "https://".to_owned();
                    p.push_str(row.host.as_str());
                    p.push_str("/");
                    p
                },
            };
            Ok(crate::db::crawl_targets::add(prefix.as_str(), recrawl_interval_secs, now))
        },
    }
}

/// The answer to dismissing the suggestion `id`, by whether it was there.
pub fn dismiss_outlink(found: bool, id: i64) -> (r: Result<(), Reply>)
    ensures
        found ==> r is Ok,
        !found ==> (r matches Err(reply) && reply.deep_view() == missing_reply("outlink"@, id)),
{
    if found {
        Ok(())
    } else {
        Err(missing("outlink", id))
    }
}

/// A promoted host is crawled from the prefix that is given, or else from its
/// root over a safe connection.
pub proof fn hosts_are_crawled_from_their_root(host: Seq<char>, given: Seq<char>)
    ensures
        promoted_prefix(host, Some(given)) == given,
        promoted_prefix(host, None) == "https://"@ + host + "/"@,
{
}

} // verus!
