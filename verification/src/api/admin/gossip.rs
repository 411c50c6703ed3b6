//! Gossip that the administrator asks for.

use vstd::prelude::*;
use crate::api::gossip::{all_heard_of, heard, ExchangeResponse};
use crate::api::reply::{Reply, ReplyModel};
use crate::crawler::fetcher::{is_success, success};
use crate::federation::discovered::DiscoveredEngine;
use crate::federation::gossip::{absorb_all, by_url, lists_table, merge_engine_lists};
use crate::protocol::{check_compatibility, compatibility, Compatibility, PROTOCOL_VERSION};
use crate::text::{concat, decimal, show_unsigned};

verus! {

/// The engine to gossip with.
#[derive(Debug, Clone)]
pub struct TriggerGossipReq {
    pub url: String,
}

/// How the gossip went.
#[derive(Debug, Clone)]
pub struct TriggerGossipResp {
    /// Always `"ok"`.
    pub status: &'static str,
    /// How many engines the peer was told of.
    pub sent_count: usize,
    /// How many engines the peer told of.
    pub received_count: usize,
}

/// The answer where the peer did not answer with success.
pub fn refused_status(status: u16) -> (r: Result<(), Reply>)
    ensures
        is_success(status) ==> r is Ok,
        !is_success(status) ==> (r matches Err(reply) && reply.deep_view() == (ReplyModel {
            status: 400,
            body: "peer returned status "@ + decimal(status as nat),
            header: None,
        })),
{
    if success(status) {
        return Ok(());
    }
    let digits = show_unsigned(status as u64);
    Err(Reply { status: 400, body: concat("peer returned status ", digits.as_str()), header: None })
}

/// Takes in a peer's answer to our list `local`: the answer to the
/// administrator and the list to store. A peer that speaks another major
/// version is refused.
pub fn trigger_gossip(local: Vec<DiscoveredEngine>, answer: &ExchangeResponse, now: i64) -> (r:
    Result<(TriggerGossipResp, Vec<DiscoveredEngine>), Reply>)
    ensures
        match r {
            Err(reply) => compatibility(answer.protocol_version@) is Incompatible
                && reply.deep_view() == (ReplyModel {
                status: 400,
                body: "incompatible protocol version: peer="@ + answer.protocol_version@
                    + " ours="@ + PROTOCOL_VERSION@,
                header: None,
            }),
            Ok(x) => {
                &&& !(compatibility(answer.protocol_version@) is Incompatible)
                &&& x.0.status@ == "ok"@
                &&& x.0.sent_count == local.len()
                &&& x.0.received_count == answer.engines.len()
                &&& lists_table(
                    x.1.deep_view(),
                    absorb_all(
                        by_url(local.deep_view()),
                        all_heard_of(answer.engines.deep_view(), now),
                        now,
                    ),
                )
            },
        },
{
    match check_compatibility(answer.protocol_version.as_str()) {
        Compatibility::Incompatible => {
            let mut body: String = "incompatible protocol version: peer=".to_owned();
            body.push_str(answer.protocol_version.as_str());
            body.push_str(" ours=");
            body.push_str(PROTOCOL_VERSION);
            Err(Reply { status: 400, body, header: None })
        },
        _ => {
            let incoming = heard(&answer.engines, now);
            let told = TriggerGossipResp {
                status: "ok",
                sent_count: local.len(),
                received_count: incoming.len(),
            };
            Ok((told, merge_engine_lists(local, incoming, now)))
        },
    }
}

} // verus!
