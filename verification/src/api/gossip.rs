//! What engines send each other when they gossip, and the answer to a peer.

use vstd::prelude::*;
use crate::api::reply::{Reply, ReplyModel};
use crate::federation::discovered::{DiscoveredEngine, EngineModel};
use crate::federation::gossip::{absorb_all, by_url, lists_table, merge_engine_lists};
use crate::protocol::{check_compatibility, compatibility, Compatibility, PROTOCOL_VERSION};

verus! {

/// What a peer sends.
#[derive(Debug, Clone)]
pub struct ExchangeRequest {
    /// The version it speaks.
    pub protocol_version: String,
    /// The engines it knows.
    pub engines: Vec<EngineSummary>,
}

/// What is told of an engine.
#[derive(Debug, Clone)]
pub struct EngineSummary {
    pub url: String,
    pub name: String,
    pub description: String,
}

pub struct SummaryModel {
    pub url: Seq<char>,
    pub name: Seq<char>,
    pub description: Seq<char>,
}

impl DeepView for EngineSummary {
    type V = SummaryModel;

    open spec fn deep_view(&self) -> SummaryModel {
        SummaryModel { url: self.url@, name: self.name@, description: self.description@ }
    }
}

/// What a peer is answered.
#[derive(Debug, Clone)]
pub struct ExchangeResponse {
    /// The version that this engine speaks.
    pub protocol_version: String,
    /// The engines that were known before the peer's were taken over.
    pub engines: Vec<EngineSummary>,
}

/// The body of an answer that tells of an error.
#[derive(Debug, Clone)]
pub struct ErrorBody {
    pub error: String,
}

/// What is told of an engine.
pub open spec fn summary(e: EngineModel) -> SummaryModel {
    SummaryModel { url: e.url, name: e.name, description: e.description }
}

/// What is told of some engines, in their order.
pub open spec fn summaries(engines: Seq<EngineModel>) -> Seq<SummaryModel> {
    engines.map_values(|e: EngineModel| summary(e))
}

/// What is known of an engine that was told of at `now`.
pub open spec fn heard_of(s: SummaryModel, now: i64) -> EngineModel {
    EngineModel {
        url: s.url,
        name: s.name,
        description: s.description,
        first_seen: now,
        last_seen: now,
    }
}

/// What is known of some engines that were told of at `now`, in their order.
pub open spec fn all_heard_of(told: Seq<SummaryModel>, now: i64) -> Seq<EngineModel> {
    told.map_values(|s: SummaryModel| heard_of(s, now))
}

/// What to tell of some engines.
pub fn summarize(engines: &Vec<DiscoveredEngine>) -> (r: Vec<EngineSummary>)
    ensures
        r.deep_view() == summaries(engines.deep_view()),
{
    let mut r: Vec<EngineSummary> = Vec::new();
    let mut i: usize = 0;
    while i < engines.len()
        invariant
            i <= engines.len(),
            r.len() == i,
            forall|j: int|
                0 <= j < i ==> (#[trigger] r@[j]).deep_view() == summary(engines@[j].deep_view()),
        decreases engines.len() - i,
    {
        r.push(
            EngineSummary {
                url: engines[i].url.clone(),
                name: engines[i].name.clone(),
                description: engines[i].description.clone(),
            },
        );
        i = i + 1;
    }
    assert(r.deep_view() =~= summaries(engines.deep_view()));
    r
}

/// What to remember of the engines that a peer told of at `now`.
pub fn heard(told: &Vec<EngineSummary>, now: i64) -> (r: Vec<DiscoveredEngine>)
    ensures
        r.deep_view() == all_heard_of(told.deep_view(), now),
        r.len() == told.len(),
{
    let mut r: Vec<DiscoveredEngine> = Vec::new();
    let mut i: usize = 0;
    while i < told.len()
        invariant
            i <= told.len(),
            r.len() == i,
            forall|j: int|
                0 <= j < i ==> (#[trigger] r@[j]).deep_view() == heard_of(
                    told@[j].deep_view(),
                    now,
                ),
        decreases told.len() - i,
    {
        r.push(
            DiscoveredEngine {
                url: told[i].url.clone(),
                name: told[i].name.clone(),
                description: told[i].description.clone(),
                first_seen: now,
                last_seen: now,
            },
        );
        i = i + 1;
    }
    assert(r.deep_view() =~= all_heard_of(told.deep_view(), now));
    r
}

/// What to tell a peer: the version and the engines known here.
pub fn exchange_request(local: &Vec<DiscoveredEngine>) -> (r: ExchangeRequest)
    ensures
        r.protocol_version@ == PROTOCOL_VERSION@,
        r.engines.deep_view() == summaries(local.deep_view()),
        r.engines.len() == local.len(),
{
    let engines = summarize(local);
    assert(engines.deep_view().len() == engines.len());
    ExchangeRequest { protocol_version: PROTOCOL_VERSION.to_owned(), engines }
}

/// The answer to a peer, and the list that remains after its engines were
/// taken over.
#[derive(Debug)]
pub struct Exchange {
    pub response: ExchangeResponse,
    pub merged: Vec<DiscoveredEngine>,
}

/// The message for a peer that speaks another major version.
pub open spec fn version_refusal(theirs: Seq<char>) -> Seq<char> {
    "incompatible protocol version: theirs="@ + theirs + " ours="@ + PROTOCOL_VERSION@
}

/// Answers a peer. A peer that speaks another major version is refused and
/// changes nothing. Any other is told what was known before its own engines
/// were taken over.
pub fn exchange(req: &ExchangeRequest, local: Vec<DiscoveredEngine>, now: i64) -> (r: Result<
    Exchange,
    Reply,
>)
    ensures
        match r {
            Err(reply) => compatibility(req.protocol_version@) is Incompatible
                && reply.deep_view() == (ReplyModel {
                status: 400,
                body: version_refusal(req.protocol_version@),
                header: None,
            }),
            Ok(x) => {
                &&& !(compatibility(req.protocol_version@) is Incompatible)
                &&& x.response.protocol_version@ == PROTOCOL_VERSION@
                &&& x.response.engines.deep_view() == summaries(local.deep_view())
                &&& lists_table(
                    x.merged.deep_view(),
                    absorb_all(
                        by_url(local.deep_view()),
                        all_heard_of(req.engines.deep_view(), now),
                        now,
                    ),
                )
            },
        },
{
    match check_compatibility(req.protocol_version.as_str()) {
        Compatibility::Incompatible => {
            let mut body: String = "incompatible protocol version: theirs=".to_owned();
            body.push_str(req.protocol_version.as_str());
            body.push_str(" ours=");
            body.push_str(PROTOCOL_VERSION);
            Err(Reply { status: 400, body, header: None })
        },
        _ => {
            let incoming = heard(&req.engines, now);
            let engines = summarize(&local);
            let merged = merge_engine_lists(local, incoming, now);
            Ok(
                Exchange {
                    response: ExchangeResponse {
                        protocol_version: PROTOCOL_VERSION.to_owned(),
                        engines,
                    },
                    merged,
                },
            )
        },
    }
}

/// Every engine that is known is told of, by its URL, name and description, in
/// the order in which they are known.
pub proof fn every_engine_is_told_of(engines: Seq<EngineModel>, i: int)
    requires
        0 <= i < engines.len(),
    ensures
        summaries(engines).len() == engines.len(),
        summaries(engines)[i].url == engines[i].url,
        summaries(engines)[i].name == engines[i].name,
        summaries(engines)[i].description == engines[i].description,
{
}

/// Every engine that was told of is heard of, as it was told and as seen at that
/// time for the first and the last time.
pub proof fn every_engine_is_heard_of(told: Seq<SummaryModel>, now: i64, i: int)
    requires
        0 <= i < told.len(),
    ensures
        all_heard_of(told, now).len() == told.len(),
        all_heard_of(told, now)[i].url == told[i].url,
        all_heard_of(told, now)[i].name == told[i].name,
        all_heard_of(told, now)[i].description == told[i].description,
        all_heard_of(told, now)[i].first_seen == now,
        all_heard_of(told, now)[i].last_seen == now,
{
}

/// A peer of another version is told its version and ours.
pub proof fn refusals_name_both_versions(theirs: Seq<char>)
    ensures
        version_refusal(theirs) == "incompatible protocol version: theirs="@ + theirs + " ours="@
            + PROTOCOL_VERSION@,
{
}

} // verus!
