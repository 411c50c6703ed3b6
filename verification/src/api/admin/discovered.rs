//! What the administrator does with discovered engines.

use vstd::prelude::*;
use crate::api::reply::{Reply, ReplyModel};
use crate::federation::discovered::{DiscoveredEngine, EngineModel};
use crate::federation::storage::{new_node_peer, NodePeer, PeerModel};
use crate::text::same_text;

verus! {

/// All discovered engines.
#[derive(Debug, Clone)]
pub struct DiscoveredListResp {
    pub engines: Vec<DiscoveredEngine>,
}

/// The engine to make a peer of.
#[derive(Debug, Clone)]
pub struct PromoteReq {
    pub url: String,
}

/// The engine to forget.
#[derive(Debug, Clone)]
pub struct DeleteQuery {
    pub url: String,
}

/// The peer to store for an engine that is promoted, where it was discovered.
pub fn promote_discovered(engine: &Option<DiscoveredEngine>, now: i64) -> (r: Result<
    NodePeer,
    Reply,
>)
    ensures
        match engine.deep_view() {
            None => r matches Err(reply) && reply.deep_view() == (ReplyModel {
                status: 404,
                body: "unknown discovered engine"@,
                header: None,
            }),
            Some(e) => r matches Ok(peer) && peer.deep_view() == promoted(e, now),
        },
{
    match engine {
        None => Err(Reply::plain(404, "unknown discovered engine")),
        Some(e) => {
            let name = Some(e.name.clone());
            Ok(new_node_peer(e.url.as_str(), &name, now))
        },
    }
}

/// The peer that an engine becomes: enabled, under the engine's name.
pub open spec fn promoted(e: EngineModel, now: i64) -> PeerModel {
    PeerModel {
        id: 0,
        url: e.url,
        name: Some(e.name),
        enabled: true,
        consecutive_failures: 0,
        last_response_ms: None,
        last_checked_at: None,
        disabled_at: None,
        created_at: now,
    }
}

/// Whether the engine at `url` may be removed. The entry of this engine itself
/// stays, whether it is there or not.
pub fn remove_discovered(url: &str, self_url: &str, known: bool) -> (r: Result<(), Reply>)
    ensures
        url@ == self_url@ ==> (r matches Err(reply) && reply.deep_view() == (ReplyModel {
            status: 400,
            body: "cannot remove self-entry"@,
            header: None,
        })),
        url@ != self_url@ && !known ==> (r matches Err(reply) && reply.deep_view() == (ReplyModel {
            status: 404,
            body: "no such discovered engine"@,
            header: None,
        })),
        url@ != self_url@ && known ==> r is Ok,
{
    if same_text(url, self_url) {
        return Err(Reply::plain(400, "cannot remove self-entry"));
    }
    if !known {
        return Err(Reply::plain(404, "no such discovered engine"));
    }
    Ok(())
}

/// An engine becomes a peer at its own address and under its own name, enabled
/// and without a history.
pub proof fn engines_become_peers_as_they_are(e: EngineModel, now: i64)
    ensures
        promoted(e, now).url == e.url,
        promoted(e, now).name == Some(e.name),
        promoted(e, now).enabled,
        promoted(e, now).consecutive_failures == 0,
        promoted(e, now).disabled_at is None,
        promoted(e, now).last_checked_at is None,
        promoted(e, now).last_response_ms is None,
        promoted(e, now).created_at == now,
{
}

} // verus!
