//! Subscriptions to collections of peers.

use vstd::prelude::*;
use crate::api::reply::{Reply, ReplyModel};
use crate::federation::storage::{new_collection_peer, CollectionPeer, SubscriptionModel};

verus! {

/// A subscription to add. The weight is kept as the bits of a single-precision
/// number.
#[derive(Debug, Clone)]
pub struct SubscribeReq {
    pub local_collection: String,
    pub node_peer_id: i64,
    pub remote_collection: String,
    pub source_weight_bits: u32,
}

/// The subscription to store. Its peer has to be there.
pub fn subscribe(req: &SubscribeReq, peer_found: bool, now: i64) -> (r: Result<
    CollectionPeer,
    Reply,
>)
    ensures
        !peer_found ==> (r matches Err(reply) && reply.deep_view() == (ReplyModel {
            status: 400,
            body: "node_peer_id does not exist"@,
            header: None,
        })),
        peer_found ==> (r matches Ok(s) && s.deep_view() == (SubscriptionModel {
            id: 0,
            local_collection: req.local_collection@,
            node_peer_id: req.node_peer_id,
            remote_collection: req.remote_collection@,
            source_weight_bits: req.source_weight_bits,
            enabled: true,
            created_at: now,
        })),
{
    if !peer_found {
        return Err(Reply::plain(400, "node_peer_id does not exist"));
    }
    Ok(
        new_collection_peer(
            req.local_collection.as_str(),
            req.node_peer_id,
            req.remote_collection.as_str(),
            req.source_weight_bits,
            now,
        ),
    )
}

} // verus!
