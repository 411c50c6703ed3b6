//! What the administrator does with peers.

use vstd::prelude::*;
use crate::api::reply::{missing, missing_reply, Reply};
use crate::federation::storage::NodePeer;

verus! {

/// A peer to add.
#[derive(Debug, Clone)]
pub struct AddNodePeerReq {
    pub url: String,
    pub name: Option<String>,
}

/// Whether a peer is to be enabled.
#[derive(Debug, Clone, Copy)]
pub struct UpdateNodePeerReq {
    pub enabled: bool,
}

/// Where to ask for the collections of the peer `id`.
pub fn browsed_url(peer: &Option<NodePeer>, id: i64) -> (r: Result<String, Reply>)
    ensures
        match peer {
            Some(p) => r matches Ok(url) && url@ == p.url@,
            None => r matches Err(reply) && reply.deep_view() == missing_reply("node peer"@, id),
        },
{
    match peer {
        Some(p) => Ok(p.url.clone()),
        None => Err(missing("node peer", id)),
    }
}

} // verus!
