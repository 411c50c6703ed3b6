//! Collections as they are shown to peers.

use vstd::prelude::*;

verus! {

/// What a peer is told of a collection.
#[derive(Debug, Clone, PartialEq, Eq)]
pub struct CollectionInfo {
    pub name: String,
    pub description: Option<String>,
}

} // verus!
