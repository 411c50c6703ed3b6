//! Changes to collections.

use vstd::prelude::*;
use crate::api::reply::{missing, missing_reply, Reply};
use crate::db::collections::{create, Collection};
use crate::ids::is_id;

verus! {

/// What the administrator asks for.
#[derive(Debug, Clone)]
pub enum CollectionAction {
    Create { name: String, description: String },
    Update { id: i64, name: String, description: String },
    Delete { id: i64 },
}

/// What to do about it.
#[derive(Debug)]
pub enum CollectionChange {
    /// Store the collection.
    Create { collection: Collection },
    /// Rename and describe the collection.
    Update { id: i64, name: String, description: String, updated_at: String },
    /// Remove the collection.
    Delete { id: i64 },
}

/// The number of the row that has to be there, if any.
pub open spec fn named_row(action: CollectionAction) -> Option<i64> {
    match action {
        CollectionAction::Create { .. } => None,
        CollectionAction::Update { id, .. } => Some(id),
        CollectionAction::Delete { id } => Some(id),
    }
}

/// `change` is what `action` asks for.
pub open spec fn carries_out(
    change: CollectionChange,
    action: CollectionAction,
    now: Seq<char>,
) -> bool {
    match action {
        CollectionAction::Create { name, description } => {
            change matches CollectionChange::Create { collection: c } && is_id(c.id@) && c.name@
                == name@ && c.description@ == description@ && c.created_at@ == now
                && c.updated_at@ == now
        },
        CollectionAction::Update { id, name, description } => {
            change matches CollectionChange::Update {
                id: i,
                name: n,
                description: d,
                updated_at,
            } && i == id && n == name && d == description && updated_at@ == now
        },
        CollectionAction::Delete { id } => change == (CollectionChange::Delete { id }),
    }
}

/// Decides on a request. `found` says whether the collection that it names is
/// there.
pub fn handle_collections(action: CollectionAction, found: bool, now: &str) -> (r: Result<
    CollectionChange,
    Reply,
>)
    ensures
        match named_row(action) {
            Some(id) if !found => r matches Err(reply) && reply.deep_view() == missing_reply(
                "collection"@,
                id,
            ),
            _ => r matches Ok(change) && carries_out(change, action, now@),
        },
{
    match action {
        CollectionAction::Create { name, description } => {
            Ok(
                CollectionChange::Create {
                    collection: create(name.as_str(), description.as_str(), now),
                },
            )
        },
        CollectionAction::Update { id, name, description } => {
            if found {
                Ok(CollectionChange::Update { id, name, description, updated_at: now.to_owned() })
            } else {
                Err(missing("collection", id))
            }
        },
        CollectionAction::Delete { id } => {
            if found {
                Ok(CollectionChange::Delete { id })
            } else {
                Err(missing("collection", id))
            }
        },
    }
}

/// What is done is what was asked for, to the collection that was named.
pub proof fn requests_are_carried_out(
    change: CollectionChange,
    action: CollectionAction,
    now: Seq<char>,
)
    requires
        carries_out(change, action, now),
    ensures
        action is Create <==> change is Create,
        action is Update <==> change is Update,
        action is Delete <==> change is Delete,
        action is Create ==> {
            let c = change->collection;
            &&& c.name@ == action->Create_name@ && c.description@ == action->Create_description@
            &&& c.created_at@ == now && c.updated_at@ == now
            &&& named_row(action) is None
        },
        action is Update ==> {
            &&& change->Update_id == action->Update_id
            &&& change->name == action->Update_name
            &&& change->description == action->Update_description
            &&& change->updated_at@ == now
            &&& named_row(action) == Some(action->Update_id)
        },
        action is Delete ==> change->Delete_id == action->Delete_id && named_row(action) == Some(
            action->Delete_id,
        ),
{
}

} // verus!
