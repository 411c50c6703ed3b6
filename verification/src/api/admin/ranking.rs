//! Ranking settings of a collection.

use vstd::prelude::*;
use crate::api::reply::{missing, missing_reply, Reply, ReplyModel};
use crate::text::{concat, show_signed, signed_decimal};

verus! {

/// The collection that a request names, by its number.
pub fn named_collection(collection_id: Option<i64>) -> (r: Result<i64, Reply>)
    ensures
        match collection_id {
            Some(id) => r == Ok::<i64, Reply>(id),
            None => r matches Err(reply) && reply.deep_view() == (ReplyModel {
                status: 400,
                body: "collection_id must be an integer"@,
                header: None,
            }),
        },
{
    match collection_id {
        Some(id) => Ok(id),
        None => Err(Reply::plain(400, "collection_id must be an integer")),
    }
}

/// Whether settings may be stored for the collection `id`: it has to be there.
pub fn put_ranking(id: i64, found: bool) -> (r: Result<(), Reply>)
    ensures
        found ==> r is Ok,
        !found ==> (r matches Err(reply) && reply.deep_view() == missing_reply("collection"@, id)),
{
    if found {
        Ok(())
    } else {
        Err(missing("collection", id))
    }
}

/// The settings of the collection `id`, where some are stored.
pub fn get_ranking(stored: Option<String>, id: i64) -> (r: Result<String, Reply>)
    ensures
        match stored {
            Some(json) => r == Ok::<String, Reply>(json),
            None => r matches Err(reply) && reply.deep_view() == (ReplyModel {
                status: 404,
                body: "no ranking config for collection "@ + signed_decimal(id as int),
                header: None,
            }),
        },
{
    match stored {
        Some(json) => Ok(json),
        None => {
            let number = show_signed(id);
            Err(
                Reply {
                    status: 404,
                    body: concat("no ranking config for collection ", number.as_str()),
                    header: None,
                },
            )
        },
    }
}

} // verus!
