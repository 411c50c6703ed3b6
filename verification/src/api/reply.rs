//! Answers to HTTP requests.

use vstd::prelude::*;
use crate::text::{show_signed, signed_decimal};

verus! {

/// An answer that needs no handler: status, body and at most one header.
#[derive(Debug, Clone, PartialEq, Eq)]
pub struct Reply {
    pub status: u16,
    pub body: String,
    pub header: Option<(String, String)>,
}

pub struct ReplyModel {
    pub status: u16,
    pub body: Seq<char>,
    pub header: Option<(Seq<char>, Seq<char>)>,
}

impl DeepView for Reply {
    type V = ReplyModel;

    open spec fn deep_view(&self) -> ReplyModel {
        ReplyModel { status: self.status, body: self.body@, header: self.header.deep_view() }
    }
}

impl Reply {
    /// An answer without headers.
    pub fn plain(status: u16, body: &str) -> (r: Reply)
        ensures
            r.deep_view() == (ReplyModel { status, body: body@, header: None }),
    {
        Reply { status, body: body.to_owned(), header: None }
    }

    /// An answer with one header.
    pub fn with_header(status: u16, body: &str, name: &str, value: &str) -> (r: Reply)
        ensures
            r.deep_view() == (ReplyModel { status, body: body@, header: Some((name@, value@)) }),
    {
        Reply {
            status,
            body: body.to_owned(),
            header: Some((name.to_owned(), value.to_owned())),
        }
    }
}

/// The answer where there is no row `id` of the given sort.
pub open spec fn missing_reply(sort: Seq<char>, id: i64) -> ReplyModel {
    ReplyModel {
        status: 404,
        body: sort + " "@ + signed_decimal(id as int) + " not found"@,
        header: None,
    }
}

/// The answer where there is no row `id` of the given sort.
pub fn missing(sort: &str, id: i64) -> (r: Reply)
    ensures
        r.deep_view() == missing_reply(sort@, id),
{
    let number = show_signed(id);
    let mut body: String = sort.to_owned();
    body.push_str(" ");
    body.push_str(number.as_str());
    body.push_str(" not found");
    Reply { status: 404, body, header: None }
}

/// What is not there is answered with its sort and its number, and as not found.
pub proof fn missing_rows_are_named(sort: Seq<char>, id: i64)
    ensures
        missing_reply(sort, id).status == 404,
        sort.is_prefix_of(missing_reply(sort, id).body),
        missing_reply(sort, id).header is None,
{
    let body = missing_reply(sort, id).body;
    assert(body.subrange(0, sort.len() as int) =~= sort);
}

} // verus!
