//! How peers are spoken to.

use vstd::prelude::*;
use crate::text::{concat, same_text, trim_end_char, trim_end_of};

verus! {

/// The address of an interface of a peer: its base address without slashes at
/// the end, followed by the path.
pub open spec fn api_address(base: Seq<char>, path: Seq<char>) -> Seq<char> {
    trim_end_of(base, '/') + path
}

/// The address of an interface of the peer at `base`.
pub fn api_url(base: &str, path: &str) -> (r: String)
    ensures
        r@ == api_address(base@, path@),
{
    let trimmed = trim_end_char(base, '/');
    concat(trimmed.as_str(), path)
}

/// Where a peer is searched.
pub fn search_url(base: &str) -> (r: String)
    ensures
        r@ == api_address(base@, "/api/search"@),
{
    api_url(base, "/api/search")
}

/// Where a peer lists its collections; an answer there also shows that it is
/// alive.
pub fn collections_url(base: &str) -> (r: String)
    ensures
        r@ == api_address(base@, "/api/collections"@),
{
    api_url(base, "/api/collections")
}

/// What an event in a peer's answer to a search calls for.
#[derive(Debug, Clone, Copy, PartialEq, Eq, Structural)]
pub enum PeerEvent {
    /// It carries a result.
    Result,
    /// There are no more results.
    Stop,
    /// It means nothing here.
    Skip,
}

/// What an event of the given name calls for.
pub fn peer_event(name: &str) -> (r: PeerEvent)
    ensures
        r == (if name@ == "result"@ {
            PeerEvent::Result
        } else if name@ == "complete"@ {
            PeerEvent::Stop
        } else {
            PeerEvent::Skip
        }),
{
    if same_text(name, "result") {
        PeerEvent::Result
    } else if same_text(name, "complete") {
        PeerEvent::Stop
    } else {
        PeerEvent::Skip
    }
}

/// An address that differs only in slashes at its end leads to the same
/// interface.
pub proof fn trailing_slashes_do_not_matter(base: Seq<char>, path: Seq<char>)
    ensures
        api_address(base.push('/'), path) == api_address(base, path),
{
    assert(base.push('/').drop_last() =~= base);
}

/// The address of an interface is the base address, without slashes at its end,
/// and the path.
pub proof fn addresses_end_with_their_path(base: Seq<char>, path: Seq<char>)
    ensures
        path.is_suffix_of(api_address(base, path)),
        base.len() > 0 && base.last() != '/' ==> api_address(base, path) == base + path,
{
    let all = api_address(base, path);
    assert(all.subrange(all.len() - path.len(), all.len() as int) =~= path);
}

} // verus!
