//! Peers as they are stored.

use vstd::prelude::*;
use crate::text::{copy_opt, same_text};

verus! {

/// Another engine that searches are forwarded to.
#[derive(Debug, Clone)]
pub struct NodePeer {
    pub id: i64,
    pub url: String,
    pub name: Option<String>,
    pub enabled: bool,
    pub consecutive_failures: i64,
    pub last_response_ms: Option<i64>,
    pub last_checked_at: Option<i64>,
    pub disabled_at: Option<i64>,
    pub created_at: i64,
}

pub struct PeerModel {
    pub id: i64,
    pub url: Seq<char>,
    pub name: Option<Seq<char>>,
    pub enabled: bool,
    pub consecutive_failures: int,
    pub last_response_ms: Option<i64>,
    pub last_checked_at: Option<i64>,
    pub disabled_at: Option<i64>,
    pub created_at: i64,
}

impl DeepView for NodePeer {
    type V = PeerModel;

    open spec fn deep_view(&self) -> PeerModel {
        PeerModel {
            id: self.id,
            url: self.url@,
            name: self.name.deep_view(),
            enabled: self.enabled,
            consecutive_failures: self.consecutive_failures as int,
            last_response_ms: self.last_response_ms,
            last_checked_at: self.last_checked_at,
            disabled_at: self.disabled_at,
            created_at: self.created_at,
        }
    }
}

/// A local collection that is also searched at a peer. The weight of the
/// peer's results is kept as the bits of a single-precision number.
#[derive(Debug, Clone)]
pub struct CollectionPeer {
    pub id: i64,
    pub local_collection: String,
    pub node_peer_id: i64,
    pub remote_collection: String,
    pub source_weight_bits: u32,
    pub enabled: bool,
    pub created_at: i64,
}

pub struct SubscriptionModel {
    pub id: i64,
    pub local_collection: Seq<char>,
    pub node_peer_id: i64,
    pub remote_collection: Seq<char>,
    pub source_weight_bits: u32,
    pub enabled: bool,
    pub created_at: i64,
}

impl DeepView for CollectionPeer {
    type V = SubscriptionModel;

    open spec fn deep_view(&self) -> SubscriptionModel {
        SubscriptionModel {
            id: self.id,
            local_collection: self.local_collection@,
            node_peer_id: self.node_peer_id,
            remote_collection: self.remote_collection@,
            source_weight_bits: self.source_weight_bits,
            enabled: self.enabled,
            created_at: self.created_at,
        }
    }
}

/// A new peer: enabled, without failures, never checked.
pub fn new_node_peer(url: &str, name: &Option<String>, now: i64) -> (r: NodePeer)
    ensures
        r.deep_view() == (PeerModel {
            id: 0,
            url: url@,
            name: name.deep_view(),
            enabled: true,
            consecutive_failures: 0,
            last_response_ms: None,
            last_checked_at: None,
            disabled_at: None,
            created_at: now,
        }),
{
    NodePeer {
        id: 0,
        url: url.to_owned(),
        name: copy_opt(name),
        enabled: true,
        consecutive_failures: 0,
        last_response_ms: None,
        last_checked_at: None,
        disabled_at: None,
        created_at: now,
    }
}

/// A new subscription: enabled.
pub fn new_collection_peer(
    local_collection: &str,
    node_peer_id: i64,
    remote_collection: &str,
    source_weight_bits: u32,
    now: i64,
) -> (r: CollectionPeer)
    ensures
        r.deep_view() == (SubscriptionModel {
            id: 0,
            local_collection: local_collection@,
            node_peer_id,
            remote_collection: remote_collection@,
            source_weight_bits,
            enabled: true,
            created_at: now,
        }),
{
    CollectionPeer {
        id: 0,
        local_collection: local_collection.to_owned(),
        node_peer_id,
        remote_collection: remote_collection.to_owned(),
        source_weight_bits,
        enabled: true,
        created_at: now,
    }
}

/// A peer after it was enabled or disabled at `now`. Enabling forgets its
/// failures and when it was disabled.
pub open spec fn with_enabled(p: PeerModel, enabled: bool, now: i64) -> PeerModel {
    if enabled {
        PeerModel { enabled: true, disabled_at: None, consecutive_failures: 0, ..p }
    } else {
        PeerModel { enabled: false, disabled_at: Some(now), ..p }
    }
}

/// Enables or disables a peer.
pub fn set_node_peer_enabled(peer: &mut NodePeer, enabled: bool, now: i64)
    ensures
        final(peer).deep_view() == with_enabled(old(peer).deep_view(), enabled, now),
{
    if enabled {
        peer.enabled = true;
        peer.disabled_at = None;
        peer.consecutive_failures = 0;
    } else {
        peer.enabled = false;
        peer.disabled_at = Some(now);
    }
}

/// The peers are ordered by when they were added.
pub open spec fn oldest_first(s: Seq<NodePeer>) -> bool {
    forall|i: int, j: int|
        0 <= i < j < s.len() ==> (#[trigger] s[i]).created_at <= (#[trigger] s[j]).created_at
}

fn insert_by_age(v: &mut Vec<NodePeer>, peer: NodePeer)
    requires
        oldest_first(old(v)@),
    ensures
        oldest_first(final(v)@),
        final(v)@.to_multiset() == old(v)@.to_multiset().insert(peer),
{
    let ghost before = v@;
    let mut k: usize = 0;
    while k < v.len() && v[k].created_at <= peer.created_at
        invariant
            k <= v.len(),
            v@ == before,
            forall|i: int| 0 <= i < k ==> (#[trigger] before[i]).created_at <= peer.created_at,
        decreases v.len() - k,
    {
        k = k + 1;
    }
    v.insert(k, peer);
    proof {
        let after = v@;
        assert(after =~= before.insert(k as int, peer));
        assert(after.remove(k as int) =~= before);
        after.to_multiset_ensures();
        assert(after[k as int] == peer);
        assert(after.contains(peer));
        assert(after.to_multiset() =~= before.to_multiset().insert(peer));
        assert forall|i: int, j: int| 0 <= i < j < after.len() implies (
        #[trigger] after[i]).created_at <= (#[trigger] after[j]).created_at by {
            if i > k {
                assert(after[i] == before[i - 1]);
            } else if i < k {
                assert(after[i] == before[i]);
            }
            if j > k {
                assert(after[j] == before[j - 1]);
            } else if j < k {
                assert(after[j] == before[j]);
            }
        }
    }
}

/// All peers, ordered by when they were added.
pub fn list_node_peers(all: Vec<NodePeer>) -> (r: Vec<NodePeer>)
    ensures
        oldest_first(r@),
        r@.to_multiset() == all@.to_multiset(),
{
    let mut rest = all;
    let mut r: Vec<NodePeer> = Vec::new();
    assert(r@.to_multiset() =~= vstd::multiset::Multiset::empty()) by {
        r@.to_multiset_ensures();
    }
    while rest.len() > 0
        invariant
            oldest_first(r@),
            r@.to_multiset().add(rest@.to_multiset()) == all@.to_multiset(),
        decreases rest.len(),
    {
        let ghost before = rest@;
        let ghost listed = r@.to_multiset();
        if let Some(peer) = rest.pop() {
            insert_by_age(&mut r, peer);
            proof {
                assert(before =~= rest@.push(peer));
                rest@.to_multiset_ensures();
                assert(before.to_multiset() =~= rest@.to_multiset().insert(peer));
                assert(r@.to_multiset().add(rest@.to_multiset()) =~= listed.add(
                    before.to_multiset(),
                ));
            }
        }
    }
    proof {
        rest@.to_multiset_ensures();
        assert(rest@ =~= Seq::empty());
        assert(r@.to_multiset().add(rest@.to_multiset()) =~= r@.to_multiset());
    }
    r
}

/// The subscriptions are ordered by when they were added.
pub open spec fn oldest_subscription_first(s: Seq<CollectionPeer>) -> bool {
    forall|i: int, j: int|
        0 <= i < j < s.len() ==> (#[trigger] s[i]).created_at <= (#[trigger] s[j]).created_at
}

fn insert_subscription(v: &mut Vec<CollectionPeer>, s: CollectionPeer)
    requires
        oldest_subscription_first(old(v)@),
    ensures
        oldest_subscription_first(final(v)@),
        final(v)@.to_multiset() == old(v)@.to_multiset().insert(s),
{
    let ghost before = v@;
    let mut k: usize = 0;
    while k < v.len() && v[k].created_at <= s.created_at
        invariant
            k <= v.len(),
            v@ == before,
            forall|i: int| 0 <= i < k ==> (#[trigger] before[i]).created_at <= s.created_at,
        decreases v.len() - k,
    {
        k = k + 1;
    }
    v.insert(k, s);
    proof {
        let after = v@;
        assert(after =~= before.insert(k as int, s));
        assert(after.remove(k as int) =~= before);
        after.to_multiset_ensures();
        assert(after[k as int] == s);
        assert(after.contains(s));
        assert(after.to_multiset() =~= before.to_multiset().insert(s));
        assert forall|i: int, j: int| 0 <= i < j < after.len() implies (
        #[trigger] after[i]).created_at <= (#[trigger] after[j]).created_at by {
            if i > k {
                assert(after[i] == before[i - 1]);
            } else if i < k {
                assert(after[i] == before[i]);
            }
            if j > k {
                assert(after[j] == before[j - 1]);
            } else if j < k {
                assert(after[j] == before[j]);
            }
        }
    }
}

/// The subscription is of the local collection, where one is given.
pub open spec fn is_of(s: CollectionPeer, local: Option<Seq<char>>) -> bool {
    match local {
        Some(name) => s.local_collection@ == name,
        None => true,
    }
}

/// The subscriptions, or those of one local collection, ordered by when they
/// were added.
pub fn list_collection_peers(all: Vec<CollectionPeer>, local_filter: &Option<String>) -> (r: Vec<
    CollectionPeer,
>)
    ensures
        oldest_subscription_first(r@),
        r@.to_multiset() == all@.filter(
            |s: CollectionPeer| is_of(s, local_filter.deep_view()),
        ).to_multiset(),
{
    let ghost keep = |s: CollectionPeer| is_of(s, local_filter.deep_view());
    let mut rest = all;
    let mut r: Vec<CollectionPeer> = Vec::new();
    proof {
        r@.to_multiset_ensures();
        assert(r@.to_multiset() =~= vstd::multiset::Multiset::empty());
        assert(r@.to_multiset().add(rest@.filter(keep).to_multiset()) =~= rest@.filter(
            keep,
        ).to_multiset());
    }
    while rest.len() > 0
        invariant
            keep == (|s: CollectionPeer| is_of(s, local_filter.deep_view())),
            oldest_subscription_first(r@),
            r@.to_multiset().add(rest@.filter(keep).to_multiset()) == all@.filter(
                keep,
            ).to_multiset(),
        decreases rest.len(),
    {
        let ghost before = rest@;
        let ghost listed = r@.to_multiset();
        if let Some(s) = rest.pop() {
            let wanted = match local_filter {
                Some(name) => same_text(s.local_collection.as_str(), name.as_str()),
                None => true,
            };
            proof {
                assert(before =~= rest@.push(s));
                rest@.lemma_filter_push(s, keep);
            }
            if wanted {
                insert_subscription(&mut r, s);
                proof {
                    rest@.filter(keep).to_multiset_ensures();
                    assert(before.filter(keep) == rest@.filter(keep).push(s));
                    assert(r@.to_multiset().add(rest@.filter(keep).to_multiset())
                        =~= listed.add(before.filter(keep).to_multiset()));
                }
            }
        }
    }
    proof {
        assert(rest@ =~= Seq::empty());
        rest@.lemma_filter_len(keep);
        rest@.filter(keep).to_multiset_ensures();
        assert(r@.to_multiset().add(rest@.filter(keep).to_multiset()) =~= r@.to_multiset());
    }
    r
}

/// The URLs of the enabled peers, in their order.
pub open spec fn enabled_peer_urls(peers: Seq<PeerModel>) -> Seq<Seq<char>>
    decreases peers.len(),
{
    if peers.len() == 0 {
        Seq::empty()
    } else if peers.last().enabled {
        enabled_peer_urls(peers.drop_last()).push(peers.last().url)
    } else {
        enabled_peer_urls(peers.drop_last())
    }
}

/// The URLs of the enabled peers.
pub fn enabled_urls(peers: &Vec<NodePeer>) -> (r: Vec<String>)
    ensures
        r.deep_view() == enabled_peer_urls(peers.deep_view()),
        forall|i: int|
            0 <= i < peers.len() && (#[trigger] peers@[i]).enabled ==> r.deep_view().contains(
                peers@[i].url@,
            ),
{
    let ghost all = peers.deep_view();
    let mut r: Vec<String> = Vec::new();
    let mut i: usize = 0;
    assert(all.take(0) =~= Seq::<PeerModel>::empty());
    assert(r.deep_view() =~= Seq::<Seq<char>>::empty());
    while i < peers.len()
        invariant
            i <= peers.len(),
            all == peers.deep_view(),
            r.deep_view() == enabled_peer_urls(all.take(i as int)),
        decreases peers.len() - i,
    {
        let ghost before = r.deep_view();
        proof {
            assert(all[i as int] == peers@[i as int].deep_view());
            assert(all.take(i + 1).drop_last() =~= all.take(i as int));
        }
        if peers[i].enabled {
            r.push(peers[i].url.clone());
            assert(r.deep_view() =~= before.push(all[i as int].url));
        }
        i = i + 1;
    }
    assert(all.take(all.len() as int) =~= all);
    proof {
        assert forall|j: int| 0 <= j < peers.len() && (
        #[trigger] peers@[j]).enabled implies r.deep_view().contains(peers@[j].url@) by {
            assert(all[j] == peers@[j].deep_view());
            enabled_peers_are_listed(all, j);
        }
    }
    r
}

// ---------------------------------------------------------------------------
// Laws
// ---------------------------------------------------------------------------

/// Every enabled peer is listed with its URL.
pub proof fn enabled_peers_are_listed(peers: Seq<PeerModel>, i: int)
    requires
        0 <= i < peers.len(),
        peers[i].enabled,
    ensures
        enabled_peer_urls(peers).contains(peers[i].url),
    decreases peers.len(),
{
    let front = enabled_peer_urls(peers.drop_last());
    let all = enabled_peer_urls(peers);
    if i < peers.len() - 1 {
        enabled_peers_are_listed(peers.drop_last(), i);
        let k = choose|k: int| 0 <= k < front.len() && front[k] == peers[i].url;
        assert(all[k] == peers[i].url);
    } else {
        assert(all[front.len() as int] == peers[i].url);
    }
}

/// One peer is listed where it is enabled, and nothing else is; of two lists,
/// the URLs of the first come first.
pub proof fn enabled_peers_are_listed_in_order(
    peer: PeerModel,
    a: Seq<PeerModel>,
    b: Seq<PeerModel>,
)
    ensures
        enabled_peer_urls(seq![peer]) == (if peer.enabled {
            seq![peer.url]
        } else {
            Seq::empty()
        }),
        enabled_peer_urls(a + b) == enabled_peer_urls(a) + enabled_peer_urls(b),
    decreases b.len(),
{
    let one = seq![peer];
    assert(one.drop_last() =~= Seq::<PeerModel>::empty());
    assert(one.last() == peer);
    assert(enabled_peer_urls(one.drop_last()) =~= Seq::<Seq<char>>::empty());
    if b.len() == 0 {
        assert(a + b =~= a);
        assert(enabled_peer_urls(a) + enabled_peer_urls(b) =~= enabled_peer_urls(a));
    } else {
        enabled_peers_are_listed_in_order(peer, a, b.drop_last());
        assert((a + b).drop_last() =~= a + b.drop_last());
        assert((a + b).last() == b.last());
        assert(enabled_peer_urls(a + b) =~= enabled_peer_urls(a) + enabled_peer_urls(b));
    }
}

/// Enabling and disabling change a peer in nothing but what they are for: a
/// disabled peer keeps its failures and notes the time, and an enabled one
/// starts anew.
pub proof fn enabling_changes_nothing_else(p: PeerModel, now: i64)
    ensures
        ({
            let on = with_enabled(p, true, now);
            let off = with_enabled(p, false, now);
            &&& on.enabled && on.disabled_at is None && on.consecutive_failures == 0
            &&& !off.enabled && off.disabled_at == Some(now) && off.consecutive_failures
                == p.consecutive_failures
            &&& on.id == p.id && on.url == p.url && on.name == p.name
            &&& on.last_response_ms == p.last_response_ms && on.last_checked_at
                == p.last_checked_at && on.created_at == p.created_at
            &&& off.id == p.id && off.url == p.url && off.name == p.name
            &&& off.last_response_ms == p.last_response_ms && off.last_checked_at
                == p.last_checked_at && off.created_at == p.created_at
        }),
{
}

/// In a list by age, what was added earlier stands first.
pub proof fn older_peers_come_first(s: Seq<NodePeer>, i: int, j: int)
    requires
        oldest_first(s),
        0 <= i < s.len(),
        0 <= j < s.len(),
        s[i].created_at < s[j].created_at,
    ensures
        i < j,
{
    if j < i {
        assert(s[j].created_at <= s[i].created_at);
    }
}

/// In a list of subscriptions by age, what was added earlier stands first.
pub proof fn older_subscriptions_come_first(s: Seq<CollectionPeer>, i: int, j: int)
    requires
        oldest_subscription_first(s),
        0 <= i < s.len(),
        0 <= j < s.len(),
        s[i].created_at < s[j].created_at,
    ensures
        i < j,
{
    if j < i {
        assert(s[j].created_at <= s[i].created_at);
    }
}

/// A subscription is one of every list that is not limited to a collection, and
/// of the list of its own collection alone.
pub proof fn subscriptions_belong_to_their_collection(s: CollectionPeer, name: Seq<char>)
    ensures
        is_of(s, None),
        is_of(s, Some(name)) <==> s.local_collection@ == name,
{
}

} // verus!
