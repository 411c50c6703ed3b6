//! Forwarding searches to peers.

use vstd::prelude::*;
use crate::api::public::SearchRequest;
use crate::federation::storage::{CollectionPeer, NodePeer, PeerModel, SubscriptionModel};
use crate::text::same_text;

verus! {

/// A peer that a search of some collection is forwarded to.
#[derive(Debug, Clone)]
pub struct ActiveCollectionPeer {
    pub collection_peer_id: i64,
    pub node_peer_id: i64,
    pub node_peer_url: String,
    pub remote_collection: String,
    pub source_weight_bits: u32,
    pub source_label: String,
}

pub struct ActiveModel {
    pub collection_peer_id: i64,
    pub node_peer_id: i64,
    pub node_peer_url: Seq<char>,
    pub remote_collection: Seq<char>,
    pub source_weight_bits: u32,
    pub source_label: Seq<char>,
}

impl DeepView for ActiveCollectionPeer {
    type V = ActiveModel;

    open spec fn deep_view(&self) -> ActiveModel {
        ActiveModel {
            collection_peer_id: self.collection_peer_id,
            node_peer_id: self.node_peer_id,
            node_peer_url: self.node_peer_url@,
            remote_collection: self.remote_collection@,
            source_weight_bits: self.source_weight_bits,
            source_label: self.source_label@,
        }
    }
}

/// How the results of a peer are labelled.
pub open spec fn peer_label(url: Seq<char>, remote: Seq<char>) -> Seq<char> {
    "peer:"@ + url + "/"@ + remote
}

/// The position of the peer with the given id at or behind `i`.
pub open spec fn peer_at(peers: Seq<PeerModel>, id: i64, i: int) -> Option<int>
    decreases peers.len() - i,
{
    if i < 0 || i >= peers.len() {
        None
    } else if peers[i].id == id {
        Some(i)
    } else {
        peer_at(peers, id, i + 1)
    }
}

/// The peer at `i` is the first one with the id.
pub open spec fn is_first_peer(peers: Seq<PeerModel>, id: i64, i: int) -> bool {
    0 <= i < peers.len() && peers[i].id == id && forall|j: int|
        0 <= j < i ==> (#[trigger] peers[j]).id != id
}

/// The peer `p` is among those that are asked for the subscription `s`: at its
/// own URL, for the collection under the name it has there, with the weight of
/// the subscription and a label that names both.
pub open spec fn asks(asked: Seq<ActiveModel>, s: SubscriptionModel, p: PeerModel) -> bool {
    exists|k: int|
        0 <= k < asked.len() && {
            let a = #[trigger] asked[k];
            &&& a.collection_peer_id == s.id
            &&& a.node_peer_id == p.id
            &&& a.node_peer_url == p.url
            &&& a.remote_collection == s.remote_collection
            &&& a.source_weight_bits == s.source_weight_bits
            &&& a.source_label == "peer:"@ + p.url + "/"@ + s.remote_collection
        }
}

/// What a subscription means for a search of `local`: the peer to forward it
/// to, where subscription and peer are both enabled.
pub open spec fn active_peer(
    s: SubscriptionModel,
    peers: Seq<PeerModel>,
    local: Seq<char>,
) -> Option<ActiveModel> {
    if s.local_collection != local || !s.enabled {
        None
    } else {
        match peer_at(peers, s.node_peer_id, 0) {
            None => None,
            Some(i) => if peers[i].enabled {
                Some(
                    ActiveModel {
                        collection_peer_id: s.id,
                        node_peer_id: peers[i].id,
                        node_peer_url: peers[i].url,
                        remote_collection: s.remote_collection,
                        source_weight_bits: s.source_weight_bits,
                        source_label: peer_label(peers[i].url, s.remote_collection),
                    },
                )
            } else {
                None
            },
        }
    }
}

/// `a` put into `sorted` behind everything with an id that is not larger.
pub open spec fn insert_active(sorted: Seq<ActiveModel>, a: ActiveModel) -> Seq<ActiveModel>
    decreases sorted.len(),
{
    if sorted.len() == 0 || sorted.last().collection_peer_id <= a.collection_peer_id {
        sorted.push(a)
    } else {
        insert_active(sorted.drop_last(), a).push(sorted.last())
    }
}

/// The peers that a search of `local` is forwarded to, by the id of their
/// subscriptions.
pub open spec fn active_peers(
    subscriptions: Seq<SubscriptionModel>,
    peers: Seq<PeerModel>,
    local: Seq<char>,
) -> Seq<ActiveModel>
    decreases subscriptions.len(),
{
    if subscriptions.len() == 0 {
        Seq::empty()
    } else {
        let front = active_peers(subscriptions.drop_last(), peers, local);
        match active_peer(subscriptions.last(), peers, local) {
            None => front,
            Some(a) => insert_active(front, a),
        }
    }
}

fn find_peer(peers: &Vec<NodePeer>, id: i64) -> (r: Option<usize>)
    ensures
        match r {
            Some(i) => i < peers.len() && peer_at(peers.deep_view(), id, 0) == Some(i as int),
            None => peer_at(peers.deep_view(), id, 0) is None,
        },
{
    let ghost all = peers.deep_view();
    let mut i: usize = 0;
    while i < peers.len()
        invariant
            i <= peers.len(),
            all == peers.deep_view(),
            peer_at(all, id, 0) == peer_at(all, id, i as int),
        decreases peers.len() - i,
    {
        assert(all[i as int] == peers@[i as int].deep_view());
        if peers[i].id == id {
            return Some(i);
        }
        i = i + 1;
    }
    None
}

fn activate(s: &CollectionPeer, peers: &Vec<NodePeer>, local: &str) -> (r: Option<
    ActiveCollectionPeer,
>)
    ensures
        r.deep_view() == active_peer(s.deep_view(), peers.deep_view(), local@),
{
    if !s.enabled || !same_text(s.local_collection.as_str(), local) {
        return None;
    }
    match find_peer(peers, s.node_peer_id) {
        None => None,
        Some(i) => {
            assert(peers.deep_view()[i as int] == peers@[i as int].deep_view());
            if !peers[i].enabled {
                return None;
            }
            let mut label: String = "peer:".to_owned();
            label.push_str(peers[i].url.as_str());
            label.push_str("/");
            label.push_str(s.remote_collection.as_str());
            Some(
                ActiveCollectionPeer {
                    collection_peer_id: s.id,
                    node_peer_id: peers[i].id,
                    node_peer_url: peers[i].url.clone(),
                    remote_collection: s.remote_collection.clone(),
                    source_weight_bits: s.source_weight_bits,
                    source_label: label,
                },
            )
        },
    }
}

fn insert_by_id(v: &mut Vec<ActiveCollectionPeer>, a: ActiveCollectionPeer)
    ensures
        final(v).deep_view() == insert_active(old(v).deep_view(), a.deep_view()),
{
    let ghost before = v.deep_view();
    let ghost q = a.deep_view();
    let mut k: usize = v.len();
    assert(before.take(k as int) =~= before);
    assert(insert_active(before.take(k as int), q) + before.skip(k as int) =~= insert_active(
        before,
        q,
    ));
    while k > 0 && v[k - 1].collection_peer_id > a.collection_peer_id
        invariant
            k <= v.len(),
            before == v.deep_view(),
            q == a.deep_view(),
            insert_active(before, q) == insert_active(before.take(k as int), q) + before.skip(
                k as int,
            ),
        decreases k,
    {
        proof {
            let t = before.take(k as int);
            assert(t.drop_last() =~= before.take(k - 1));
            assert(t.last() == before[k - 1]);
            assert(before[k - 1] == v@[k - 1].deep_view());
            assert(insert_active(t, q) + before.skip(k as int) =~= insert_active(
                before.take(k - 1),
                q,
            ) + before.skip(k - 1));
        }
        k = k - 1;
    }
    proof {
        let t = before.take(k as int);
        if k > 0 {
            assert(t.last() == before[k - 1]);
            assert(before[k - 1] == v@[k - 1].deep_view());
        }
        assert(insert_active(t, q) == t.push(q));
    }
    v.insert(k, a);
    assert(v.deep_view() =~= before.take(k as int).push(q) + before.skip(k as int));
}

/// The peers that a search of the collection `local` is forwarded to: those of
/// the enabled subscriptions of that collection whose peer is enabled too.
pub fn active_collection_peers_for(
    subscriptions: &Vec<CollectionPeer>,
    peers: &Vec<NodePeer>,
    local: &str,
) -> (r: Vec<ActiveCollectionPeer>)
    ensures
        r.deep_view() == active_peers(subscriptions.deep_view(), peers.deep_view(), local@),
        forall|k: int, i: int|
            #![trigger subscriptions@[k], peers@[i]]
            0 <= k < subscriptions.len() && 0 <= i < peers.len() && is_first_peer(
                peers.deep_view(),
                subscriptions@[k].node_peer_id,
                i,
            ) && subscriptions@[k].enabled && peers@[i].enabled
                && subscriptions@[k].local_collection@ == local@ ==> asks(
                r.deep_view(),
                subscriptions@[k].deep_view(),
                peers@[i].deep_view(),
            ),
{
    let ghost all = subscriptions.deep_view();
    let mut r: Vec<ActiveCollectionPeer> = Vec::new();
    let mut i: usize = 0;
    assert(all.take(0) =~= Seq::<SubscriptionModel>::empty());
    assert(r.deep_view() =~= Seq::<ActiveModel>::empty());
    while i < subscriptions.len()
        invariant
            i <= subscriptions.len(),
            all == subscriptions.deep_view(),
            r.deep_view() == active_peers(all.take(i as int), peers.deep_view(), local@),
        decreases subscriptions.len() - i,
    {
        proof {
            assert(all[i as int] == subscriptions@[i as int].deep_view());
            assert(all.take(i + 1).drop_last() =~= all.take(i as int));
        }
        match activate(&subscriptions[i], peers, local) {
            Some(a) => insert_by_id(&mut r, a),
            None => {},
        }
        i = i + 1;
    }
    assert(all.take(all.len() as int) =~= all);
    proof {
        let known = peers.deep_view();
        assert forall|k: int, p: int|
            #![trigger subscriptions@[k], peers@[p]]
            0 <= k < subscriptions.len() && 0 <= p < peers.len() && is_first_peer(
                known,
                subscriptions@[k].node_peer_id,
                p,
            ) && subscriptions@[k].enabled && peers@[p].enabled
                && subscriptions@[k].local_collection@ == local@ implies asks(
            r.deep_view(),
            subscriptions@[k].deep_view(),
            peers@[p].deep_view(),
        ) by {
            assert(all[k] == subscriptions@[k].deep_view());
            assert(known[p] == peers@[p].deep_view());
            every_enabled_pair_is_asked(all, known, local@, k, p);
        }
    }
    r
}

/// The search as it is forwarded to a peer: of the collection under the name
/// it has there, and with the depth that is left.
pub fn forwarded_request(
    request: &SearchRequest,
    peer: &ActiveCollectionPeer,
    outgoing_depth: u8,
) -> (r: SearchRequest)
    ensures
        r.query@ == request.query@,
        r.collection.deep_view() == Some(peer.remote_collection@),
        r.remaining_depth == outgoing_depth,
{
    SearchRequest {
        query: request.query.clone(),
        collection: Some(peer.remote_collection.clone()),
        remaining_depth: outgoing_depth as u32,
    }
}

// ---------------------------------------------------------------------------
// Laws
// ---------------------------------------------------------------------------

proof fn lemma_insert_active(sorted: Seq<ActiveModel>, a: ActiveModel)
    ensures
        insert_active(sorted, a).len() == sorted.len() + 1,
        forall|i: int|
            0 <= i < insert_active(sorted, a).len() ==> (#[trigger] insert_active(sorted, a)[i] == a
                || sorted.contains(insert_active(sorted, a)[i])),
        (forall|i: int, j: int|
            0 <= i < j < sorted.len() ==> sorted[i].collection_peer_id
                <= sorted[j].collection_peer_id) ==> (forall|i: int, j: int|
            0 <= i < j < insert_active(sorted, a).len() ==> insert_active(
                sorted,
                a,
            )[i].collection_peer_id <= insert_active(sorted, a)[j].collection_peer_id),
    decreases sorted.len(),
{
    let r = insert_active(sorted, a);
    if sorted.len() == 0 || sorted.last().collection_peer_id <= a.collection_peer_id {
        assert forall|i: int| 0 <= i < r.len() implies (#[trigger] r[i] == a || sorted.contains(
            r[i],
        )) by {
            if i < sorted.len() {
                assert(sorted[i] == r[i]);
            }
        }
    } else {
        let front = sorted.drop_last();
        lemma_insert_active(front, a);
        let inner = insert_active(front, a);
        assert forall|i: int| 0 <= i < r.len() implies (#[trigger] r[i] == a || sorted.contains(
            r[i],
        )) by {
            if i < inner.len() {
                assert(inner[i] == r[i]);
                if inner[i] != a {
                    let k = choose|k: int| 0 <= k < front.len() && front[k] == inner[i];
                    assert(sorted[k] == r[i]);
                }
            } else {
                assert(sorted[sorted.len() - 1] == r[i]);
            }
        }
        if forall|i: int, j: int|
            0 <= i < j < sorted.len() ==> sorted[i].collection_peer_id
                <= sorted[j].collection_peer_id {
            assert forall|i: int, j: int| 0 <= i < j < r.len() implies r[i].collection_peer_id
                <= r[j].collection_peer_id by {
                if j == inner.len() {
                    assert(inner[i] == r[i]);
                    if inner[i] != a {
                        let k = choose|k: int| 0 <= k < front.len() && front[k] == inner[i];
                        assert(sorted[k].collection_peer_id <= sorted[sorted.len()
                            - 1].collection_peer_id);
                    }
                }
            }
        }
    }
}

/// `a` comes from a subscription of `local` that is enabled, and so is its
/// peer.
pub open spec fn comes_from(
    a: ActiveModel,
    subscriptions: Seq<SubscriptionModel>,
    peers: Seq<PeerModel>,
    local: Seq<char>,
) -> bool {
    exists|k: int|
        0 <= k < subscriptions.len() && active_peer(#[trigger] subscriptions[k], peers, local)
            == Some(a)
}

/// A search is forwarded only where the subscription and the peer are both
/// enabled, and the peers are asked in the order of their subscriptions.
pub proof fn only_enabled_pairs_are_asked(
    subscriptions: Seq<SubscriptionModel>,
    peers: Seq<PeerModel>,
    local: Seq<char>,
)
    ensures
        forall|i: int|
            0 <= i < active_peers(subscriptions, peers, local).len() ==> comes_from(
                #[trigger] active_peers(subscriptions, peers, local)[i],
                subscriptions,
                peers,
                local,
            ),
        forall|i: int, j: int|
            0 <= i < j < active_peers(subscriptions, peers, local).len() ==> active_peers(
                subscriptions,
                peers,
                local,
            )[i].collection_peer_id <= active_peers(
                subscriptions,
                peers,
                local,
            )[j].collection_peer_id,
    decreases subscriptions.len(),
{
    if subscriptions.len() > 0 {
        let before = subscriptions.drop_last();
        only_enabled_pairs_are_asked(before, peers, local);
        let front = active_peers(before, peers, local);
        let all = active_peers(subscriptions, peers, local);
        match active_peer(subscriptions.last(), peers, local) {
            None => {},
            Some(a) => {
                lemma_insert_active(front, a);
            },
        }
        assert forall|i: int| 0 <= i < all.len() implies comes_from(
            #[trigger] all[i],
            subscriptions,
            peers,
            local,
        ) by {
            if active_peer(subscriptions.last(), peers, local) == Some(all[i]) {
                assert(active_peer(subscriptions[subscriptions.len() - 1], peers, local) == Some(
                    all[i],
                ));
            } else {
                assert(front.contains(all[i]));
                let m = choose|m: int| 0 <= m < front.len() && front[m] == all[i];
                assert(comes_from(front[m], before, peers, local));
                let k = choose|k: int|
                    0 <= k < before.len() && active_peer(#[trigger] before[k], peers, local)
                        == Some(front[m]);
                assert(active_peer(subscriptions[k], peers, local) == Some(all[i]));
            }
        }
    }
}

proof fn lemma_peer_at(peers: Seq<PeerModel>, id: i64, from: int)
    requires
        0 <= from <= peers.len(),
    ensures
        match peer_at(peers, id, from) {
            Some(i) => from <= i < peers.len() && peers[i].id == id && forall|j: int|
                from <= j < i ==> (#[trigger] peers[j]).id != id,
            None => forall|j: int| from <= j < peers.len() ==> (#[trigger] peers[j]).id != id,
        },
    decreases peers.len() - from,
{
    if from < peers.len() && peers[from].id != id {
        lemma_peer_at(peers, id, from + 1);
    }
}

/// What is in a list stays there when something is put into it, and what is put
/// into it is there.
proof fn lemma_insert_active_keeps(sorted: Seq<ActiveModel>, a: ActiveModel)
    ensures
        insert_active(sorted, a).to_multiset() == sorted.to_multiset().insert(a),
    decreases sorted.len(),
{
    sorted.to_multiset_ensures();
    if sorted.len() > 0 && sorted.last().collection_peer_id > a.collection_peer_id {
        let front = sorted.drop_last();
        lemma_insert_active_keeps(front, a);
        front.to_multiset_ensures();
        insert_active(front, a).to_multiset_ensures();
        assert(sorted =~= front.push(sorted.last()));
        assert(insert_active(sorted, a).to_multiset() =~= sorted.to_multiset().insert(a));
    }
}

/// Every subscription of the collection that is enabled has its peer asked,
/// where that is enabled too.
pub proof fn every_enabled_pair_is_asked(
    subscriptions: Seq<SubscriptionModel>,
    peers: Seq<PeerModel>,
    local: Seq<char>,
    k: int,
    i: int,
)
    requires
        0 <= k < subscriptions.len(),
        subscriptions[k].local_collection == local,
        subscriptions[k].enabled,
        is_first_peer(peers, subscriptions[k].node_peer_id, i),
        peers[i].enabled,
    ensures
        asks(active_peers(subscriptions, peers, local), subscriptions[k], peers[i]),
    decreases subscriptions.len(),
{
    let front = active_peers(subscriptions.drop_last(), peers, local);
    let all = active_peers(subscriptions, peers, local);
    front.to_multiset_ensures();
    all.to_multiset_ensures();
    if k < subscriptions.len() - 1 {
        every_enabled_pair_is_asked(subscriptions.drop_last(), peers, local, k, i);
        let m = choose|m: int|
            0 <= m < front.len() && {
                let a = #[trigger] front[m];
                &&& a.collection_peer_id == subscriptions[k].id
                &&& a.node_peer_id == peers[i].id
                &&& a.node_peer_url == peers[i].url
                &&& a.remote_collection == subscriptions[k].remote_collection
                &&& a.source_weight_bits == subscriptions[k].source_weight_bits
                &&& a.source_label == "peer:"@ + peers[i].url + "/"@
                    + subscriptions[k].remote_collection
            };
        let a = front[m];
        assert(front.contains(a));
        if let Some(b) = active_peer(subscriptions.last(), peers, local) {
            lemma_insert_active_keeps(front, b);
        }
        assert(all.to_multiset().count(a) > 0);
        assert(all.contains(a));
        let n = choose|n: int| 0 <= n < all.len() && all[n] == a;
        assert(all[n].collection_peer_id == subscriptions[k].id);
    } else {
        lemma_peer_at(peers, subscriptions[k].node_peer_id, 0);
        let a = active_peer(subscriptions[k], peers, local)->0;
        lemma_insert_active_keeps(front, a);
        assert(all.to_multiset().count(a) > 0);
        assert(all.contains(a));
        let n = choose|n: int| 0 <= n < all.len() && all[n] == a;
        assert(all[n].collection_peer_id == subscriptions[k].id);
    }
}

/// The peer with this id is there and enabled.
pub open spec fn has_enabled_peer(peers: Seq<PeerModel>, id: i64) -> bool {
    exists|i: int| #[trigger] is_first_peer(peers, id, i) && peers[i].enabled
}

/// One more subscription has one more peer asked where it is of the collection,
/// enabled and of an enabled peer, and changes nothing otherwise: as many peers
/// are asked as there are such subscriptions.
pub proof fn each_subscription_adds_its_peer(
    subscriptions: Seq<SubscriptionModel>,
    s: SubscriptionModel,
    peers: Seq<PeerModel>,
    local: Seq<char>,
)
    ensures
        active_peers(Seq::empty(), peers, local).len() == 0,
        active_peers(subscriptions.push(s), peers, local).len() == active_peers(
            subscriptions,
            peers,
            local,
        ).len() + (if s.local_collection == local && s.enabled && has_enabled_peer(
            peers,
            s.node_peer_id,
        ) {
            1int
        } else {
            0int
        }),
        forall|a: ActiveModel| #[trigger]
            active_peers(subscriptions.push(s), peers, local).to_multiset().count(a)
                >= active_peers(subscriptions, peers, local).to_multiset().count(a),
{
    let front = active_peers(subscriptions, peers, local);
    let all = active_peers(subscriptions.push(s), peers, local);
    assert(subscriptions.push(s).drop_last() =~= subscriptions);
    lemma_peer_at(peers, s.node_peer_id, 0);
    match peer_at(peers, s.node_peer_id, 0) {
        Some(i) => {
            assert(is_first_peer(peers, s.node_peer_id, i));
            if has_enabled_peer(peers, s.node_peer_id) {
                let j = choose|j: int| #[trigger]
                    is_first_peer(peers, s.node_peer_id, j) && peers[j].enabled;
                if j < i {
                    assert(peers[j].id == s.node_peer_id);
                } else if i < j {
                    assert(peers[i].id == s.node_peer_id);
                }
            }
        },
        None => {},
    }
    if let Some(a) = active_peer(s, peers, local) {
        lemma_insert_active(front, a);
        lemma_insert_active_keeps(front, a);
    }
}

/// The results of a peer are labelled with its URL and the name that the
/// collection has there.
pub proof fn labels_name_peer_and_collection(url: Seq<char>, remote: Seq<char>)
    ensures
        peer_label(url, remote) == "peer:"@ + url + "/"@ + remote,
{
}

/// No peer is asked for a subscription that is disabled, of another collection, or
/// of a peer that is disabled or not there.
pub proof fn other_subscriptions_ask_nobody(
    s: SubscriptionModel,
    peers: Seq<PeerModel>,
    local: Seq<char>,
)
    requires
        !s.enabled || s.local_collection != local || (forall|i: int|
            0 <= i < peers.len() ==> (#[trigger] peers[i]).id != s.node_peer_id
                || !peers[i].enabled),
    ensures
        active_peers(seq![s], peers, local).len() == 0,
{
    let one = seq![s];
    assert(one.drop_last() =~= Seq::<SubscriptionModel>::empty());
    assert(one.last() == s);
    assert(active_peers(one.drop_last(), peers, local).len() == 0);
    lemma_peer_at(peers, s.node_peer_id, 0);
}

} // verus!
