//! The health of peers: a peer that keeps failing is disabled, and enabled
//! again once it answers.

use vstd::prelude::*;
use crate::federation::storage::{set_node_peer_enabled, with_enabled, NodePeer, PeerModel};
use crate::text::{show_signed, signed_decimal};

verus! {

/// How many failures in a row disable a peer.
pub const FAILURE_THRESHOLD: i64 = 5;

/// Something that the administrator is told.
#[derive(Debug, Clone, PartialEq, Eq)]
pub struct Notification {
    pub kind: String,
    pub message: String,
}

pub struct NotificationModel {
    pub kind: Seq<char>,
    pub message: Seq<char>,
}

impl DeepView for Notification {
    type V = NotificationModel;

    open spec fn deep_view(&self) -> NotificationModel {
        NotificationModel { kind: self.kind@, message: self.message@ }
    }
}

/// Which disabled peers answered in a sweep, and which did not.
#[derive(Debug, PartialEq, Eq)]
pub struct HealthCheckOutcome {
    /// The peers that were enabled again.
    pub re_enabled: Vec<i64>,
    /// The peers that stay disabled.
    pub still_down: Vec<i64>,
}

impl Default for HealthCheckOutcome {
    fn default() -> (r: HealthCheckOutcome)
        ensures
            r.re_enabled@ == Seq::<i64>::empty(),
            r.still_down@ == Seq::<i64>::empty(),
    {
        HealthCheckOutcome { re_enabled: Vec::new(), still_down: Vec::new() }
    }
}

// ---------------------------------------------------------------------------
// Results of requests
// ---------------------------------------------------------------------------

/// A peer after a request that it answered.
pub open spec fn after_success(p: PeerModel, response_ms: Option<i64>, now: i64) -> PeerModel {
    PeerModel {
        consecutive_failures: 0,
        last_response_ms: response_ms,
        last_checked_at: Some(now),
        ..p
    }
}

/// One more failure disables the peer.
pub open spec fn failure_disables(p: PeerModel) -> bool {
    p.consecutive_failures + 1 >= FAILURE_THRESHOLD && p.enabled
}

/// A peer after a request that failed.
pub open spec fn after_failure(p: PeerModel, now: i64) -> PeerModel {
    let counted = PeerModel {
        consecutive_failures: p.consecutive_failures + 1,
        last_checked_at: Some(now),
        ..p
    };
    if failure_disables(p) {
        PeerModel { enabled: false, disabled_at: Some(now), ..counted }
    } else {
        counted
    }
}

/// What the administrator is told when a failure disables a peer.
pub open spec fn disabled_note(p: PeerModel) -> NotificationModel {
    NotificationModel {
        kind: "peer_disabled"@,
        message: "Peer "@ + signed_decimal(p.id as int) + " auto-disabled after "@
            + signed_decimal(p.consecutive_failures + 1) + " consecutive failures"@,
    }
}

/// Records how a request to a peer ended. A success forgets its failures; the
/// fifth failure in a row disables it, and the administrator is told.
pub fn record_result(
    peer: &mut NodePeer,
    success: bool,
    response_ms: Option<i64>,
    now: i64,
) -> (r: Option<Notification>)
    requires
        old(peer).consecutive_failures < i64::MAX,
    ensures
        success ==> final(peer).deep_view() == after_success(
            old(peer).deep_view(),
            response_ms,
            now,
        ) && r is None,
        !success ==> final(peer).deep_view() == after_failure(old(peer).deep_view(), now)
            && r.deep_view() == (if failure_disables(old(peer).deep_view()) {
            Some(disabled_note(old(peer).deep_view()))
        } else {
            None
        }),
{
    if success {
        peer.consecutive_failures = 0;
        peer.last_response_ms = response_ms;
        peer.last_checked_at = Some(now);
        return None;
    }
    peer.consecutive_failures = peer.consecutive_failures + 1;
    peer.last_checked_at = Some(now);
    if peer.consecutive_failures >= FAILURE_THRESHOLD && peer.enabled {
        peer.enabled = false;
        peer.disabled_at = Some(now);
        let id = show_signed(peer.id);
        let count = show_signed(peer.consecutive_failures);
        let mut message: String = "Peer ".to_owned();
        message.push_str(id.as_str());
        message.push_str(" auto-disabled after ");
        message.push_str(count.as_str());
        message.push_str(" consecutive failures");
        Some(Notification { kind: "peer_disabled".to_owned(), message })
    } else {
        None
    }
}

// ---------------------------------------------------------------------------
// Sweeps
// ---------------------------------------------------------------------------

/// What the administrator is told when a peer is enabled again.
pub open spec fn enabled_note(id: i64) -> NotificationModel {
    NotificationModel {
        kind: "peer_re_enabled"@,
        message: "Peer "@ + signed_decimal(id as int)
            + " re-enabled after successful health check"@,
    }
}

/// The peers that a sweep probes: those that are disabled, in their order.
pub fn peers_to_probe(peers: Vec<NodePeer>) -> (r: Vec<NodePeer>)
    ensures
        r@ == peers@.filter(|p: NodePeer| !p.enabled),
{
    let ghost down = |p: NodePeer| !p.enabled;
    let ghost total = peers@;
    let mut left = peers;
    let mut reversed: Vec<NodePeer> = Vec::new();
    assert(total.take(total.len() as int) =~= total);
    assert(total.filter(down) + Seq::<NodePeer>::empty().reverse() =~= total.filter(down));
    while left.len() > 0
        invariant
            down == (|p: NodePeer| !p.enabled),
            total.filter(down) == left@.filter(down) + reversed@.reverse(),
        decreases left.len(),
    {
        let ghost before = left@;
        let ghost rev = reversed@;
        match left.pop() {
            Some(p) => {
                proof {
                    assert(before =~= left@.push(p));
                    left@.lemma_filter_push(p, down);
                }
                if !p.enabled {
                    reversed.push(p);
                    assert(reversed@.reverse() =~= seq![p] + rev.reverse());
                    assert(before.filter(down) + rev.reverse() =~= left@.filter(down)
                        + reversed@.reverse());
                }
            },
            None => {},
        }
    }
    assert(left@ =~= Seq::<NodePeer>::empty());
    assert(left@.filter(down).len() == 0) by {
        left@.lemma_filter_len(down);
    }
    assert(total.filter(down) =~= reversed@.reverse());
    let mut r: Vec<NodePeer> = Vec::new();
    while reversed.len() > 0
        invariant
            r@ + reversed@.reverse() == total.filter(down),
        decreases reversed.len(),
    {
        let ghost before = reversed@;
        let ghost listed = r@;
        match reversed.pop() {
            Some(p) => {
                r.push(p);
                assert(before.reverse() =~= seq![p] + reversed@.reverse());
                assert(listed + before.reverse() =~= r@ + reversed@.reverse());
            },
            None => {},
        }
    }
    assert(r@ + reversed@.reverse() =~= r@);
    r
}

/// Takes in how the probe of a disabled peer ended. A peer that answers is
/// enabled again, and the administrator is told; one that does not stays as it
/// is. Either way the sweep remembers it.
pub fn take_probe(
    peer: &mut NodePeer,
    answered: bool,
    outcome: &mut HealthCheckOutcome,
    now: i64,
) -> (r: Option<Notification>)
    ensures
        answered ==> final(peer).deep_view() == with_enabled(old(peer).deep_view(), true, now)
            && final(outcome).re_enabled@ == old(outcome).re_enabled@.push(old(peer).id)
            && final(outcome).still_down@ == old(outcome).still_down@ && r.deep_view() == Some(
            enabled_note(old(peer).id),
        ),
        !answered ==> final(peer).deep_view() == old(peer).deep_view() && final(outcome).re_enabled@ == old(outcome).re_enabled@ && final(outcome).still_down@ == old(outcome).still_down@.push(old(peer).id) && r is None,
{
    if answered {
        set_node_peer_enabled(peer, true, now);
        outcome.re_enabled.push(peer.id);
        let id = show_signed(peer.id);
        let mut message: String = "Peer ".to_owned();
        message.push_str(id.as_str());
        message.push_str(" re-enabled after successful health check");
        Some(Notification { kind: "peer_re_enabled".to_owned(), message })
    } else {
        outcome.still_down.push(peer.id);
        None
    }
}

// ---------------------------------------------------------------------------
// Laws
// ---------------------------------------------------------------------------

/// A peer after some requests that failed, the `i`-th at time `times[i]`.
pub open spec fn after_failures(p: PeerModel, times: Seq<i64>) -> PeerModel
    decreases times.len(),
{
    if times.len() == 0 {
        p
    } else {
        after_failure(after_failures(p, times.drop_last()), times.last())
    }
}

/// An enabled peer without failures stays enabled through four failures in a
/// row, and the fifth disables it.
pub proof fn five_failures_disable(p: PeerModel, times: Seq<i64>)
    requires
        p.enabled,
        p.consecutive_failures == 0,
        times.len() <= FAILURE_THRESHOLD,
    ensures
        after_failures(p, times).consecutive_failures == times.len(),
        after_failures(p, times).enabled <==> times.len() < FAILURE_THRESHOLD,
        times.len() == FAILURE_THRESHOLD ==> after_failures(p, times).disabled_at == Some(
            times.last(),
        ),
    decreases times.len(),
{
    if times.len() > 0 {
        five_failures_disable(p, times.drop_last());
    }
}

/// A success forgets all failures, however many there were, but does not
/// enable a peer that was disabled.
pub proof fn successes_forget_failures(p: PeerModel, response_ms: Option<i64>, now: i64)
    ensures
        after_success(p, response_ms, now).consecutive_failures == 0,
        after_success(p, response_ms, now).enabled == p.enabled,
{
}

/// A peer that is already disabled is not disabled again: when it was disabled
/// stays known, and the administrator is told once.
pub proof fn peers_are_disabled_once(p: PeerModel, now: i64)
    requires
        !p.enabled,
    ensures
        after_failure(p, now).disabled_at == p.disabled_at,
        !failure_disables(p),
{
}

/// A peer that was enabled again starts without failures.
pub proof fn re_enabled_peers_start_clean(p: PeerModel, now: i64)
    ensures
        with_enabled(p, true, now).enabled,
        with_enabled(p, true, now).consecutive_failures == 0,
        with_enabled(p, true, now).disabled_at is None,
{
}

/// A failure is counted from whatever count there was, and disables an enabled
/// peer exactly where it makes the count five or more; it changes nothing else
/// of the peer.
pub proof fn failures_are_counted(p: PeerModel, now: i64)
    ensures
        ({
            let r = after_failure(p, now);
            &&& r.consecutive_failures == p.consecutive_failures + 1
            &&& r.last_checked_at == Some(now)
            &&& r.enabled <==> p.enabled && p.consecutive_failures + 1 < 5
            &&& p.enabled && p.consecutive_failures + 1 >= 5 ==> r.disabled_at == Some(now)
            &&& p.consecutive_failures + 1 < 5 ==> r.disabled_at == p.disabled_at
            &&& r.id == p.id && r.url == p.url && r.name == p.name
            &&& r.last_response_ms == p.last_response_ms && r.created_at == p.created_at
        }),
{
}

/// A success notes how long it took and when, forgets the failures, and changes
/// nothing else of the peer.
pub proof fn successes_are_noted(p: PeerModel, response_ms: Option<i64>, now: i64)
    ensures
        ({
            let r = after_success(p, response_ms, now);
            &&& r.consecutive_failures == 0
            &&& r.last_response_ms == response_ms
            &&& r.last_checked_at == Some(now)
            &&& r.enabled == p.enabled && r.disabled_at == p.disabled_at
            &&& r.id == p.id && r.url == p.url && r.name == p.name && r.created_at == p.created_at
        }),
{
}

/// The administrator is told of the fifth failure in a row of an enabled peer,
/// and of no other; what they are told names the peer and its failures.
pub proof fn the_fifth_failure_is_told(p: PeerModel)
    ensures
        failure_disables(p) <==> p.enabled && p.consecutive_failures >= 4,
        disabled_note(p).kind == "peer_disabled"@,
        disabled_note(p).message == "Peer "@ + signed_decimal(p.id as int)
            + " auto-disabled after "@ + signed_decimal(
            after_failure(p, 0).consecutive_failures as int,
        ) + " consecutive failures"@,
        ("Peer "@ + signed_decimal(p.id as int)).is_prefix_of(disabled_note(p).message),
        enabled_note(p.id).kind == "peer_re_enabled"@,
        ("Peer "@ + signed_decimal(p.id as int)).is_prefix_of(enabled_note(p.id).message),
{
    let start = "Peer "@ + signed_decimal(p.id as int);
    assert(disabled_note(p).message.subrange(0, start.len() as int) =~= start);
    assert(enabled_note(p.id).message.subrange(0, start.len() as int) =~= start);
}

} // verus!
