use community_search::api::gossip::{
    exchange, exchange_request, EngineSummary, ExchangeRequest, ExchangeResponse,
};
use community_search::api::public::SearchRequest;
use community_search::federation::discovered::{ensure_self_entry, list, upsert, DiscoveredEngine};
use community_search::federation::fanout::{active_collection_peers_for, forwarded_request};
use community_search::federation::gossip::{
    check_status, exchange_url, merge_engine_lists, sync_result, take_answer, GossipError,
};
use community_search::federation::health::{
    peers_to_probe, record_result, take_probe, HealthCheckOutcome, FAILURE_THRESHOLD,
};
use community_search::federation::peer::{
    api_url, collections_url, peer_event, search_url, PeerEvent,
};
use community_search::federation::storage::{
    enabled_urls, list_collection_peers, list_node_peers, new_collection_peer, new_node_peer,
    set_node_peer_enabled, CollectionPeer, NodePeer,
};
use community_search::protocol::{check_compatibility, Compatibility};

// ── discovered engines ───────────────────────────────────────────────────────

fn engine(url: &str, first_seen: i64, last_seen: i64) -> DiscoveredEngine {
    DiscoveredEngine {
        url: url.to_string(),
        name: format!("Engine {url}"),
        description: String::new(),
        first_seen,
        last_seen,
    }
}

fn engine_named(
    url: &str,
    name: &str,
    description: &str,
    first_seen: i64,
    last_seen: i64,
) -> DiscoveredEngine {
    DiscoveredEngine {
        url: url.to_string(),
        name: name.to_string(),
        description: description.to_string(),
        first_seen,
        last_seen,
    }
}

#[test]
fn upsert_then_get_returns_engine() {
    let stored = upsert(&None, engine("https://a", 10, 10));
    assert_eq!(stored.url, "https://a");
    assert_eq!(stored.first_seen, 10);
}

#[test]
fn upsert_twice_updates_last_seen_keeps_first_seen() {
    let stored = upsert(&None, engine("https://a", 10, 10));
    let stored = upsert(&Some(stored), engine("https://a", 50, 50));
    assert_eq!(stored.first_seen, 10, "first_seen should be preserved");
    assert_eq!(stored.last_seen, 50, "last_seen should be updated");
    let stored = upsert(&Some(stored), engine("https://a", 5, 5));
    assert_eq!(stored.last_seen, 50, "last_seen never goes back");
}

#[test]
fn list_orders_by_last_seen_desc() {
    let engines = list(vec![
        engine("https://a", 10, 10),
        engine("https://b", 30, 30),
        engine("https://c", 20, 20),
    ]);
    assert_eq!(engines.len(), 3);
    assert_eq!(engines[0].url, "https://b"); // last_seen=30
    assert_eq!(engines[1].url, "https://c"); // last_seen=20
    assert_eq!(engines[2].url, "https://a"); // last_seen=10
}

#[test]
fn ensure_self_entry_inserts_when_missing() {
    let got = ensure_self_entry(&None, "https://me.example.com", "Me", "My engine", 1234);
    assert_eq!(got.name, "Me");
    assert_eq!(got.first_seen, 1234);
    assert_eq!(got.last_seen, 1234);
}

#[test]
fn ensure_self_entry_updates_metadata_but_not_first_seen() {
    let first = ensure_self_entry(&None, "https://me.example.com", "Me", "v1", 1000);
    let got = ensure_self_entry(&Some(first), "https://me.example.com", "Me-Renamed", "v2", 2000);
    assert_eq!(got.name, "Me-Renamed");
    assert_eq!(got.description, "v2");
    assert_eq!(got.first_seen, 1000, "first_seen preserved");
    assert_eq!(got.last_seen, 2000);
}

// ── gossip ───────────────────────────────────────────────────────────────────

/// 1. Disjoint lists: the result must contain all URLs from both sides.
#[test]
fn merge_disjoint_lists_unions_both() {
    let local = vec![engine("https://a", 10, 10)];
    let incoming = vec![engine("https://b", 20, 20)];
    let result = merge_engine_lists(local, incoming, 100);
    let urls: Vec<&str> = result.iter().map(|e| e.url.as_str()).collect();
    assert!(urls.contains(&"https://a"), "missing https://a: {urls:?}");
    assert!(urls.contains(&"https://b"), "missing https://b: {urls:?}");
    assert_eq!(result.len(), 2);
}

/// The same list told once more at the same time changes nothing.
#[test]
fn merging_a_list_twice_is_merging_it_once() {
    let local = vec![engine("https://a", 10, 10), engine("https://c", 1, 500)];
    let told = || {
        vec![
            engine_named("https://a", "old", "", 5, 30),
            engine_named("https://b", "b", "", 7, 120),
            engine_named("https://a", "new", "", 9, 120),
            engine_named("https://c", "late", "", 2, 400),
        ]
    };
    let once = merge_engine_lists(local, told(), 100);
    let twice = merge_engine_lists(once.clone(), told(), 100);
    assert_eq!(once, twice);
    assert_eq!(once.len(), 3);
}

/// 2. Overlapping URL: first_seen must be the minimum of both sides.
#[test]
fn merge_overlapping_lists_keeps_older_first_seen() {
    let local = vec![engine("https://a", 10, 10)];
    let incoming = vec![engine("https://a", 5, 30)];
    let result = merge_engine_lists(local, incoming, 100);
    assert_eq!(result.len(), 1);
    assert_eq!(result[0].first_seen, 5);
}

/// 3. Overlapping URL on incoming side advances last_seen to now.
#[test]
fn merge_advances_last_seen_to_now_on_contact() {
    let local = vec![engine("https://a", 10, 10)];
    let incoming = vec![engine("https://a", 10, 20)];
    let result = merge_engine_lists(local, incoming, 999);
    assert_eq!(result.len(), 1);
    assert_eq!(result[0].last_seen, 999);
}

/// 4. Empty incoming: local entries must be returned untouched (last_seen unchanged).
#[test]
fn merge_empty_incoming_returns_local_with_unchanged_last_seen() {
    let local = vec![engine("https://a", 10, 10)];
    let result = merge_engine_lists(local, vec![], 999);
    assert_eq!(result.len(), 1);
    // last_seen must NOT be advanced to now — the entry was not contacted.
    assert_eq!(result[0].last_seen, 10);
}

/// 5. Empty local: incoming entry is inserted with last_seen advanced to now.
#[test]
fn merge_empty_local_uses_incoming() {
    let incoming = vec![engine("https://a", 10, 10)];
    let result = merge_engine_lists(vec![], incoming, 999);
    assert_eq!(result.len(), 1);
    assert_eq!(result[0].last_seen, 999);
}

/// 6. When incoming is newer, its name and description overwrite the local values.
#[test]
fn merge_newer_incoming_overwrites_name_and_description() {
    let local = vec![engine_named("https://a", "OLD", "old desc", 10, 10)];
    let incoming = vec![engine_named("https://a", "NEW", "new desc", 10, 50)];
    let result = merge_engine_lists(local, incoming, 100);
    assert_eq!(result.len(), 1);
    assert_eq!(result[0].name, "NEW");
    assert_eq!(result[0].description, "new desc");
}

/// 7. When incoming is older, the local name and description are preserved.
#[test]
fn merge_older_incoming_does_not_overwrite_name() {
    let local = vec![engine_named("https://a", "KEEP", "keep desc", 10, 50)];
    let incoming = vec![engine_named("https://a", "OLDER", "older desc", 10, 20)];
    let result = merge_engine_lists(local, incoming, 100);
    assert_eq!(result.len(), 1);
    assert_eq!(result[0].name, "KEEP");
    assert_eq!(result[0].description, "keep desc");
}

fn summary(url: &str, name: &str) -> EngineSummary {
    EngineSummary {
        url: url.to_string(),
        name: name.to_string(),
        description: String::new(),
    }
}

/// 8. Our list is sent, and the peer's list is taken over.
#[test]
fn exchange_with_peer_sends_our_list_and_persists_response() {
    let local = vec![engine_named("https://self.example.com", "Self", "Self Engine", 1000, 1000)];
    let sent = exchange_request(&local);
    assert_eq!(sent.protocol_version, "1.0");
    assert_eq!(sent.engines.len(), 1);
    assert_eq!(sent.engines[0].url, "https://self.example.com");

    let answer = ExchangeResponse {
        protocol_version: "1.0".to_string(),
        engines: vec![summary("https://from-peer.example.com", "Peer Engine")],
    };
    let (outcome, merged) = take_answer(local, "https://peer.example", &answer, 2000).unwrap();
    assert_eq!(outcome.received_count, 1, "should have received 1 engine");
    assert_eq!(outcome.sent_count, 1);
    let urls: Vec<&str> = merged.iter().map(|e| e.url.as_str()).collect();
    assert!(
        urls.iter().any(|u| u.contains("from-peer.example.com")),
        "from-peer.example.com should be in discovered list: {urls:?}"
    );
}

/// 9. A peer that speaks another major version is refused.
#[test]
fn exchange_with_peer_rejects_major_version_mismatch() {
    let local = vec![engine("https://self.example.com", 1000, 1000)];
    let answer = ExchangeResponse {
        protocol_version: "2.0".to_string(),
        engines: Vec::new(),
    };
    let err = take_answer(local, "https://peer.example", &answer, 2000).unwrap_err();
    assert!(matches!(err, GossipError::Version(_)));
    let err = err.message();
    assert!(
        err.contains("version"),
        "error should mention 'version': {err}"
    );
    assert_eq!(
        err,
        "incompatible protocol version: peer https://peer.example speaks 2.0 (ours 1.0)"
    );
}

#[test]
fn answers_hold_what_was_known_before() {
    let req = ExchangeRequest {
        protocol_version: "1.7".to_string(),
        engines: vec![summary("https://new", "New")],
    };
    let x = exchange(&req, vec![engine("https://old", 1, 1)], 50).unwrap();
    assert_eq!(x.response.protocol_version, "1.0");
    assert_eq!(x.response.engines.len(), 1);
    assert_eq!(x.response.engines[0].url, "https://old");
    let urls: Vec<&str> = x.merged.iter().map(|e| e.url.as_str()).collect();
    assert_eq!(urls, ["https://new", "https://old"]);
    assert_eq!(x.merged[0].first_seen, 50);

    let req = ExchangeRequest {
        protocol_version: "2.0".to_string(),
        engines: Vec::new(),
    };
    let reply = exchange(&req, Vec::new(), 50).unwrap_err();
    assert_eq!(reply.status, 400);
    assert_eq!(reply.body, "incompatible protocol version: theirs=2.0 ours=1.0");
}

#[test]
fn gossip_errors_have_messages() {
    assert!(check_status(204).is_ok());
    assert_eq!(check_status(503).unwrap_err().message(), "peer returned status 503");
    assert_eq!(GossipError::Http("x".to_string()).message(), "HTTP error: x");
    assert_eq!(GossipError::Db("x".to_string()).message(), "DB error: x");
    assert_eq!(exchange_url("https://p//"), "https://p/api/gossip/exchange");
    let round = sync_result(&vec![true, false, true]);
    assert_eq!(round.attempted, 3);
    assert_eq!(round.succeeded, 2);
}

#[test]
fn versions_are_compatible_within_a_major() {
    assert_eq!(check_compatibility("1.0"), Compatibility::Compatible);
    assert_eq!(check_compatibility("1.3"), Compatibility::MinorMismatch);
    assert_eq!(check_compatibility("2.0"), Compatibility::Incompatible);
    assert_eq!(check_compatibility("nonsense"), Compatibility::Incompatible);
    assert_eq!(check_compatibility(""), Compatibility::Incompatible);
}

// ── health ───────────────────────────────────────────────────────────────────

fn peer(id: i64, url: &str) -> NodePeer {
    let mut p = new_node_peer(url, &None, 1_000);
    p.id = id;
    p
}

fn disabled_peer(id: i64) -> NodePeer {
    let mut p = peer(id, "https://test.example");
    p.enabled = false;
    p.consecutive_failures = 5;
    p.disabled_at = Some(1_000);
    p
}

#[test]
fn re_enables_disabled_peer_when_check_succeeds() {
    let mut probed = peers_to_probe(vec![peer(1, "https://up"), disabled_peer(2)]);
    assert_eq!(probed.len(), 1);
    let mut outcome = HealthCheckOutcome::default();
    let note = take_probe(&mut probed[0], true, &mut outcome, 5_000).unwrap();
    assert_eq!(outcome.re_enabled, vec![2], "re_enabled should contain the peer id");
    assert!(outcome.still_down.is_empty(), "still_down should be empty");
    assert!(probed[0].enabled, "peer must be re-enabled");
    assert_eq!(note.kind, "peer_re_enabled");
    assert_eq!(note.message, "Peer 2 re-enabled after successful health check");
}

#[test]
fn keeps_peer_disabled_when_check_fails() {
    let mut p = disabled_peer(2);
    let mut outcome = HealthCheckOutcome::default();
    let note = take_probe(&mut p, false, &mut outcome, 5_000);
    assert!(note.is_none());
    assert!(outcome.re_enabled.is_empty(), "re_enabled should be empty on failure");
    assert_eq!(outcome.still_down, vec![2], "still_down should contain the peer id");
    assert!(!p.enabled, "peer must remain disabled");
}

#[test]
fn success_resets_failures_and_records_response_time() {
    let mut p = peer(1, "https://test.example");
    record_result(&mut p, false, None, 2_000);
    record_result(&mut p, true, Some(42), 3_000);
    assert_eq!(p.consecutive_failures, 0, "consecutive_failures must be reset to 0");
    assert_eq!(p.last_response_ms, Some(42), "last_response_ms must be 42");
    assert!(p.enabled, "peer must still be enabled");
    assert_eq!(p.last_checked_at, Some(3_000));
}

#[test]
fn auto_disables_at_threshold_and_writes_notification() {
    let mut p = peer(9, "https://test.example");
    let mut notes = Vec::new();
    for _ in 0..FAILURE_THRESHOLD {
        if let Some(n) = record_result(&mut p, false, None, 2_000) {
            notes.push(n);
        }
    }
    assert!(!p.enabled, "peer must be disabled after FAILURE_THRESHOLD failures");
    assert!(p.disabled_at.is_some(), "disabled_at must be set");
    assert_eq!(notes.len(), 1, "exactly one peer_disabled notification must be inserted");
    assert_eq!(notes[0].kind, "peer_disabled");
    assert_eq!(notes[0].message, "Peer 9 auto-disabled after 5 consecutive failures");
    assert!(record_result(&mut p, false, None, 2_001).is_none());
}

// ── peers ────────────────────────────────────────────────────────────────────

#[test]
fn insert_and_list_node_peer() {
    let mut p = new_node_peer("https://peer.example", &Some("Peer A".to_string()), 1_000);
    p.id = 3;
    let peers = list_node_peers(vec![p]);
    assert_eq!(peers.len(), 1);
    assert_eq!(peers[0].id, 3);
    assert_eq!(peers[0].url, "https://peer.example");
    assert!(peers[0].enabled);
}

#[test]
fn peers_are_listed_oldest_first() {
    let mut a = peer(1, "https://a");
    a.created_at = 30;
    let mut b = peer(2, "https://b");
    b.created_at = 10;
    let mut c = peer(3, "https://c");
    c.created_at = 20;
    c.enabled = false;
    let listed = list_node_peers(vec![a, b, c]);
    let ids: Vec<i64> = listed.iter().map(|p| p.id).collect();
    assert_eq!(ids, [2, 3, 1]);
    assert_eq!(enabled_urls(&listed), ["https://b", "https://a"]);
}

#[test]
fn set_enabled_toggles_flag() {
    let mut p = peer(1, "https://peer.example");

    // Disable: should set disabled_at and leave enabled=false
    set_node_peer_enabled(&mut p, false, 5_000);
    assert!(!p.enabled);
    assert!(
        p.disabled_at.is_some(),
        "disabled_at should be set when disabling"
    );

    // Re-enable: should clear disabled_at and reset consecutive_failures
    p.consecutive_failures = 5;
    set_node_peer_enabled(&mut p, true, 6_000);
    assert!(p.enabled);
    assert!(
        p.disabled_at.is_none(),
        "disabled_at should be cleared when re-enabling"
    );
    assert_eq!(
        p.consecutive_failures, 0,
        "consecutive_failures should be reset to 0"
    );
}

fn subscription(id: i64, local: &str, node: i64, weight: f32) -> CollectionPeer {
    let mut s = new_collection_peer(local, node, "remote-col", weight.to_bits(), 1_000);
    s.id = id;
    s
}

#[test]
fn insert_and_list_collection_peers() {
    let stored = || vec![subscription(4, "local-col", 1, 1.0)];

    // List with no filter returns all
    let all = list_collection_peers(stored(), &None);
    assert_eq!(all.len(), 1);
    assert_eq!(all[0].id, 4);
    assert_eq!(all[0].local_collection, "local-col");
    assert_eq!(all[0].node_peer_id, 1);
    assert_eq!(all[0].remote_collection, "remote-col");
    assert_eq!(f32::from_bits(all[0].source_weight_bits), 1.0);
    assert!(all[0].enabled);

    // List with matching local filter returns the row
    let filtered = list_collection_peers(stored(), &Some("local-col".to_string()));
    assert_eq!(filtered.len(), 1);
    assert_eq!(filtered[0].id, 4);

    // List with non-matching filter returns empty
    let empty = list_collection_peers(stored(), &Some("other-col".to_string()));
    assert!(empty.is_empty());
}

#[test]
fn returns_only_enabled_pairs_for_matching_collection() {
    let n1 = peer(1, "https://a.example");
    let mut n2 = peer(2, "https://b.example");
    let sub = |id: i64, local: &str, node: i64, weight: f32| {
        let mut s = new_collection_peer(local, node, "rust", weight.to_bits(), 1_000);
        s.id = id;
        s
    };
    let subs = vec![sub(1, "rust", 1, 0.8), sub(2, "rust", 2, 1.0), sub(3, "other", 1, 1.0)];
    set_node_peer_enabled(&mut n2, false, 2_000);

    let results = active_collection_peers_for(&subs, &vec![n1, n2], "rust");

    // Only the (rust, n1) pair should appear
    assert_eq!(
        results.len(),
        1,
        "expected exactly 1 result, got {:?}",
        results.len()
    );
    let r = &results[0];
    assert_eq!(r.node_peer_url, "https://a.example");
    assert_eq!(r.node_peer_id, 1, "node_peer_id must match n1");
    assert!(
        (f32::from_bits(r.source_weight_bits) - 0.8).abs() < 1e-6,
        "source_weight mismatch"
    );
    assert_eq!(r.source_label, "peer:https://a.example/rust");

    let request = SearchRequest {
        query: "q".to_string(),
        collection: Some("rust".to_string()),
        remaining_depth: 2,
    };
    let forwarded = forwarded_request(&request, r, 1);
    assert_eq!(forwarded.query, "q");
    assert_eq!(forwarded.collection.as_deref(), Some("rust"));
    assert_eq!(forwarded.remaining_depth, 1);
}

#[test]
fn peers_are_spoken_to_below_their_address() {
    assert_eq!(search_url("https://p/"), "https://p/api/search");
    assert_eq!(collections_url("https://p"), "https://p/api/collections");
    assert_eq!(api_url("https://p/x//", "/y"), "https://p/x/y");
    assert_eq!(peer_event("result"), PeerEvent::Result);
    assert_eq!(peer_event("complete"), PeerEvent::Stop);
    assert_eq!(peer_event("source_complete"), PeerEvent::Skip);
}

#[test]
fn hearing_the_same_twice_changes_nothing_more() {
    let local = vec![engine("https://a", 10, 10), engine("https://b", 5, 5)];
    let told = || vec![engine("https://a", 7, 20)];
    let once = merge_engine_lists(local, told(), 100);
    let twice = merge_engine_lists(once.clone(), told(), 100);
    assert_eq!(once, twice);
}

#[test]
fn storing_an_engine_twice_is_storing_it_once() {
    let e = || engine("https://a", 10, 20);
    let once = upsert(&Some(engine("https://a", 3, 4)), e());
    let twice = upsert(&Some(once.clone()), e());
    assert_eq!(once, twice);
    assert_eq!(once.first_seen, 3);
}

#[test]
fn engines_seen_at_once_are_listed_by_url() {
    let listed = list(vec![engine("https://b", 1, 9), engine("https://a", 1, 9)]);
    assert_eq!(listed[0].url, "https://a");
}
