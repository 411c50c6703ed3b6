use community_search::api::admin::collection_peers::{subscribe, SubscribeReq};
use community_search::api::admin::collections::{
    handle_collections, CollectionAction, CollectionChange,
};
use community_search::api::admin::config::{loaded, put_config, RuntimeConfig};
use community_search::api::admin::crawl_targets::{
    handle_crawl_targets, CrawlTargetAction, TargetChange,
};
use community_search::api::admin::discovered::{promote_discovered, remove_discovered};
use community_search::api::admin::export_import::{
    apply_envelope, build_envelope, check_format, decode_body, doc_content_hash, encode_body,
    import_collection_as, json_refusal, note_collection_peer, plan_import, ExportEnvelope,
    ExportedCollection, ExportedCollectionPeer, ExportedCrawlTarget, ExportedCrawledPage,
    ExportedDocument, ExportedNodePeer, ExportedOutlinkHostSuggestion, ExportedRankingConfig,
    ImportIds, ImportReport, FORMAT_VERSION,
};
use community_search::api::admin::gossip::{refused_status, trigger_gossip};
use community_search::api::admin::nodes::browsed_url;
use community_search::api::admin::outlinks::{dismiss_outlink, promote_outlink};
use community_search::api::admin::ranking::{get_ranking, named_collection, put_ranking};
use community_search::api::admin::status::get_status;
use community_search::api::gossip::{EngineSummary, ExchangeResponse};
use community_search::api::rate_limit::RateLimitConfig;
use community_search::db::outlink_hosts::OutlinkHostRecord;
use community_search::federation::discovered::DiscoveredEngine;
use community_search::federation::storage::new_node_peer;
use community_search::index::reader::ExportedDoc;

// ── export ───────────────────────────────────────────────────────────────────

const GZIP_MAGIC: [u8; 2] = [0x1f, 0x8b];

fn tech() -> ExportedCollection {
    ExportedCollection {
        name: "tech".to_string(),
        description: "tech blogs".to_string(),
        created_at: "2024-01-01T00:00:00Z".to_string(),
        updated_at: String::new(),
        crawl_targets: vec![ExportedCrawlTarget {
            url_prefix: "https://example.com/".to_string(),
            recrawl_interval_s: 3600,
            recrawl_interval_secs: 3600,
            enabled: 1,
            crawl_delay_secs: None,
            created_at: "2024-01-01T00:00:00Z".to_string(),
            crawled_pages: vec![ExportedCrawledPage {
                url: "https://example.com/post1".to_string(),
                etag: None,
                last_modified: None,
                content_hash: Some("h1".to_string()),
                last_status: Some(200),
                last_crawled_at: 1700000000,
                indexed_content_hash: Some("h1".to_string()),
            }],
        }],
        ranking_config: Some(ExportedRankingConfig {
            freshness_half_life_days_bits: 30.0f64.to_bits(),
            source_weights_json: "{\"local\":2.0}".to_string(),
            domain_boosts_json: "{\"example.com\":1.5}".to_string(),
            config_json: None,
        }),
        documents: Vec::new(),
        outlink_host_suggestions: vec![ExportedOutlinkHostSuggestion {
            host: "other.example".to_string(),
            link_count: 4,
            examples_json: "[]".to_string(),
            first_seen_at: 1,
            last_seen_at: 2,
            status: "pending".to_string(),
        }],
    }
}

fn node_peers() -> Vec<ExportedNodePeer> {
    vec![ExportedNodePeer {
        url: "https://peer.example/".to_string(),
        name: Some("peer".to_string()),
        enabled: 1,
    }]
}

fn collection_peers() -> Vec<ExportedCollectionPeer> {
    vec![ExportedCollectionPeer {
        local_collection: "tech".to_string(),
        node_peer_url: "https://peer.example/".to_string(),
        remote_collection: "remote-tech".to_string(),
        source_weight_bits: 0.8f64.to_bits(),
        enabled: 1,
    }]
}

fn indexed(collection: &str, url: &str, title: &str, body: &str, at: i64) -> ExportedDoc {
    ExportedDoc {
        collection: collection.to_string(),
        url: url.to_string(),
        title: title.to_string(),
        body: body.to_string(),
        indexed_at: at,
    }
}

fn document(url: &str, title: &str, body: &str, at: i64) -> ExportedDocument {
    ExportedDocument {
        url: url.to_string(),
        title: title.to_string(),
        body: body.to_string(),
        indexed_at: at,
    }
}

fn seeded(self_url: &str, docs: &Vec<ExportedDoc>) -> ExportEnvelope {
    build_envelope(
        self_url,
        "2024-06-01T00:00:00Z",
        vec![tech()],
        docs,
        node_peers(),
        collection_peers(),
    )
}

#[test]
fn build_envelope_collects_seeded_data() {
    let env = seeded("https://self.example/", &Vec::new());
    assert_eq!(env.format_version, FORMAT_VERSION);
    assert_eq!(env.self_url, "https://self.example/");
    assert_eq!(env.collections.len(), 1);
    let c = &env.collections[0];
    assert_eq!(c.name, "tech");
    assert_eq!(c.crawl_targets.len(), 1);
    assert_eq!(c.crawl_targets[0].url_prefix, "https://example.com/");
    assert_eq!(c.crawl_targets[0].crawled_pages.len(), 1);
    assert_eq!(c.crawl_targets[0].crawled_pages[0].url, "https://example.com/post1");
    let rc = c.ranking_config.as_ref().expect("ranking config exported");
    assert!((f64::from_bits(rc.freshness_half_life_days_bits) - 30.0).abs() < f64::EPSILON);
    assert_eq!(c.outlink_host_suggestions.len(), 1);
    assert_eq!(env.node_peers.len(), 1);
    assert_eq!(env.collection_peers.len(), 1);
    assert_eq!(
        env.collection_peers[0].node_peer_url,
        "https://peer.example/"
    );
}

#[test]
fn documents_go_to_the_collection_of_their_name() {
    let docs = vec![
        indexed("tech", "https://a/1", "1", "x", 1),
        indexed("gone", "https://a/2", "2", "y", 2),
        indexed("tech", "https://a/3", "3", "z", 3),
    ];
    let env = seeded("", &docs);
    let urls: Vec<&str> = env.collections[0].documents.iter().map(|d| d.url.as_str()).collect();
    assert_eq!(urls, ["https://a/1", "https://a/3"]);
}

// ── import ───────────────────────────────────────────────────────────────────

#[test]
fn apply_envelope_imports_into_fresh_db() {
    let mut env = seeded("", &Vec::new());
    env.collections[0].documents = vec![
        document("https://example.com/post1", "Post 1", "alpha bravo", 1700000000),
        document("https://example.com/post2", "Post 2", "charlie delta", 1700000001),
    ];

    let import = apply_envelope(&env, &Vec::new(), &Vec::new(), "2024-07-01T00:00:00Z");
    let mut report = import.report;
    assert_eq!(import.collection_peers, [0]);
    note_collection_peer(&mut report, true);

    assert_eq!(report.collections_imported, 1);
    assert_eq!(report.collections_skipped, 0);
    assert_eq!(report.crawl_targets_imported, 1);
    assert_eq!(report.crawled_pages_imported, 1);
    assert_eq!(report.documents_queued, 2);
    assert_eq!(report.outlink_host_suggestions_imported, 1);
    assert_eq!(report.node_peers_imported, 1);
    assert_eq!(report.collection_peers_imported, 1);

    assert_eq!(import.collections.len(), 1);
    let c = &import.collections[0];
    assert_eq!(c.jobs.len(), 2);
    // All jobs use the new identity of the collection.
    for j in &c.jobs {
        assert_eq!(j.collection_id, c.id);
        assert_eq!(j.collection_name, "tech");
    }
    assert_eq!(c.jobs[0].content_hash, doc_content_hash(&env.collections[0].documents[0]));
    assert_eq!(c.created_at, "2024-01-01T00:00:00Z");
    assert_eq!(c.updated_at, "2024-07-01T00:00:00Z", "a missing time is stamped");
    assert_eq!(c.crawl_targets.len(), 1);
    assert_eq!(c.crawl_targets[0].collection_id, c.id);
    assert_ne!(c.crawl_targets[0].id, c.id);
    assert_eq!(c.crawl_targets[0].crawled_pages.len(), 1);
    let page = &c.crawl_targets[0].crawled_pages[0];
    assert_eq!(page.content_hash.as_deref(), Some("h1"));
    assert_eq!(page.indexed_content_hash, None, "nothing is in the index here yet");
    assert_eq!(c.outlink_host_suggestions.len(), 1);
    assert_eq!(c.outlink_host_suggestions[0].suggestion.host, "other.example");
    assert!(c.ranking_config.is_some());
}

#[test]
fn apply_envelope_skips_existing_collection_by_name() {
    let mut env = seeded("", &Vec::new());
    env.collections[0].documents.push(document("https://example.com/x", "x", "x", 1));

    let import = apply_envelope(&env, &vec!["tech".to_string()], &Vec::new(), "now");
    assert_eq!(import.report.collections_imported, 0);
    assert_eq!(import.report.collections_skipped, 1);
    assert_eq!(import.report.documents_queued, 0);
    assert_eq!(import.report.crawl_targets_imported, 0);
    assert!(
        import.collections.is_empty(),
        "no docs queued when collection is skipped"
    );
    assert_eq!(import.collection_peers, [0], "its subscriptions are still taken over");
}

#[test]
fn documents_roundtrip_through_envelope() {
    let docs = vec![
        indexed("tech", "https://example.com/post1", "Async Rust", "tokio is great", 1700000000),
        indexed("tech", "https://example.com/post2", "Cast iron", "skillet recipes", 1700000001),
    ];
    let env = seeded("", &docs);
    assert_eq!(env.collections[0].documents.len(), 2);
    let import = apply_envelope(&env, &Vec::new(), &Vec::new(), "now");
    let jobs = &import.collections[0].jobs;
    assert_eq!(jobs.len(), 2);
    for (job, doc) in jobs.iter().zip(&docs) {
        assert_eq!(job.collection_name, doc.collection);
        assert_eq!(job.url, doc.url);
        assert_eq!(job.title, doc.title);
        assert_eq!(job.body, doc.body);
        assert_eq!(job.indexed_at, doc.indexed_at);
    }
}

#[test]
fn rows_take_the_identities_they_are_given() {
    let ids = ImportIds {
        collection: "c".to_string(),
        targets: vec!["t".to_string()],
        suggestions: vec!["s".to_string()],
    };
    let mut c = tech();
    c.documents.push(document("https://example.com/x", "x", "x", 1));
    let r = import_collection_as(&c, &ids, "now");
    assert_eq!(r.id, "c");
    assert_eq!(r.crawl_targets[0].id, "t");
    assert_eq!(r.crawl_targets[0].collection_id, "c");
    assert_eq!(r.outlink_host_suggestions[0].id, "s");
    assert_eq!(r.jobs[0].collection_id, "c");
}

#[test]
fn an_instance_survives_the_journey() {
    let docs = vec![
        indexed("tech", "https://example.com/post1", "Async Rust", "tokio is great", 1700000000),
        indexed("food", "https://example.com/post2", "Cast iron", "skillet recipes", 1700000001),
    ];
    let mut first = tech();
    first.updated_at = "2024-02-01T00:00:00Z".to_string();
    let mut second = first.clone();
    second.name = "food".to_string();
    let sent = build_envelope(
        "https://self.example/",
        "2024-06-01T00:00:00Z",
        vec![first, second],
        &docs,
        node_peers(),
        collection_peers(),
    );
    let import = apply_envelope(&sent, &Vec::new(), &Vec::new(), "2024-07-01T00:00:00Z");

    // The other instance hands its rows out in another order.
    let mut held_docs = Vec::new();
    let mut dumps = Vec::new();
    for c in import.collections.iter().rev() {
        for j in &c.jobs {
            held_docs.push(indexed(&j.collection_name, &j.url, &j.title, &j.body, j.indexed_at));
        }
        dumps.push(ExportedCollection {
            name: c.name.clone(),
            description: c.description.clone(),
            created_at: c.created_at.clone(),
            updated_at: c.updated_at.clone(),
            crawl_targets: c
                .crawl_targets
                .iter()
                .map(|t| ExportedCrawlTarget {
                    url_prefix: t.url_prefix.clone(),
                    recrawl_interval_s: t.recrawl_interval_s,
                    recrawl_interval_secs: t.recrawl_interval_secs,
                    enabled: t.enabled,
                    crawl_delay_secs: t.crawl_delay_secs,
                    created_at: t.created_at.clone(),
                    crawled_pages: t.crawled_pages.clone(),
                })
                .collect(),
            ranking_config: c.ranking_config.clone(),
            documents: Vec::new(),
            outlink_host_suggestions: c
                .outlink_host_suggestions
                .iter()
                .map(|s| s.suggestion.clone())
                .collect(),
        });
    }
    let peers = import.node_peers.iter().map(|i| sent.node_peers[*i].clone()).collect();
    let subscriptions =
        import.collection_peers.iter().map(|i| sent.collection_peers[*i].clone()).collect();
    let received = build_envelope(
        "https://self.example/",
        "2024-08-01T00:00:00Z",
        dumps,
        &held_docs,
        peers,
        subscriptions,
    );

    let mut expected = sent;
    expected.exported_at = "2024-08-01T00:00:00Z".to_string();
    for c in &mut expected.collections {
        for t in &mut c.crawl_targets {
            for p in &mut t.crawled_pages {
                p.indexed_content_hash = None;
            }
        }
    }
    assert_eq!(format!("{received:?}"), format!("{expected:?}"));
    let names: Vec<&str> = received.collections.iter().map(|c| c.name.as_str()).collect();
    assert_eq!(names, ["food", "tech"], "collections come in the order of their names");
    assert_eq!(received.collections[1].documents[0].title, "Async Rust");
}

#[test]
fn plans_leave_out_what_is_known_or_comes_twice() {
    let mut env = seeded("", &Vec::new());
    env.collections.push(tech());
    env.node_peers.push(node_peers().remove(0));
    env.collection_peers.push(ExportedCollectionPeer {
        local_collection: "unknown".to_string(),
        ..collection_peers().remove(0)
    });
    let plan = plan_import(&env, &Vec::new(), &Vec::new());
    assert_eq!(plan.collections, [0]);
    assert_eq!(plan.node_peers, [0]);
    assert_eq!(plan.collection_peers, [0]);
    assert_eq!(plan.report.collections_skipped, 1);
    assert_eq!(plan.report.node_peers_skipped, 1);
    assert_eq!(plan.report.collection_peers_skipped, 1);

    let again = plan_import(
        &env,
        &vec!["tech".to_string()],
        &vec!["https://peer.example/".to_string()],
    );
    assert!(again.collections.is_empty());
    assert!(again.node_peers.is_empty());
    assert_eq!(again.report.documents_queued, 0);
    let mut report = again.report;
    note_collection_peer(&mut report, false);
    assert_eq!(report.collection_peers_skipped, 2);
    assert_eq!(report.collection_peers_imported, 0);
}

#[test]
fn import_accepts_both_gzip_and_plain_json() {
    let plain = "{\"collections\": [\"tech\", \"tech\", \"tech\", \"tech\", \"tech\", \"tech\"]}"
        .repeat(4)
        .into_bytes();
    let gzipped = encode_body(&plain);
    assert!(
        gzipped.len() < plain.len(),
        "gzip should shrink the payload"
    );
    assert_eq!(&gzipped[..2], &GZIP_MAGIC);

    for (label, bytes, packed) in [("plain", plain.clone(), false), ("gzip", gzipped, true)] {
        let read = decode_body(bytes).unwrap();
        assert_eq!(read.json, plain, "{label} parse");
        assert_eq!(read.gzipped, packed, "{label} parse");
    }
}

#[test]
fn bodies_that_cannot_be_read_are_refused() {
    let reply = decode_body(vec![0x1f, 0x8b, 1, 2, 3]).unwrap_err();
    assert_eq!(reply.status, 400);
    assert!(reply.body.starts_with("gzip decode failed: "));
    assert_eq!(json_refusal(true, "x").body, "invalid JSON in gzip: x");
    assert_eq!(json_refusal(false, "x").body, "invalid JSON: x");
    assert!(check_format(FORMAT_VERSION).is_ok());
    let reply = check_format(2).unwrap_err();
    assert_eq!(reply.status, 400);
    assert_eq!(reply.body, "unsupported format_version 2: this build understands 1");
    assert_eq!(ImportReport::default().collections_imported, 0);
}

#[test]
fn doc_content_hash_is_stable() {
    let d = document("https://e.com/", "t", "hello world", 1);
    assert_eq!(doc_content_hash(&d), doc_content_hash(&d));
    assert_eq!(
        doc_content_hash(&d),
        "b94d27b9934d3e08a52e52d7da7dabfac484efe37a5380ee9088f7ace2efcde9"
    );
    let d2 = ExportedDocument {
        body: "different".to_string(),
        ..d
    };
    assert_ne!(
        doc_content_hash(&document("https://e.com/", "t", "hello world", 1)),
        doc_content_hash(&d2)
    );
}

// ── crawl targets and collections ────────────────────────────────────────────

fn add() -> CrawlTargetAction {
    CrawlTargetAction::Add {
        collection_id: 1,
        url_prefix: "https://www.example.com/".to_string(),
        recrawl_interval_secs: 3600,
    }
}

#[test]
fn targets_are_added_under_their_canonical_prefix() {
    let detected = Some("https://example.com/".to_string());
    match handle_crawl_targets(add(), detected, true, Vec::new(), "now").unwrap() {
        TargetChange::Add {
            collection_id,
            target,
        } => {
            assert_eq!(collection_id, 1);
            assert_eq!(target.url_prefix, "https://example.com/");
            assert_eq!(target.recrawl_interval_s, 3600);
            assert_eq!(target.recrawl_interval_secs, 3600);
            assert_eq!(target.created_at, "now");
            assert_eq!(target.id.len(), 36);
        }
        other => panic!("unexpected {:?}", other),
    }
    match handle_crawl_targets(add(), None, true, Vec::new(), "now").unwrap() {
        TargetChange::Add { target, .. } => {
            assert_eq!(target.url_prefix, "https://www.example.com/")
        }
        other => panic!("unexpected {:?}", other),
    }
}

#[test]
fn missing_rows_are_not_found() {
    let reply = handle_crawl_targets(add(), None, false, Vec::new(), "now").unwrap_err();
    assert_eq!((reply.status, reply.body.as_str()), (404, "collection 1 not found"));
    for action in [
        CrawlTargetAction::Remove { id: -7 },
        CrawlTargetAction::SetInterval {
            id: -7,
            recrawl_interval_secs: 1,
        },
        CrawlTargetAction::SetCrawlDelay {
            id: -7,
            crawl_delay_secs: None,
        },
    ] {
        let reply = handle_crawl_targets(action, None, false, Vec::new(), "now").unwrap_err();
        assert_eq!((reply.status, reply.body.as_str()), (404, "crawl target -7 not found"));
    }
}

#[test]
fn removed_targets_take_their_documents_with_them() {
    let urls = vec!["https://example.com/a".to_string()];
    match handle_crawl_targets(CrawlTargetAction::Remove { id: 3 }, None, true, urls.clone(), "now")
        .unwrap()
    {
        TargetChange::Remove { id, delete } => {
            assert_eq!(id, 3);
            assert_eq!(delete, Some(urls));
        }
        other => panic!("unexpected {:?}", other),
    }
    match handle_crawl_targets(CrawlTargetAction::Remove { id: 3 }, None, true, Vec::new(), "now")
        .unwrap()
    {
        TargetChange::Remove { delete, .. } => assert_eq!(delete, None),
        other => panic!("unexpected {:?}", other),
    }
}

#[test]
fn intervals_and_delays_are_set() {
    let action = CrawlTargetAction::SetInterval {
        id: 3,
        recrawl_interval_secs: 7200,
    };
    match handle_crawl_targets(action, None, true, Vec::new(), "now").unwrap() {
        TargetChange::SetInterval {
            id,
            recrawl_interval_s,
            recrawl_interval_secs,
        } => assert_eq!((id, recrawl_interval_s, recrawl_interval_secs), (3, 7200, 7200)),
        other => panic!("unexpected {:?}", other),
    }
    let action = CrawlTargetAction::SetCrawlDelay {
        id: 3,
        crawl_delay_secs: Some(5),
    };
    match handle_crawl_targets(action, None, true, Vec::new(), "now").unwrap() {
        TargetChange::SetCrawlDelay {
            id,
            crawl_delay_secs,
        } => assert_eq!((id, crawl_delay_secs), (3, Some(5))),
        other => panic!("unexpected {:?}", other),
    }
}

#[test]
fn collections_are_changed_where_they_are_there() {
    let create = CollectionAction::Create {
        name: "n".to_string(),
        description: "d".to_string(),
    };
    match handle_collections(create, false, "now").unwrap() {
        CollectionChange::Create { collection } => {
            assert_eq!(collection.name, "n");
            assert_eq!(collection.created_at, "now");
        }
        other => panic!("unexpected {:?}", other),
    }
    let update = || CollectionAction::Update {
        id: 2,
        name: "n".to_string(),
        description: "d".to_string(),
    };
    match handle_collections(update(), true, "now").unwrap() {
        CollectionChange::Update {
            id,
            name,
            description,
            updated_at,
        } => {
            assert_eq!(id, 2);
            assert_eq!((name.as_str(), description.as_str()), ("n", "d"));
            assert_eq!(updated_at, "now");
        }
        other => panic!("unexpected {:?}", other),
    }
    for action in [update(), CollectionAction::Delete { id: 2 }] {
        let reply = handle_collections(action, false, "now").unwrap_err();
        assert_eq!((reply.status, reply.body.as_str()), (404, "collection 2 not found"));
    }
    assert!(matches!(
        handle_collections(CollectionAction::Delete { id: 2 }, true, "now"),
        Ok(CollectionChange::Delete { id: 2 })
    ));
}

// ── discovered engines, peers and gossip ─────────────────────────────────────

#[test]
fn discovered_engines_are_promoted_to_peers() {
    let engine = DiscoveredEngine {
        url: "https://e".to_string(),
        name: "E".to_string(),
        description: String::new(),
        first_seen: 1,
        last_seen: 2,
    };
    let peer = promote_discovered(&Some(engine), 9).unwrap();
    assert_eq!(peer.url, "https://e");
    assert_eq!(peer.name.as_deref(), Some("E"));
    assert!(peer.enabled);
    assert_eq!(peer.created_at, 9);
    let reply = promote_discovered(&None, 9).unwrap_err();
    assert_eq!((reply.status, reply.body.as_str()), (404, "unknown discovered engine"));
}

#[test]
fn the_own_entry_cannot_be_removed() {
    let reply = remove_discovered("https://me", "https://me", true).unwrap_err();
    assert_eq!((reply.status, reply.body.as_str()), (400, "cannot remove self-entry"));
    let reply = remove_discovered("https://x", "https://me", false).unwrap_err();
    assert_eq!((reply.status, reply.body.as_str()), (404, "no such discovered engine"));
    assert!(remove_discovered("https://x", "https://me", true).is_ok());
}

#[test]
fn gossip_is_triggered_by_hand() {
    assert!(refused_status(200).is_ok());
    let reply = refused_status(502).unwrap_err();
    assert_eq!((reply.status, reply.body.as_str()), (400, "peer returned status 502"));

    let answer = ExchangeResponse {
        protocol_version: "1.0".to_string(),
        engines: vec![EngineSummary {
            url: "https://n".to_string(),
            name: "N".to_string(),
            description: String::new(),
        }],
    };
    let (told, merged) = trigger_gossip(Vec::new(), &answer, 5).unwrap();
    assert_eq!(told.status, "ok");
    assert_eq!((told.sent_count, told.received_count), (0, 1));
    assert_eq!(merged[0].url, "https://n");

    let other = ExchangeResponse {
        protocol_version: "3.1".to_string(),
        engines: Vec::new(),
    };
    let reply = trigger_gossip(Vec::new(), &other, 5).unwrap_err();
    assert_eq!(
        (reply.status, reply.body.as_str()),
        (400, "incompatible protocol version: peer=3.1 ours=1.0")
    );
}

#[test]
fn subscribe_rejects_unknown_node_peer() {
    let req = SubscribeReq {
        local_collection: "l".to_string(),
        node_peer_id: 9999,
        remote_collection: "r".to_string(),
        source_weight_bits: 1.0f32.to_bits(),
    };
    let reply = subscribe(&req, false, 7).unwrap_err();
    assert_eq!((reply.status, reply.body.as_str()), (400, "node_peer_id does not exist"));
    let s = subscribe(&req, true, 7).unwrap();
    assert_eq!(s.node_peer_id, 9999);
    assert!(s.enabled);
    assert_eq!(s.created_at, 7);
}

#[test]
fn unknown_peers_cannot_be_browsed() {
    let peer = Some(new_node_peer("https://p", &None, 1));
    assert_eq!(browsed_url(&peer, 1).unwrap(), "https://p");
    let reply = browsed_url(&None, 12).unwrap_err();
    assert_eq!((reply.status, reply.body.as_str()), (404, "node peer 12 not found"));
}

// ── suggestions, ranking, settings, state ────────────────────────────────────

#[test]
fn suggestions_become_targets() {
    let row = Some(OutlinkHostRecord {
        rowid: 4,
        collection_id: "c".to_string(),
        host: "other.example".to_string(),
    });
    let t = promote_outlink(&row, 4, None, 60, "now").unwrap();
    assert_eq!(t.url_prefix, "https://other.example/");
    assert_eq!(t.recrawl_interval_secs, 60);
    let t = promote_outlink(&row, 4, Some("https://other.example/b/".to_string()), 60, "now").unwrap();
    assert_eq!(t.url_prefix, "https://other.example/b/");
    let reply = promote_outlink(&None, 4, None, 60, "now").unwrap_err();
    assert_eq!((reply.status, reply.body.as_str()), (404, "outlink 4 not found"));
    assert!(dismiss_outlink(true, 4).is_ok());
    assert_eq!(dismiss_outlink(false, 4).unwrap_err().body, "outlink 4 not found");
}

#[test]
fn rankings_belong_to_collections() {
    assert_eq!(named_collection(Some(3)).unwrap(), 3);
    let reply = named_collection(None).unwrap_err();
    assert_eq!((reply.status, reply.body.as_str()), (400, "collection_id must be an integer"));
    assert!(put_ranking(3, true).is_ok());
    assert_eq!(put_ranking(3, false).unwrap_err().body, "collection 3 not found");
    assert_eq!(get_ranking(Some("{}".to_string()), 3).unwrap(), "{}");
    let reply = get_ranking(None, 3).unwrap_err();
    assert_eq!(
        (reply.status, reply.body.as_str()),
        (404, "no ranking config for collection 3")
    );
}

#[test]
fn settings_change_where_a_change_holds_them() {
    let mut cfg = RuntimeConfig::default();
    let mut limits = RateLimitConfig::default();
    let change = RuntimeConfig {
        fanout_depth: Some(2),
        max_concurrent_crawls: Some(8),
        ..RuntimeConfig::default()
    };
    put_config(&mut cfg, &mut limits, &change);
    assert_eq!(cfg, change);
    assert_eq!(limits.limit, 30, "the limit stays where the change does not hold one");
    let second = RuntimeConfig {
        search_rate_limit_per_minute: Some(5),
        crawl_politeness_delay_ms: Some(1),
        ..RuntimeConfig::default()
    };
    put_config(&mut cfg, &mut limits, &second);
    assert_eq!(cfg.fanout_depth, Some(2));
    assert_eq!(cfg.crawl_politeness_delay_ms, Some(1));
    assert_eq!(limits.limit, 5);
    assert_eq!(loaded(Some(cfg)), cfg);
    assert_eq!(loaded(None), RuntimeConfig::default());
}

#[test]
fn the_state_is_shown_within_bounds() {
    let s = get_status(Some(u64::MAX), 10, Some(4), -3, true);
    assert_eq!(s.index_size_bytes, i64::MAX);
    assert_eq!(s.max_index_bytes, 10);
    assert_eq!(s.crawl_targets_total, 4);
    assert_eq!(s.indexing_pending_count, 0);
    assert!(s.crawl_paused);
    assert_eq!((s.crawls_active, s.crawls_queued), (0, 0));
    let s = get_status(None, 10, None, 2, false);
    assert_eq!(s.index_size_bytes, 0);
    assert_eq!(s.crawl_targets_total, 0);
    assert_eq!(s.indexing_pending_count, 2);
}
