use community_search::db::collections::{create, list_items, update, CollectionRecord};
use community_search::db::crawl_targets::page_state;
use community_search::db::crawled_pages::{mark_indexed_batch, upsert, CrawledPageRow, IndexedEntry};
use community_search::db::migrations::already_applied;
use community_search::db::outlink_hosts::{
    list_pending, mark_dismissed, mark_promoted, merge_example, record_hit, HostSightings,
    HostStatus, HostSuggestion, OutlinkExample, OutlinkHostRow, MAX_EXAMPLES,
};

// ── pages ────────────────────────────────────────────────────────────────────

fn page(url: &str) -> CrawledPageRow {
    CrawledPageRow {
        id: 0,
        collection_id: "1".to_string(),
        crawl_target_id: "1".to_string(),
        url: url.to_string(),
        etag: None,
        last_modified: None,
        content_hash: None,
        last_status: Some(200),
        last_crawled_at: 1_000,
        indexed_content_hash: None,
    }
}

#[test]
fn upsert_inserts_then_updates() {
    let page1 = CrawledPageRow {
        etag: Some("etag-v1".to_string()),
        ..page("https://example.com/page1")
    };
    let mut stored = upsert(&None, page1.clone());
    // The database numbers the row.
    stored.id = 7;
    stored.indexed_content_hash = Some("h".to_string());

    let page2 = CrawledPageRow {
        etag: Some("etag-v2".to_string()),
        last_crawled_at: 2_000,
        ..page1
    };
    let fetched = upsert(&Some(stored), page2);
    assert_eq!(fetched.id, 7, "conflict should preserve the original row id");
    assert_eq!(fetched.etag, Some("etag-v2".to_string()));
    assert_eq!(fetched.last_crawled_at, 2_000);
    assert_eq!(
        fetched.indexed_content_hash.as_deref(),
        Some("h"),
        "what was committed is not touched by a crawl"
    );
}

#[test]
fn mark_indexed_batch_updates_only_listed_rows() {
    let mk = |url: &str, hash: &str| CrawledPageRow {
        content_hash: Some(hash.to_string()),
        ..page(url)
    };
    let mut rows = vec![
        mk("https://example.com/a", "ha"),
        mk("https://example.com/b", "hb"),
        mk("https://example.com/c", "hc"),
    ];
    mark_indexed_batch(
        &mut rows,
        &vec![
            IndexedEntry {
                collection_id: "1",
                url: "https://example.com/a",
                content_hash: "ha",
            },
            IndexedEntry {
                collection_id: "1",
                url: "https://example.com/c",
                content_hash: "hc",
            },
            IndexedEntry {
                collection_id: "2",
                url: "https://example.com/b",
                content_hash: "hb",
            },
        ],
    );
    assert_eq!(rows[0].indexed_content_hash.as_deref(), Some("ha"));
    assert_eq!(rows[1].indexed_content_hash, None, "b was not in batch");
    assert_eq!(rows[2].indexed_content_hash.as_deref(), Some("hc"));
}

#[test]
fn targets_show_refusals_and_failures_apart() {
    assert_eq!(page_state(&Vec::new()), (false, 0));
    assert_eq!(
        page_state(&vec![Some(200), Some(429), Some(404), None, Some(500), Some(304)]),
        (true, 2)
    );
}

// ── suggested hosts ──────────────────────────────────────────────────────────

fn example(source: &str, target: &str, text: &str) -> OutlinkExample {
    OutlinkExample {
        source_url: source.into(),
        target_url: target.into(),
        link_text: text.into(),
    }
}

fn suggestion(id: i64, host: &str, s: HostSightings) -> HostSuggestion {
    HostSuggestion {
        row: OutlinkHostRow {
            id,
            host: host.to_string(),
            link_count: s.link_count,
            examples: s.examples,
            first_seen_at: s.first_seen_at,
            last_seen_at: s.last_seen_at,
        },
        status: s.status,
    }
}

#[test]
fn first_hit_inserts_row_with_count_one() {
    let s = record_hit(None, example("https://src/", "https://example.com/a", "anchor"), 100);
    let rows = list_pending(vec![suggestion(1, "example.com", s)], None, None);
    assert_eq!(rows.len(), 1);
    assert_eq!(rows[0].host, "example.com");
    assert_eq!(rows[0].link_count, 1);
    assert_eq!(rows[0].examples.len(), 1);
    assert_eq!(rows[0].first_seen_at, 100);
    assert_eq!(rows[0].last_seen_at, 100);
}

#[test]
fn second_hit_bumps_count_and_appends_example() {
    let s = record_hit(None, example("https://src/a", "https://example.com/1", "one"), 100);
    let s = record_hit(Some(s), example("https://src/b", "https://example.com/2", "two"), 200);
    let rows = list_pending(vec![suggestion(1, "example.com", s)], None, None);
    assert_eq!(rows.len(), 1);
    assert_eq!(rows[0].link_count, 2);
    assert_eq!(rows[0].examples.len(), 2);
    assert_eq!(rows[0].last_seen_at, 200);
    assert_eq!(rows[0].first_seen_at, 100, "first_seen_at must not move");
}

#[test]
fn examples_capped_at_max() {
    let mut s = None;
    for i in 0..MAX_EXAMPLES + 3 {
        s = Some(record_hit(
            s,
            example(&format!("https://src/{i}"), &format!("https://example.com/{i}"), "anchor"),
            100 + i as i64,
        ));
    }
    let rows = list_pending(vec![suggestion(1, "example.com", s.unwrap())], None, None);
    assert_eq!(rows[0].examples.len(), MAX_EXAMPLES);
    assert_eq!(rows[0].link_count, (MAX_EXAMPLES + 3) as i64);
}

#[test]
fn duplicate_example_does_not_grow_array() {
    let s = record_hit(None, example("https://src/x", "https://example.com/x", "same"), 100);
    let s = record_hit(Some(s), example("https://src/x", "https://example.com/x", "same"), 200);
    assert_eq!(s.link_count, 2, "count still bumps");
    assert_eq!(s.examples.len(), 1, "examples must not duplicate");
}

#[test]
fn dismissed_host_short_circuits_future_hits() {
    let mut s = record_hit(None, example("https://src/a", "https://example.com/1", "t"), 100);
    mark_dismissed(&mut s);
    let s = record_hit(Some(s), example("https://src/b", "https://example.com/2", "t"), 200);
    assert_eq!(s.link_count, 1, "dismissed row's count must not bump");
    assert_eq!(s.examples.len(), 1, "dismissed row's examples must not grow");
    assert!(list_pending(vec![suggestion(1, "example.com", s)], None, None).is_empty());
}

#[test]
fn promoted_host_also_short_circuits() {
    let mut s = record_hit(None, example("https://src/", "https://example.com/", "t"), 100);
    mark_promoted(&mut s, 42);
    assert_eq!(s.promoted_target_id, Some(42));
    assert_eq!(s.status.text(), "promoted");
    let s = record_hit(Some(s), example("https://src/b", "https://example.com/b", "t"), 200);
    assert_eq!(s.link_count, 1);
}

fn hits(host: &str, n: i64) -> HostSuggestion {
    let mut s = None;
    for i in 0..n {
        s = Some(record_hit(
            s,
            example(&format!("s{i}"), &format!("https://{host}/{i}"), "t"),
            100 + i,
        ));
    }
    suggestion(n, host, s.unwrap())
}

#[test]
fn list_orders_by_link_count_desc() {
    // a: 1 hit, b: 3 hits, c: 2 hits  → expected order b, c, a
    let rows = list_pending(vec![hits("a.com", 1), hits("b.com", 3), hits("c.com", 2)], None, None);
    let hosts: Vec<&str> = rows.iter().map(|r| r.host.as_str()).collect();
    assert_eq!(hosts, vec!["b.com", "c.com", "a.com"]);
}

#[test]
fn lists_are_cut_into_pages() {
    let all = || vec![hits("a.com", 1), hits("b.com", 3), hits("c.com", 2)];
    let hosts = |limit: Option<i64>, offset: Option<i64>| -> Vec<String> {
        list_pending(all(), limit, offset).into_iter().map(|r| r.host).collect()
    };
    assert_eq!(hosts(Some(2), None), ["b.com", "c.com"]);
    assert_eq!(hosts(Some(2), Some(1)), ["c.com", "a.com"]);
    assert_eq!(hosts(Some(0), None), ["b.com"], "a page holds one row at least");
    assert_eq!(hosts(None, Some(-5)), ["b.com", "c.com", "a.com"]);
    assert!(hosts(None, Some(3)).is_empty());
}

#[test]
fn examples_are_told_apart_by_page_and_target() {
    let mut examples = vec![example("s", "t", "x")];
    merge_example(&mut examples, example("s", "t", "another text"));
    assert_eq!(examples.len(), 1);
    merge_example(&mut examples, example("s", "u", "x"));
    assert_eq!(examples.len(), 2);
    assert_eq!(examples[1].target_url, "u");
}

// ── collections ──────────────────────────────────────────────────────────────

#[test]
fn collections_are_created_and_updated() {
    let mut c = create("rust", "about rust", "2024-01-01T00:00:00Z");
    assert_eq!(c.id.len(), 36);
    assert_eq!(c.id.matches('-').count(), 4);
    assert_eq!(c.created_at, c.updated_at);
    let id = c.id.clone();
    update(&mut c, "ferris", "crabs", "2024-02-02T00:00:00Z");
    assert_eq!(c.id, id);
    assert_eq!(c.name, "ferris");
    assert_eq!(c.description, "crabs");
    assert_eq!(c.created_at, "2024-01-01T00:00:00Z");
    assert_eq!(c.updated_at, "2024-02-02T00:00:00Z");
    assert_ne!(create("a", "", "").id, create("a", "", "").id);
}

#[test]
fn collections_are_listed_by_name() {
    let record = |id: i64, name: &str| CollectionRecord {
        id,
        name: name.to_string(),
        description: String::new(),
    };
    let listed = list_items(vec![record(1, "b"), record(2, "Z"), record(3, "a"), record(4, "ab")]);
    let ids: Vec<i64> = listed.iter().map(|c| c.id).collect();
    assert_eq!(ids, [2, 3, 4, 1]);
}

// ── layout ───────────────────────────────────────────────────────────────────

#[test]
fn repeated_changes_to_the_layout_are_recognised() {
    assert!(already_applied("duplicate column name: enabled"));
    assert!(!already_applied("no such table: x"));
}

#[test]
fn statuses_are_read_from_their_texts() {
    assert_eq!(HostStatus::read("pending"), HostStatus::Pending);
    assert_eq!(HostStatus::read("promoted"), HostStatus::Promoted);
    assert_eq!(HostStatus::read("dismissed"), HostStatus::Dismissed);
    assert_eq!(HostStatus::read("anything else"), HostStatus::Dismissed);
}

#[test]
fn the_last_entry_of_a_batch_wins() {
    let mut rows = vec![page("https://example.com/a")];
    let entry = |hash: &'static str| IndexedEntry {
        collection_id: "1",
        url: "https://example.com/a",
        content_hash: hash,
    };
    mark_indexed_batch(&mut rows, &vec![entry("h1"), entry("h2")]);
    assert_eq!(rows[0].indexed_content_hash.as_deref(), Some("h2"));
}
