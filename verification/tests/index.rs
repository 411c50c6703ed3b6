use community_search::crawler::error::CrawlError;
use community_search::db::crawled_pages::IndexedEntry;
use community_search::index::indexer::{
    after_flush, journal_entries, pending_count, AfterFlush, Batcher, IndexAction, IndexEvent,
    IndexJob, BATCH_SIZE, MAX_AGE_MS,
};
use community_search::index::reader::{excerpt, plain_excerpt, rewrite_site_filter};
use community_search::index::size::{check_capacity, shown_size, sum_sizes};
use community_search::index::writer::{host_field, Document, Journal};

fn mk_job(url: &str, hash: &str) -> IndexJob {
    IndexJob {
        collection_name: "test".into(),
        url: url.into(),
        title: "t".into(),
        body: "b".into(),
        indexed_at: 1_700_000_000,
        collection_id: "col1".into(),
        content_hash: hash.into(),
    }
}

#[test]
fn only_failed_commits_stop_the_indexer() {
    assert_eq!(after_flush(true, true), AfterFlush::GoOn);
    assert_eq!(after_flush(true, false), AfterFlush::Warn);
    assert_eq!(after_flush(false, true), AfterFlush::Stop);
    assert_eq!(after_flush(false, false), AfterFlush::Stop);
}

// ── batches ──────────────────────────────────────────────────────────────────

#[test]
fn commits_at_batch_size_threshold() {
    let mut batcher = Batcher::start(0);
    let mut journal = Journal::new();
    let mut committed = 0;
    for i in 0..BATCH_SIZE {
        let job = mk_job(&format!("https://example.com/{i}"), &format!("h{i}"));
        journal.upsert(&job.as_document());
        if batcher.step(IndexEvent::Job, 1) == IndexAction::Flush {
            let entries = journal.commit(true).unwrap();
            committed += entries.len();
        }
    }
    assert_eq!(
        committed, BATCH_SIZE,
        "exactly BATCH_SIZE rows must be journaled after the size-trigger commit"
    );
    assert_eq!(journal.len(), 0);
}

#[test]
fn commits_at_max_age_when_under_batch_size() {
    let mut batcher = Batcher::start(0);
    for _ in 0..3 {
        assert_eq!(batcher.step(IndexEvent::Job, 10), IndexAction::Wait);
    }
    assert_eq!(batcher.deadline, MAX_AGE_MS);
    assert_eq!(
        batcher.step(IndexEvent::Deadline, MAX_AGE_MS),
        IndexAction::Flush,
        "time-based trigger must commit small batches"
    );
    assert_eq!(batcher.step(IndexEvent::Deadline, 2 * MAX_AGE_MS), IndexAction::Wait);
    assert_eq!(batcher.deadline, 3 * MAX_AGE_MS);
}

#[test]
fn final_flush_on_channel_close() {
    let mut batcher = Batcher::start(0);
    assert_eq!(batcher.step(IndexEvent::Job, 1), IndexAction::Wait);
    assert_eq!(batcher.step(IndexEvent::Job, 2), IndexAction::Wait);
    assert_eq!(
        batcher.step(IndexEvent::JobsClosed, 3),
        IndexAction::FlushAndStop,
        "final flush must commit the tail before exit"
    );
    assert!(batcher.stopped);
}

#[test]
fn delete_batch_commits_immediately() {
    let mut batcher = Batcher::start(0);
    batcher.step(IndexEvent::Job, 1);
    assert_eq!(batcher.step(IndexEvent::Deletes, 100), IndexAction::Flush);
    assert_eq!(batcher.pending, 0);
    assert_eq!(batcher.deadline, 100 + MAX_AGE_MS);
    assert_eq!(batcher.step(IndexEvent::DeletesClosed, 101), IndexAction::Wait);
    assert!(!batcher.delete_open);
}

#[test]
fn pending_pages_are_never_shown_below_zero() {
    assert_eq!(pending_count(3), 3);
    assert_eq!(pending_count(0), 0);
    assert_eq!(pending_count(-2), 0);
}

// ── the journal ──────────────────────────────────────────────────────────────

#[test]
fn commit_returns_pending_journal_then_clears_it() {
    let mut writer = Journal::new();
    writer.upsert(&Document {
        collection: "tech",
        url: "https://a.example/1",
        title: "t1",
        body: "b1",
        indexed_at: 1_700_000_000,
        collection_id: "col-uuid-tech",
        content_hash: "h1",
    });
    writer.upsert(&Document {
        collection: "tech",
        url: "https://a.example/2",
        title: "t2",
        body: "b2",
        indexed_at: 1_700_000_001,
        collection_id: "col-uuid-tech",
        content_hash: "h2",
    });

    let journal = writer.commit(true).unwrap();
    assert_eq!(journal.len(), 2);
    assert_eq!(journal[0].url, "https://a.example/1");
    assert_eq!(journal[0].content_hash, "h1");
    assert_eq!(journal[1].url, "https://a.example/2");
    assert_eq!(journal[1].content_hash, "h2");

    let marked: Vec<IndexedEntry> = journal_entries(&journal);
    assert_eq!(marked.len(), 2);
    assert_eq!(marked[1].collection_id, "col-uuid-tech");
    assert_eq!(marked[1].url, "https://a.example/2");

    // Pending was drained: a second commit with no upserts returns empty.
    let journal2 = writer.commit(true).unwrap();
    assert!(
        journal2.is_empty(),
        "second commit must drain pending; got {:?}",
        journal2
    );
}

#[test]
fn dropping_without_commit_loses_pending_silently() {
    let mut writer = Journal::new();
    writer.upsert(&mk_job("https://example.com/uncommitted", "h").as_document());
    assert!(
        writer.commit(false).is_none(),
        "a commit that failed must not yield a journal"
    );
    assert_eq!(writer.len(), 1, "what was not committed stays pending");
}

#[test]
fn hosts_are_indexed_in_lower_case() {
    assert_eq!(host_field("https://www.Example.com:8080/x"), "www.example.com");
    assert_eq!(host_field("https://m.example.com/x"), "m.example.com");
    assert_eq!(host_field("a.example/1"), "");
}

// ── sizes ────────────────────────────────────────────────────────────────────

#[test]
fn size_of_empty_dir_is_zero() {
    assert_eq!(sum_sizes(&Vec::new()), 0);
}

#[test]
fn size_sums_files_recursively() {
    assert_eq!(sum_sizes(&vec![100, 250]), 350);
}

#[test]
fn sizes_never_overflow() {
    assert_eq!(sum_sizes(&vec![u64::MAX, 1]), u64::MAX);
}

#[test]
fn check_capacity_errors_when_full() {
    // used == max => full
    assert!(matches!(
        check_capacity(100, 100),
        Err(CrawlError::IndexFull { used: 100, max: 100 })
    ));

    // used > max => full
    assert!(matches!(
        check_capacity(101, 100),
        Err(CrawlError::IndexFull { used: 101, max: 100 })
    ));

    // used < max => ok
    assert!(check_capacity(99, 100).is_ok());
}

#[test]
fn sizes_are_shown_within_their_type() {
    assert_eq!(shown_size(350), 350);
    assert_eq!(shown_size(u64::MAX), i64::MAX);
}

// ── queries ──────────────────────────────────────────────────────────────────

#[test]
fn rewrite_site_filter_basic() {
    assert_eq!(rewrite_site_filter("site:example.com"), "+host:example.com");
    assert_eq!(
        rewrite_site_filter("rust site:example.com"),
        "rust +host:example.com"
    );
    // Quoted phrase containing the literal "site:" must be preserved.
    assert_eq!(rewrite_site_filter("\"site:foo\""), "\"site:foo\"");
    // Mid-word "site" should not be rewritten.
    assert_eq!(rewrite_site_filter("offsite:foo"), "offsite:foo");
    // No-op on empty / no-match input.
    assert_eq!(rewrite_site_filter("just words"), "just words");
}

#[test]
fn queries_are_rewritten_once_and_each_for_itself() {
    for q in ["site:site:a", "x \"site:a\" site:b", "+site:a (site:b", "\"open site:a"] {
        let once = rewrite_site_filter(q);
        assert_eq!(rewrite_site_filter(&once), once, "{q}");
    }
    let (a, b) = ("\"site:x\" off", "site:y \"z");
    assert_eq!(
        rewrite_site_filter(&format!("{a} {b}")),
        format!("{} {}", rewrite_site_filter(a), rewrite_site_filter(b))
    );
}

#[test]
fn site_filters_may_follow_brackets_and_signs() {
    assert_eq!(rewrite_site_filter("(site:a.org)"), "(+host:a.org)");
    assert_eq!(rewrite_site_filter("-site:a.org"), "-+host:a.org");
    assert_eq!(rewrite_site_filter("a\tsite:b site:c"), "a\t+host:b +host:c");
    assert_eq!(rewrite_site_filter(""), "");
}

#[test]
fn excerpts_are_cut_by_characters() {
    let long = "é".repeat(300);
    assert_eq!(plain_excerpt(&long), "é".repeat(220));
    assert_eq!(plain_excerpt("short"), "short");
    assert_eq!(excerpt(Some("<b>x</b>".to_string()), "body"), "<b>x</b>");
    assert_eq!(excerpt(None, "body"), "body");
}
