//! The indexer: batches pages for the index and decides when to commit.

use vstd::prelude::*;
use crate::db::crawled_pages::{IndexedEntry, IndexedModel};
use crate::index::writer::{Document, EntryModel, JournalEntry};

verus! {

/// How many written pages force a commit.
pub const BATCH_SIZE: usize = 50;

/// How long a written page may wait for a commit, in milliseconds.
pub const MAX_AGE_MS: u64 = 5_000;

/// How many jobs may wait for the indexer before crawlers are held back.
pub const CHANNEL_CAPACITY: usize = 256;

/// One page ready for the index.
#[derive(Debug, Clone)]
pub struct IndexJob {
    pub collection_name: String,
    pub url: String,
    pub title: String,
    pub body: String,
    pub indexed_at: i64,
    pub collection_id: String,
    pub content_hash: String,
}

pub struct JobModel {
    pub collection_name: Seq<char>,
    pub url: Seq<char>,
    pub title: Seq<char>,
    pub body: Seq<char>,
    pub indexed_at: i64,
    pub collection_id: Seq<char>,
    pub content_hash: Seq<char>,
}

impl DeepView for IndexJob {
    type V = JobModel;

    open spec fn deep_view(&self) -> JobModel {
        JobModel {
            collection_name: self.collection_name@,
            url: self.url@,
            title: self.title@,
            body: self.body@,
            indexed_at: self.indexed_at,
            collection_id: self.collection_id@,
            content_hash: self.content_hash@,
        }
    }
}

impl IndexJob {
    /// The job as a document of the index.
    pub fn as_document(&self) -> (r: Document<'_>)
        ensures
            r.collection@ == self.collection_name@,
            r.url@ == self.url@,
            r.title@ == self.title@,
            r.body@ == self.body@,
            r.indexed_at == self.indexed_at,
            r.collection_id@ == self.collection_id@,
            r.content_hash@ == self.content_hash@,
    {
        Document {
            collection: self.collection_name.as_str(),
            url: self.url.as_str(),
            title: self.title.as_str(),
            body: self.body.as_str(),
            indexed_at: self.indexed_at,
            collection_id: self.collection_id.as_str(),
            content_hash: self.content_hash.as_str(),
        }
    }
}

// ---------------------------------------------------------------------------
// Batches
// ---------------------------------------------------------------------------

/// What reaches the indexer.
#[derive(Debug, Clone, Copy, PartialEq, Eq, Structural)]
pub enum IndexEvent {
    /// A page was written to the index.
    Job,
    /// No more pages will come.
    JobsClosed,
    /// Pages were deleted from the index.
    Deletes,
    /// No more deletions will come.
    DeletesClosed,
    /// The deadline has passed.
    Deadline,
}

/// What the indexer has to do.
#[derive(Debug, Clone, Copy, PartialEq, Eq, Structural)]
pub enum IndexAction {
    /// Wait for the next event.
    Wait,
    /// Commit, then wait for the next event.
    Flush,
    /// Commit, then stop.
    FlushAndStop,
}

/// Decides when to commit. Times are milliseconds of a clock that never goes
/// back.
#[derive(Debug, Clone, Copy, PartialEq, Eq, Structural)]
pub struct Batcher {
    /// Pages written since the last commit.
    pub pending: usize,
    /// The time of the next forced commit.
    pub deadline: u64,
    /// Deletions may still come.
    pub delete_open: bool,
    /// The indexer has stopped.
    pub stopped: bool,
}

impl Batcher {
    /// What holds of a batcher between two events.
    pub open spec fn valid(self) -> bool {
        self.pending < BATCH_SIZE
    }

    /// The batcher after a commit at `now`.
    pub open spec fn flushed(self, now: u64) -> Batcher {
        Batcher { pending: 0, deadline: (now + MAX_AGE_MS) as u64, ..self }
    }

    /// What an event at `now` calls for, and the batcher after it. A full
    /// batch, a deletion and a deadline with pages pending each force a
    /// commit; the end of the pages does so too and stops the indexer.
    pub open spec fn stepped(self, event: IndexEvent, now: u64) -> (IndexAction, Batcher) {
        match event {
            IndexEvent::Job => if self.pending + 1 >= BATCH_SIZE {
                (IndexAction::Flush, self.flushed(now))
            } else {
                (IndexAction::Wait, Batcher { pending: (self.pending + 1) as usize, ..self })
            },
            IndexEvent::JobsClosed => (
                IndexAction::FlushAndStop,
                Batcher { pending: 0, stopped: true, ..self },
            ),
            IndexEvent::Deletes => (IndexAction::Flush, self.flushed(now)),
            IndexEvent::DeletesClosed => (
                IndexAction::Wait,
                Batcher { delete_open: false, ..self },
            ),
            IndexEvent::Deadline => if self.pending > 0 {
                (IndexAction::Flush, self.flushed(now))
            } else {
                (
                    IndexAction::Wait,
                    Batcher { deadline: (now + MAX_AGE_MS) as u64, ..self },
                )
            },
        }
    }

    /// A batcher that starts at `now`.
    pub fn start(now: u64) -> (r: Batcher)
        requires
            now + MAX_AGE_MS <= u64::MAX,
        ensures
            r.valid(),
            r == (Batcher {
                pending: 0,
                deadline: (now + MAX_AGE_MS) as u64,
                delete_open: true,
                stopped: false,
            }),
    {
        Batcher { pending: 0, deadline: now + MAX_AGE_MS, delete_open: true, stopped: false }
    }

    /// Takes in an event at `now` and says what it calls for.
    pub fn step(&mut self, event: IndexEvent, now: u64) -> (r: IndexAction)
        requires
            old(self).valid(),
            now + MAX_AGE_MS <= u64::MAX,
        ensures
            final(self).valid(),
            (r, *final(self)) == old(self).stepped(event, now),
    {
        match event {
            IndexEvent::Job => {
                self.pending = self.pending + 1;
                if self.pending >= BATCH_SIZE {
                    self.pending = 0;
                    self.deadline = now + MAX_AGE_MS;
                    IndexAction::Flush
                } else {
                    IndexAction::Wait
                }
            },
            IndexEvent::JobsClosed => {
                self.pending = 0;
                self.stopped = true;
                IndexAction::FlushAndStop
            },
            IndexEvent::Deletes => {
                self.pending = 0;
                self.deadline = now + MAX_AGE_MS;
                IndexAction::Flush
            },
            IndexEvent::DeletesClosed => {
                self.delete_open = false;
                IndexAction::Wait
            },
            IndexEvent::Deadline => {
                self.deadline = now + MAX_AGE_MS;
                if self.pending > 0 {
                    self.pending = 0;
                    IndexAction::Flush
                } else {
                    IndexAction::Wait
                }
            },
        }
    }
}

// ---------------------------------------------------------------------------
// After a commit
// ---------------------------------------------------------------------------

/// What a journal entry marks as durable.
pub open spec fn marked(e: EntryModel) -> IndexedModel {
    IndexedModel { collection_id: e.collection_id, url: e.url, content_hash: e.content_hash }
}

/// The pages to mark as durable for a committed journal, in its order.
pub fn journal_entries(journal: &Vec<JournalEntry>) -> (r: Vec<IndexedEntry<'_>>)
    ensures
        r.deep_view() == journal.deep_view().map_values(|e: EntryModel| marked(e)),
{
    let mut r: Vec<IndexedEntry<'_>> = Vec::new();
    let mut i: usize = 0;
    while i < journal.len()
        invariant
            i <= journal.len(),
            r.len() == i,
            forall|j: int| 0 <= j < i ==> (#[trigger] r@[j]).deep_view() == marked(journal@[j].deep_view()),
        decreases journal.len() - i,
    {
        let e = &journal[i];
        r.push(
            IndexedEntry {
                collection_id: e.collection_id.as_str(),
                url: e.url.as_str(),
                content_hash: e.content_hash.as_str(),
            },
        );
        i = i + 1;
    }
    assert(r.deep_view() =~= journal.deep_view().map_values(|e: EntryModel| marked(e)));
    r
}

/// How the indexer goes on after a commit.
#[derive(Debug, Clone, Copy, PartialEq, Eq, Structural)]
pub enum AfterFlush {
    /// It goes on.
    GoOn,
    /// It goes on with a warning: the pages are durable, and because that was
    /// not noted they will be indexed once more on their next crawl.
    Warn,
    /// It stops: the index takes no more commits.
    Stop,
}

/// Decides how the indexer goes on after a commit, by whether the index
/// confirmed it and whether it was noted which pages became durable. Only a
/// commit that failed stops the indexer.
pub fn after_flush(committed: bool, journaled: bool) -> (r: AfterFlush)
    ensures
        r == if !committed {
            AfterFlush::Stop
        } else if !journaled {
            AfterFlush::Warn
        } else {
            AfterFlush::GoOn
        },
{
    if !committed {
        AfterFlush::Stop
    } else if !journaled {
        AfterFlush::Warn
    } else {
        AfterFlush::GoOn
    }
}

/// The number of pages on their way to the index, as it is shown: never below
/// zero.
pub fn pending_count(inflight: i64) -> (r: i64)
    ensures
        r == if inflight < 0 {
            0
        } else {
            inflight
        },
{
    if inflight < 0 {
        0
    } else {
        inflight
    }
}

// ---------------------------------------------------------------------------
// Laws
// ---------------------------------------------------------------------------

/// The batcher after some pages in a row, the `i`-th at time `times[i]`.
pub open spec fn after_jobs(b: Batcher, times: Seq<u64>) -> Batcher
    decreases times.len(),
{
    if times.len() == 0 {
        b
    } else {
        after_jobs(b, times.drop_last()).stepped(IndexEvent::Job, times.last()).1
    }
}

/// Pages are committed exactly when a batch is full: as long as fewer than a
/// batch came, all of them are pending, and the one that fills it leaves none.
pub proof fn full_batches_are_committed(b: Batcher, times: Seq<u64>)
    requires
        b.pending == 0,
        0 < times.len() <= BATCH_SIZE,
    ensures
        times.len() < BATCH_SIZE ==> after_jobs(b, times).pending == times.len(),
        times.len() == BATCH_SIZE ==> after_jobs(b, times).pending == 0 && after_jobs(
            b,
            times.drop_last(),
        ).stepped(IndexEvent::Job, times.last()).0 is Flush,
    decreases times.len(),
{
    if times.len() > 1 {
        full_batches_are_committed(b, times.drop_last());
    }
}

/// A commit is forced by a deadline only where something waits for it.
pub proof fn idle_deadlines_commit_nothing(b: Batcher, now: u64)
    ensures
        b.stepped(IndexEvent::Deadline, now).0 is Flush <==> b.pending > 0,
{
}

/// A page that waits is committed no later than the longest wait after it
/// came: the deadline was set before it came, and no event puts it off while
/// the page waits.
pub proof fn pages_do_not_wait_longer(b: Batcher, event: IndexEvent, came: u64, now: u64)
    requires
        b.valid(),
        b.deadline <= came + MAX_AGE_MS,
        now + MAX_AGE_MS <= u64::MAX,
        b.pending > 0,
    ensures
        b.stepped(event, now).0 is Wait ==> b.stepped(event, now).1.deadline <= came + MAX_AGE_MS
            && b.stepped(event, now).1.pending >= b.pending,
{
}

/// Deletions are committed at once, together with the pages that waited.
pub proof fn deletions_are_prompt(b: Batcher, now: u64)
    ensures
        b.stepped(IndexEvent::Deletes, now).0 is Flush,
        b.stepped(IndexEvent::Deletes, now).1.pending == 0,
{
}

/// The end of the pages commits what is left and stops the indexer, whether or
/// not deletions may still come.
pub proof fn closing_commits_the_rest(b: Batcher, now: u64)
    ensures
        b.stepped(IndexEvent::JobsClosed, now).0 is FlushAndStop,
        b.stepped(IndexEvent::JobsClosed, now).1.pending == 0,
{
}

/// A page that does not fill the batch only waits with the others; the one that
/// fills it, and only that one, is committed with them.
pub proof fn pages_wait_for_a_full_batch(b: Batcher, now: u64)
    requires
        b.valid(),
        now + MAX_AGE_MS <= u64::MAX,
    ensures
        ({
            let r = b.stepped(IndexEvent::Job, now);
            &&& b.pending + 1 < BATCH_SIZE ==> r.0 is Wait && r.1.pending == b.pending + 1
                && r.1.deadline == b.deadline
            &&& b.pending + 1 == BATCH_SIZE ==> r.0 is Flush && r.1.pending == 0 && r.1.deadline
                == now + MAX_AGE_MS
            &&& r.1.delete_open == b.delete_open && r.1.stopped == b.stopped
        }),
{
}

/// A deadline commits what is pending, and each commit and each idle deadline
/// sets the next one; only the end of the pages stops the indexer.
pub proof fn deadlines_commit_what_is_pending(b: Batcher, event: IndexEvent, now: u64)
    requires
        b.valid(),
        now + MAX_AGE_MS <= u64::MAX,
    ensures
        ({
            let r = b.stepped(event, now);
            &&& event is Deadline ==> r.1.deadline == now + MAX_AGE_MS && r.1.pending == 0
            &&& event is Deadline ==> (r.0 is Flush <==> b.pending > 0) && !(r.0 is FlushAndStop)
            &&& r.0 is FlushAndStop <==> event is JobsClosed
            &&& r.1.stopped == (b.stopped || event is JobsClosed)
            &&& r.1.delete_open == (b.delete_open && !(event is DeletesClosed))
            &&& r.0 is Wait && !(event is Job) ==> r.1.pending == b.pending
            &&& r.0 is Flush || r.0 is FlushAndStop ==> r.1.pending == 0
        }),
{
}

/// What a journal marks as durable is what was written: the page, in its
/// collection, with its fingerprint.
pub proof fn journals_mark_what_was_written(e: EntryModel)
    ensures
        marked(e).collection_id == e.collection_id,
        marked(e).url == e.url,
        marked(e).content_hash == e.content_hash,
{
}

/// Pages are committed in batches of fifty, and wait five seconds at the most.
pub proof fn batches_are_small_and_young(b: Batcher, now: u64)
    requires
        b.valid(),
        now + 5_000 <= u64::MAX,
    ensures
        b.pending + 1 == 50 ==> b.stepped(IndexEvent::Job, now).0 is Flush,
        b.pending + 1 < 50 ==> b.stepped(IndexEvent::Job, now).0 is Wait,
        b.stepped(IndexEvent::Deadline, now).1.deadline == now + 5_000,
        CHANNEL_CAPACITY == 256,
{
}

} // verus!
