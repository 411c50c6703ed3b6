//! Crawled pages: one row for each URL of a collection.

use vstd::prelude::*;
use crate::text::{copy_opt, same_text};

verus! {

/// What is remembered of a crawled URL.
#[derive(Debug, Clone, PartialEq, Eq)]
pub struct CrawledPageRow {
    pub id: i64,
    pub collection_id: String,
    pub crawl_target_id: String,
    pub url: String,
    pub etag: Option<String>,
    pub last_modified: Option<String>,
    pub content_hash: Option<String>,
    pub last_status: Option<i64>,
    pub last_crawled_at: i64,
    /// Hash of the content that was last committed to the search index for
    /// this URL; `None` where nothing has been committed yet.
    pub indexed_content_hash: Option<String>,
}

pub struct PageRowModel {
    pub id: i64,
    pub collection_id: Seq<char>,
    pub crawl_target_id: Seq<char>,
    pub url: Seq<char>,
    pub etag: Option<Seq<char>>,
    pub last_modified: Option<Seq<char>>,
    pub content_hash: Option<Seq<char>>,
    pub last_status: Option<i64>,
    pub last_crawled_at: i64,
    pub indexed_content_hash: Option<Seq<char>>,
}

impl View for CrawledPageRow {
    type V = PageRowModel;

    open spec fn view(&self) -> PageRowModel {
        PageRowModel {
            id: self.id,
            collection_id: self.collection_id@,
            crawl_target_id: self.crawl_target_id@,
            url: self.url@,
            etag: self.etag.deep_view(),
            last_modified: self.last_modified.deep_view(),
            content_hash: self.content_hash.deep_view(),
            last_status: self.last_status,
            last_crawled_at: self.last_crawled_at,
            indexed_content_hash: self.indexed_content_hash.deep_view(),
        }
    }
}

impl DeepView for CrawledPageRow {
    type V = PageRowModel;

    open spec fn deep_view(&self) -> PageRowModel {
        self.view()
    }
}

/// A row of the table of crawled pages, by numbers.
#[derive(Debug, Clone)]
pub struct CrawledPage {
    pub id: i64,
    pub collection_id: i64,
    pub crawl_target_id: i64,
    pub url: String,
    pub etag: Option<String>,
    pub last_modified: Option<String>,
    pub content_hash: Option<String>,
    pub last_status: Option<i64>,
    pub last_crawled_at: i64,
}

/// One entry of a batch of committed pages.
pub struct IndexedEntry<'a> {
    pub collection_id: &'a str,
    pub url: &'a str,
    pub content_hash: &'a str,
}

pub struct IndexedModel {
    pub collection_id: Seq<char>,
    pub url: Seq<char>,
    pub content_hash: Seq<char>,
}

impl<'a> DeepView for IndexedEntry<'a> {
    type V = IndexedModel;

    open spec fn deep_view(&self) -> IndexedModel {
        IndexedModel {
            collection_id: self.collection_id@,
            url: self.url@,
            content_hash: self.content_hash@,
        }
    }
}

/// The row that storing `row` leaves behind. A page that is already there
/// keeps its id and what was committed of it; of a new page nothing has been
/// committed.
pub open spec fn stored_row(existing: Option<PageRowModel>, row: PageRowModel) -> PageRowModel {
    match existing {
        Some(e) => PageRowModel { id: e.id, indexed_content_hash: e.indexed_content_hash, ..row },
        None => PageRowModel { indexed_content_hash: None, ..row },
    }
}

/// The row to store for `row`, where `existing` is the one that the database
/// holds for the same collection and URL.
pub fn upsert(existing: &Option<CrawledPageRow>, row: CrawledPageRow) -> (r: CrawledPageRow)
    ensures
        r@ == stored_row(existing.deep_view(), row@),
{
    let mut r = row;
    match existing {
        Some(e) => {
            r.id = e.id;
            r.indexed_content_hash = copy_opt(&e.indexed_content_hash);
        },
        None => {
            r.indexed_content_hash = None;
        },
    }
    r
}

/// `row` after one committed entry: the entry's hash becomes what was
/// committed of the page, where collection and URL agree.
pub open spec fn after_entry(row: PageRowModel, entry: IndexedModel) -> PageRowModel {
    if row.collection_id == entry.collection_id && row.url == entry.url {
        PageRowModel { indexed_content_hash: Some(entry.content_hash), ..row }
    } else {
        row
    }
}

/// `row` after a batch of committed entries, one after the other.
pub open spec fn after_entries(row: PageRowModel, entries: Seq<IndexedModel>) -> PageRowModel
    decreases entries.len(),
{
    if entries.len() == 0 {
        row
    } else {
        after_entry(after_entries(row, entries.drop_last()), entries.last())
    }
}

/// Marks in `rows` what a commit made durable. Rows that no entry names stay
/// as they are.
pub fn mark_indexed_batch(rows: &mut Vec<CrawledPageRow>, entries: &Vec<IndexedEntry>)
    ensures
        final(rows).len() == old(rows).len(),
        forall|i: int|
            0 <= i < old(rows).len() ==> (#[trigger] final(rows)@[i])@ == after_entries(
                old(rows)@[i]@,
                entries.deep_view(),
            ),
{
    let ghost all = entries.deep_view();
    let ghost before = rows@;
    let mut k: usize = 0;
    assert(all.take(0) =~= Seq::<IndexedModel>::empty());
    while k < entries.len()
        invariant
            k <= entries.len(),
            all == entries.deep_view(),
            before == old(rows)@,
            rows.len() == before.len(),
            forall|i: int|
                0 <= i < before.len() ==> (#[trigger] rows@[i])@ == after_entries(
                    before[i]@,
                    all.take(k as int),
                ),
        decreases entries.len() - k,
    {
        let e = &entries[k];
        assert(all[k as int] == e.deep_view());
        assert(all.take(k + 1).drop_last() =~= all.take(k as int));
        let ghost start = rows@;
        let mut i: usize = 0;
        while i < rows.len()
            invariant
                i <= rows.len(),
                rows.len() == start.len(),
                forall|j: int|
                    0 <= j < i ==> (#[trigger] rows@[j])@ == after_entry(start[j]@, e.deep_view()),
                forall|j: int| i <= j < start.len() ==> #[trigger] rows@[j] == start[j],
            decreases rows.len() - i,
        {
            if same_text(rows[i].collection_id.as_str(), e.collection_id) && same_text(
                rows[i].url.as_str(),
                e.url,
            ) {
                let row = CrawledPageRow {
                    id: rows[i].id,
                    collection_id: rows[i].collection_id.clone(),
                    crawl_target_id: rows[i].crawl_target_id.clone(),
                    url: rows[i].url.clone(),
                    etag: copy_opt(&rows[i].etag),
                    last_modified: copy_opt(&rows[i].last_modified),
                    content_hash: copy_opt(&rows[i].content_hash),
                    last_status: rows[i].last_status,
                    last_crawled_at: rows[i].last_crawled_at,
                    indexed_content_hash: Some(e.content_hash.to_owned()),
                };
                rows.set(i, row);
            }
            i = i + 1;
        }
        k = k + 1;
    }
    assert(all.take(all.len() as int) =~= all);
}

/// A row that no entry of a batch names is left alone by it.
pub proof fn unlisted_rows_stay(row: PageRowModel, entries: Seq<IndexedModel>)
    requires
        forall|i: int|
            0 <= i < entries.len() ==> (#[trigger] entries[i]).collection_id != row.collection_id
                || entries[i].url != row.url,
    ensures
        after_entries(row, entries) == row,
    decreases entries.len(),
{
    if entries.len() > 0 {
        unlisted_rows_stay(row, entries.drop_last());
        assert(entries[entries.len() - 1] == entries.last());
    }
}

proof fn lemma_entries_keep_key(row: PageRowModel, entries: Seq<IndexedModel>)
    ensures
        after_entries(row, entries).collection_id == row.collection_id,
        after_entries(row, entries).url == row.url,
        after_entries(row, entries).content_hash == row.content_hash,
    decreases entries.len(),
{
    if entries.len() > 0 {
        lemma_entries_keep_key(row, entries.drop_last());
    }
}

/// The last entry that names a page decides what counts as committed of it.
pub proof fn last_entry_wins(row: PageRowModel, entries: Seq<IndexedModel>)
    requires
        entries.len() > 0,
        entries.last().collection_id == row.collection_id,
        entries.last().url == row.url,
    ensures
        after_entries(row, entries).indexed_content_hash == Some(entries.last().content_hash),
{
    lemma_entries_keep_key(row, entries.drop_last());
}

/// Storing a page never makes it count as committed, nor forgets that it is:
/// only a commit changes that.
pub proof fn storing_keeps_committed_state(existing: Option<PageRowModel>, row: PageRowModel)
    ensures
        stored_row(existing, row).indexed_content_hash == (match existing {
            Some(e) => e.indexed_content_hash,
            None => None,
        }),
{
}

/// Storing a page stores all that the row says but what was committed and, of a
/// page that is there, its number.
pub proof fn rows_are_stored_as_they_are(existing: Option<PageRowModel>, row: PageRowModel)
    ensures
        ({
            let r = stored_row(existing, row);
            &&& r.collection_id == row.collection_id && r.crawl_target_id == row.crawl_target_id
            &&& r.url == row.url && r.etag == row.etag && r.last_modified == row.last_modified
            &&& r.content_hash == row.content_hash && r.last_status == row.last_status
            &&& r.last_crawled_at == row.last_crawled_at
            &&& r.id == (match existing {
                Some(e) => e.id,
                None => row.id,
            })
        }),
{
}

/// A commit changes nothing of a row but what counts as committed of the page,
/// and that only to what some entry for the page says.
pub proof fn commits_change_nothing_else(row: PageRowModel, entries: Seq<IndexedModel>)
    ensures
        ({
            let r = after_entries(row, entries);
            &&& r == (PageRowModel { indexed_content_hash: r.indexed_content_hash, ..row })
            &&& r.indexed_content_hash == row.indexed_content_hash || exists|i: int|
                0 <= i < entries.len() && (#[trigger] entries[i]).collection_id
                    == row.collection_id && entries[i].url == row.url && r.indexed_content_hash
                    == Some(entries[i].content_hash)
        }),
    decreases entries.len(),
{
    if entries.len() > 0 {
        let front = entries.drop_last();
        commits_change_nothing_else(row, front);
        let before = after_entries(row, front);
        let r = after_entries(row, entries);
        let last = entries.last();
        assert(entries[entries.len() - 1] == last);
        if last.collection_id == row.collection_id && last.url == row.url {
            assert(r.indexed_content_hash == Some(entries[entries.len() - 1].content_hash));
        } else if before.indexed_content_hash != row.indexed_content_hash {
            let i = choose|i: int|
                0 <= i < front.len() && (#[trigger] front[i]).collection_id == row.collection_id
                    && front[i].url == row.url && before.indexed_content_hash == Some(
                    front[i].content_hash,
                );
            assert(entries[i] == front[i]);
        }
    }
}

/// An entry that names a page decides what counts as committed of it, unless a
/// later one names it too.
pub proof fn named_rows_are_committed(row: PageRowModel, entries: Seq<IndexedModel>, i: int)
    requires
        0 <= i < entries.len(),
        entries[i].collection_id == row.collection_id,
        entries[i].url == row.url,
        forall|j: int|
            i < j < entries.len() ==> (#[trigger] entries[j]).collection_id != row.collection_id
                || entries[j].url != row.url,
    ensures
        after_entries(row, entries).indexed_content_hash == Some(entries[i].content_hash),
    decreases entries.len(),
{
    let front = entries.drop_last();
    lemma_entries_keep_key(row, front);
    if i < entries.len() - 1 {
        assert forall|j: int| i < j < front.len() implies (#[trigger] front[j]).collection_id
            != row.collection_id || front[j].url != row.url by {
            assert(entries[j] == front[j]);
        }
        named_rows_are_committed(row, front, i);
        assert(entries[entries.len() - 1] == entries.last());
    }
}

} // verus!
