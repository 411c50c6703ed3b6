//! What an instance keeps of itself on the way through an export, an import
//! into an empty instance, and an export there.

use vstd::multiset::Multiset;
use vstd::prelude::*;
use crate::api::admin::export_import::{
    by_name, collections_are_ordered, documents_of, exported, is_export_of, is_filled, is_first,
    is_import_of, is_new, is_taken_over, is_target_of, is_wanted, named_in_order, names_of,
    new_places, uncommitted, urls_of, wanted_places, DocumentModel, ExportEnvelope,
    ExportedCollection, ExportedCrawlTarget, Import, ImportedCollection, ImportedSuggestion,
    ImportedTarget, PageModel, PeerModel, RankingModel, SubscriptionModel, SuggestionModel,
    FORMAT_VERSION,
};
use crate::index::indexer::JobModel;
use crate::index::reader::ExportedDoc;
use crate::text::text_le;

verus! {

// ---------------------------------------------------------------------------
// What an export holds, in no order
// ---------------------------------------------------------------------------

/// A crawl target with its pages.
pub struct TargetContent {
    pub url_prefix: Seq<char>,
    pub recrawl_interval_s: i64,
    pub recrawl_interval_secs: i64,
    pub enabled: i64,
    pub crawl_delay_secs: Option<i64>,
    pub created_at: Seq<char>,
    pub pages: Multiset<PageModel>,
}

/// A collection with everything below it.
pub struct CollectionContent {
    pub name: Seq<char>,
    pub description: Seq<char>,
    pub created_at: Seq<char>,
    pub updated_at: Seq<char>,
    pub targets: Multiset<TargetContent>,
    pub ranking: Option<RankingModel>,
    pub suggestions: Multiset<SuggestionModel>,
    pub documents: Multiset<DocumentModel>,
}

/// Everything that an export holds but for the time at which it was made.
pub struct EnvelopeContent {
    pub format_version: u32,
    pub self_url: Seq<char>,
    pub collections: Multiset<CollectionContent>,
    pub node_peers: Multiset<PeerModel>,
    pub collection_peers: Multiset<SubscriptionModel>,
}

/// A page as it is, or without what was committed of it.
pub open spec fn page_content(p: PageModel, commits: bool) -> PageModel {
    if commits {
        p
    } else {
        uncommitted(p)
    }
}

/// What an exported target holds.
pub open spec fn target_content(t: ExportedCrawlTarget, commits: bool) -> TargetContent {
    TargetContent {
        url_prefix: t.url_prefix@,
        recrawl_interval_s: t.recrawl_interval_s,
        recrawl_interval_secs: t.recrawl_interval_secs,
        enabled: t.enabled,
        crawl_delay_secs: t.crawl_delay_secs,
        created_at: t.created_at@,
        pages: t.crawled_pages.deep_view().map_values(
            |p: PageModel| page_content(p, commits),
        ).to_multiset(),
    }
}

/// What an exported collection holds in the database: all but its documents.
pub open spec fn rows_content(c: ExportedCollection, commits: bool) -> CollectionContent {
    CollectionContent {
        name: c.name@,
        description: c.description@,
        created_at: c.created_at@,
        updated_at: c.updated_at@,
        targets: c.crawl_targets@.map_values(
            |t: ExportedCrawlTarget| target_content(t, commits),
        ).to_multiset(),
        ranking: c.ranking_config.deep_view(),
        suggestions: c.outlink_host_suggestions.deep_view().to_multiset(),
        documents: Multiset::empty(),
    }
}

/// What an exported collection holds.
pub open spec fn collection_content(c: ExportedCollection, commits: bool) -> CollectionContent {
    CollectionContent {
        documents: c.documents.deep_view().to_multiset(),
        ..rows_content(c, commits)
    }
}

/// What an export holds; without `commits`, pages are taken without what was
/// committed of them.
pub open spec fn envelope_content(env: ExportEnvelope, commits: bool) -> EnvelopeContent {
    EnvelopeContent {
        format_version: env.format_version,
        self_url: env.self_url@,
        collections: env.collections@.map_values(
            |c: ExportedCollection| collection_content(c, commits),
        ).to_multiset(),
        node_peers: env.node_peers.deep_view().to_multiset(),
        collection_peers: env.collection_peers.deep_view().to_multiset(),
    }
}

// ---------------------------------------------------------------------------
// What an import stores
// ---------------------------------------------------------------------------

/// A target that was stored, without its identity.
pub open spec fn stored_target(t: ImportedTarget) -> TargetContent {
    TargetContent {
        url_prefix: t.url_prefix@,
        recrawl_interval_s: t.recrawl_interval_s,
        recrawl_interval_secs: t.recrawl_interval_secs,
        enabled: t.enabled,
        crawl_delay_secs: t.crawl_delay_secs,
        created_at: t.created_at@,
        pages: t.crawled_pages.deep_view().to_multiset(),
    }
}

/// The rows of a collection that was stored, without their identities.
pub open spec fn stored_rows(c: ImportedCollection) -> CollectionContent {
    CollectionContent {
        name: c.name@,
        description: c.description@,
        created_at: c.created_at@,
        updated_at: c.updated_at@,
        targets: c.crawl_targets@.map_values(
            |t: ImportedTarget| stored_target(t),
        ).to_multiset(),
        ranking: c.ranking_config.deep_view(),
        suggestions: c.outlink_host_suggestions@.map_values(
            |s: ImportedSuggestion| s.suggestion.deep_view(),
        ).to_multiset(),
        documents: Multiset::empty(),
    }
}

/// A document of the index, with the name of its collection.
pub type IndexEntry = (Seq<char>, DocumentModel);

/// A document of the index.
pub open spec fn indexed_entry(d: ExportedDoc) -> IndexEntry {
    (d.collection@, exported(d))
}

/// What a job puts into the index.
pub open spec fn queued_entry(j: JobModel) -> IndexEntry {
    (
        j.collection_name,
        DocumentModel { url: j.url, title: j.title, body: j.body, indexed_at: j.indexed_at },
    )
}

/// What the jobs of some collections put into the index.
pub open spec fn queued(collections: Seq<ImportedCollection>) -> Multiset<IndexEntry>
    decreases collections.len(),
{
    if collections.len() == 0 {
        Multiset::empty()
    } else {
        queued(collections.drop_last()).add(
            collections.last().jobs.deep_view().map_values(
                |j: JobModel| queued_entry(j),
            ).to_multiset(),
        )
    }
}

/// An instance holds what the import `r` of `env` stored and queued, and
/// nothing else, in whatever order it hands its rows and documents out.
pub open spec fn holds_import(
    dumps: Seq<ExportedCollection>,
    docs: Seq<ExportedDoc>,
    peers: Seq<PeerModel>,
    subscriptions: Seq<SubscriptionModel>,
    r: Import,
    env: ExportEnvelope,
) -> bool {
    &&& dumps.map_values(|c: ExportedCollection| rows_content(c, true)).to_multiset()
        == r.collections@.map_values(|c: ImportedCollection| stored_rows(c)).to_multiset()
    &&& docs.map_values(|d: ExportedDoc| indexed_entry(d)).to_multiset() == queued(r.collections@)
    &&& peers.to_multiset() == r.node_peers@.map_values(
        |p: usize| env.node_peers@[p as int].deep_view(),
    ).to_multiset()
    &&& subscriptions.to_multiset() == r.collection_peers@.map_values(
        |p: usize| env.collection_peers@[p as int].deep_view(),
    ).to_multiset()
}

/// Every time below a collection is given.
pub open spec fn has_times(c: ExportedCollection) -> bool {
    &&& c.created_at@.len() > 0
    &&& c.updated_at@.len() > 0
    &&& forall|i: int|
        0 <= i < c.crawl_targets.len() ==> (#[trigger] c.crawl_targets@[i]).created_at@.len() > 0
}

/// An export of a whole instance: names and URLs are given once, no time is
/// empty, and each subscription has its collection and its peer.
pub open spec fn is_whole(env: ExportEnvelope) -> bool {
    &&& env.format_version == FORMAT_VERSION
    &&& names_of(env.collections@).no_duplicates()
    &&& urls_of(env.node_peers@).no_duplicates()
    &&& forall|i: int| 0 <= i < env.collections.len() ==> has_times(#[trigger] env.collections@[i])
    &&& forall|i: int|
        0 <= i < env.collection_peers.len() ==> is_wanted(
            #[trigger] env.collection_peers@[i],
            env,
            Seq::empty(),
            Seq::empty(),
        )
}

// ---------------------------------------------------------------------------
// Multisets
// ---------------------------------------------------------------------------

/// Mapping does not depend on the order.
proof fn lemma_map_multiset<A, B>(a: Seq<A>, b: Seq<A>, f: spec_fn(A) -> B)
    requires
        a.to_multiset() == b.to_multiset(),
    ensures
        a.map_values(f).to_multiset() == b.map_values(f).to_multiset(),
    decreases a.len(),
{
    a.to_multiset_ensures();
    b.to_multiset_ensures();
    if a.len() == 0 {
        assert(a.map_values(f) =~= b.map_values(f));
    } else {
        let front = a.drop_last();
        let x = a.last();
        assert(a =~= front.push(x));
        front.to_multiset_ensures();
        assert(a.contains(x));
        assert(b.to_multiset().count(x) > 0);
        let k = choose|k: int| 0 <= k < b.len() && b[k] == x;
        let rest = b.remove(k);
        assert(rest.to_multiset() =~= front.to_multiset());
        lemma_map_multiset(front, rest, f);
        let fb = b.map_values(f);
        fb.to_multiset_ensures();
        front.map_values(f).to_multiset_ensures();
        assert(fb.remove(k) =~= rest.map_values(f));
        assert(a.map_values(f) =~= front.map_values(f).push(f(x)));
        assert(fb[k] == f(x));
        assert(fb.contains(f(x)));
        assert(fb.to_multiset().count(f(x)) > 0);
        assert(fb.to_multiset().remove(f(x)).insert(f(x)) =~= fb.to_multiset());
    }
}

proof fn lemma_no_duplicates<A>(a: Seq<A>, b: Seq<A>)
    requires
        a.to_multiset() == b.to_multiset(),
        a.no_duplicates(),
    ensures
        b.no_duplicates(),
{
    a.lemma_multiset_has_no_duplicates();
    b.lemma_multiset_has_no_duplicates_conv();
}

// ---------------------------------------------------------------------------
// Documents
// ---------------------------------------------------------------------------

/// The documents of a name are those that the index holds under it.
proof fn lemma_documents_of(docs: Seq<ExportedDoc>, name: Seq<char>, d: DocumentModel)
    ensures
        documents_of(docs, name).to_multiset().count(d) == docs.map_values(
            |d: ExportedDoc| indexed_entry(d),
        ).to_multiset().count((name, d)),
    decreases docs.len(),
{
    let f = |d: ExportedDoc| indexed_entry(d);
    if docs.len() == 0 {
        assert(docs.map_values(f) =~= Seq::<IndexEntry>::empty());
        documents_of(docs, name).to_multiset_ensures();
        docs.map_values(f).to_multiset_ensures();
    } else {
        let front = docs.drop_last();
        lemma_documents_of(front, name, d);
        assert(docs.map_values(f) =~= front.map_values(f).push(f(docs.last())));
        front.map_values(f).to_multiset_ensures();
        documents_of(front, name).to_multiset_ensures();
    }
}

/// Documents put into the index under one name are found under it alone.
proof fn lemma_entries(
    docs: Seq<DocumentModel>,
    own: Seq<char>,
    name: Seq<char>,
    d: DocumentModel,
)
    ensures
        docs.map_values(|d: DocumentModel| (own, d)).to_multiset().count((name, d)) == (if own
            == name {
            docs.to_multiset().count(d)
        } else {
            0
        }),
    decreases docs.len(),
{
    let f = |d: DocumentModel| (own, d);
    if docs.len() == 0 {
        docs.to_multiset_ensures();
        docs.map_values(f).to_multiset_ensures();
    } else {
        let front = docs.drop_last();
        lemma_entries(front, own, name, d);
        assert(docs =~= front.push(docs.last()));
        assert(docs.map_values(f) =~= front.map_values(f).push(f(docs.last())));
        front.map_values(f).to_multiset_ensures();
        front.to_multiset_ensures();
    }
}

/// `imported` are the collections `from`, each taken over.
spec fn all_taken_over(
    imported: Seq<ImportedCollection>,
    from: Seq<ExportedCollection>,
    now: Seq<char>,
) -> bool {
    &&& imported.len() == from.len()
    &&& forall|k: int|
        0 <= k < from.len() ==> is_taken_over(#[trigger] imported[k], from[k], now)
}

/// What the jobs of the first `n` collections put into the index under the
/// name of collection `k` are the documents of that collection.
proof fn lemma_queued(
    imported: Seq<ImportedCollection>,
    from: Seq<ExportedCollection>,
    now: Seq<char>,
    n: int,
    k: int,
    d: DocumentModel,
)
    requires
        all_taken_over(imported, from, now),
        names_of(from).no_duplicates(),
        0 <= n <= from.len(),
        0 <= k < from.len(),
    ensures
        queued(imported.take(n)).count((from[k].name@, d)) == (if k < n {
            from[k].documents.deep_view().to_multiset().count(d)
        } else {
            0
        }),
    decreases n,
{
    if n > 0 {
        lemma_queued(imported, from, now, n - 1, k, d);
        assert(imported.take(n).drop_last() =~= imported.take(n - 1));
        let c = from[n - 1];
        let i = imported[n - 1];
        let docs = c.documents.deep_view();
        assert(is_taken_over(i, c, now));
        assert(i.jobs.deep_view().map_values(|j: JobModel| queued_entry(j)) =~= docs.map_values(
            |d: DocumentModel| (c.name@, d),
        ));
        lemma_entries(docs, c.name@, from[k].name@, d);
        let names = names_of(from);
        assert(names[k] == from[k].name@ && names[n - 1] == c.name@);
        if k != n - 1 {
            assert(names[k] != names[n - 1]);
        }
    }
}

// ---------------------------------------------------------------------------
// Rows
// ---------------------------------------------------------------------------

/// A collection that was taken over is stored with the rows that it had, but
/// for what was committed of its pages.
proof fn lemma_stored_rows(r: ImportedCollection, c: ExportedCollection, now: Seq<char>)
    requires
        is_taken_over(r, c, now),
        has_times(c),
    ensures
        stored_rows(r) == rows_content(c, false),
{
    let f = |t: ImportedTarget| stored_target(t);
    let g = |t: ExportedCrawlTarget| target_content(t, false);
    let p = |p: PageModel| page_content(p, false);
    assert forall|i: int| 0 <= i < c.crawl_targets.len() implies f(
        #[trigger] r.crawl_targets@[i],
    ) == g(c.crawl_targets@[i]) by {
        let t = c.crawl_targets@[i];
        assert(is_target_of(r.crawl_targets@[i], t, r.id@, now));
        assert(r.crawl_targets@[i].crawled_pages.deep_view()
            =~= t.crawled_pages.deep_view().map_values(p));
    }
    assert(r.crawl_targets@.map_values(f) =~= c.crawl_targets@.map_values(g));
    assert(r.outlink_host_suggestions@.map_values(
        |s: ImportedSuggestion| s.suggestion.deep_view(),
    ) =~= c.outlink_host_suggestions.deep_view());
}

/// Into an empty instance, keys that are given once are all new.
proof fn lemma_all_new(keys: Seq<Seq<char>>, n: nat)
    requires
        n <= keys.len() <= usize::MAX,
        keys.no_duplicates(),
    ensures
        new_places(Seq::empty(), keys, n) =~= Seq::new(n, |i: int| i as usize),
    decreases n,
{
    if n > 0 {
        lemma_all_new(keys, (n - 1) as nat);
        assert(is_new(Seq::empty(), keys, n - 1));
    }
}

proof fn lemma_all_wanted(env: ExportEnvelope, n: nat)
    requires
        n <= env.collection_peers.len(),
        is_whole(env),
    ensures
        wanted_places(env, Seq::empty(), Seq::empty(), n) =~= Seq::new(n, |i: int| i as usize),
    decreases n,
{
    if n > 0 {
        lemma_all_wanted(env, (n - 1) as nat);
        assert(is_wanted(env.collection_peers@[n - 1], env, Seq::empty(), Seq::empty()));
    }
}

/// `documents` are those that the entries hold under `name`.
spec fn are_under(
    documents: Multiset<DocumentModel>,
    entries: Multiset<IndexEntry>,
    name: Seq<char>,
) -> bool {
    forall|d: DocumentModel| #[trigger] documents.count(d) == entries.count((name, d))
}

/// The documents that the entries hold under `name`.
spec fn documents_under(
    entries: Multiset<IndexEntry>,
    name: Seq<char>,
) -> Multiset<DocumentModel> {
    choose|documents: Multiset<DocumentModel>| are_under(documents, entries, name)
}

proof fn lemma_under(
    documents: Multiset<DocumentModel>,
    entries: Multiset<IndexEntry>,
    name: Seq<char>,
)
    requires
        are_under(documents, entries, name),
    ensures
        documents == documents_under(entries, name),
{
    let other = documents_under(entries, name);
    assert(are_under(other, entries, name));
    assert(documents =~= other);
}

/// The rows of a collection with the documents under its name.
spec fn filled(rows: CollectionContent, entries: Multiset<IndexEntry>) -> CollectionContent {
    CollectionContent { documents: documents_under(entries, rows.name), ..rows }
}

/// The collections of the first export are the stored rows with the documents
/// that were queued.
proof fn lemma_sent(
    imported: Seq<ImportedCollection>,
    from: Seq<ExportedCollection>,
    now: Seq<char>,
)
    requires
        all_taken_over(imported, from, now),
        names_of(from).no_duplicates(),
        forall|i: int| 0 <= i < from.len() ==> has_times(#[trigger] from[i]),
    ensures
        imported.map_values(|c: ImportedCollection| stored_rows(c)).map_values(
            |rows: CollectionContent| filled(rows, queued(imported)),
        ) =~= from.map_values(|c: ExportedCollection| collection_content(c, false)),
{
    let entries = queued(imported);
    assert forall|k: int| 0 <= k < from.len() implies filled(
        stored_rows(#[trigger] imported[k]),
        entries,
    ) == collection_content(from[k], false) by {
        let c = from[k];
        let documents = c.documents.deep_view().to_multiset();
        assert(has_times(c));
        assert(is_taken_over(imported[k], c, now));
        lemma_stored_rows(imported[k], c, now);
        assert forall|d: DocumentModel| #[trigger] documents.count(d) == entries.count(
            (c.name@, d),
        ) by {
            lemma_queued(imported, from, now, from.len() as int, k, d);
            assert(imported.take(from.len() as int) =~= imported);
        }
        lemma_under(documents, entries, c.name@);
    }
}

/// The collections of the second export are the rows that the instance hands
/// out with the documents that its index holds.
proof fn lemma_received(
    collections: Seq<ExportedCollection>,
    dumps: Seq<ExportedCollection>,
    docs: Seq<ExportedDoc>,
)
    requires
        collections.len() == dumps.len(),
        forall|i: int| 0 <= i < dumps.len() ==> is_filled(#[trigger] collections[i], dumps, i, docs),
        names_of(dumps).no_duplicates(),
    ensures
        dumps.map_values(|c: ExportedCollection| rows_content(c, true)).map_values(
            |rows: CollectionContent|
                filled(rows, docs.map_values(|d: ExportedDoc| indexed_entry(d)).to_multiset()),
        ) =~= collections.map_values(|c: ExportedCollection| collection_content(c, true)),
{
    let entries = docs.map_values(|d: ExportedDoc| indexed_entry(d)).to_multiset();
    let names = names_of(dumps);
    assert forall|i: int| 0 <= i < dumps.len() implies filled(
        rows_content(#[trigger] dumps[i], true),
        entries,
    ) == collection_content(collections[i], true) by {
        assert(is_filled(collections[i], dumps, i, docs));
        assert(is_first(names, i)) by {
            assert(names[i] == dumps[i].name@);
        }
        let documents = documents_of(docs, dumps[i].name@).to_multiset();
        assert forall|d: DocumentModel| #[trigger] documents.count(d) == entries.count(
            (dumps[i].name@, d),
        ) by {
            lemma_documents_of(docs, dumps[i].name@, d);
        }
        lemma_under(documents, entries, dumps[i].name@);
    }
}

// ---------------------------------------------------------------------------
// Laws
// ---------------------------------------------------------------------------

/// An instance that is exported, imported into an empty instance and exported
/// there again is the same, whatever the order in which the second instance
/// hands out what it holds. Only the time of the export differs, and nothing
/// of a page counts as committed. The collections come in the order of their
/// names.
pub proof fn instances_survive_the_journey(
    sent: ExportEnvelope,
    import: Import,
    now: Seq<char>,
    dumps: Seq<ExportedCollection>,
    docs: Seq<ExportedDoc>,
    received: ExportEnvelope,
    exported_at: Seq<char>,
)
    requires
        is_whole(sent),
        is_import_of(import, sent, Seq::empty(), Seq::empty(), now),
        holds_import(
            dumps,
            docs,
            received.node_peers.deep_view(),
            received.collection_peers.deep_view(),
            import,
            sent,
        ),
        is_export_of(received, sent.self_url@, exported_at, dumps, docs),
    ensures
        envelope_content(received, true) == envelope_content(sent, false),
        named_in_order(received.collections@),
{
    let from = sent.collections@;
    let imported = import.collections@;
    lemma_all_new(names_of(from), from.len());
    lemma_all_new(urls_of(sent.node_peers@), sent.node_peers@.len());
    lemma_all_wanted(sent, sent.collection_peers@.len());
    let places = new_places(Seq::empty(), names_of(from), from.len());
    assert forall|k: int| 0 <= k < from.len() implies is_taken_over(
        #[trigger] imported[k],
        from[k],
        now,
    ) by {
        assert(places[k] == k);
    }
    let stored = imported.map_values(|c: ImportedCollection| stored_rows(c));
    let sorted = by_name(dumps);
    let row = |c: ExportedCollection| rows_content(c, true);
    let handed = sorted.map_values(row);
    collections_are_ordered(dumps);
    lemma_map_multiset(sorted, dumps, row);
    let name = |c: CollectionContent| c.name;
    lemma_map_multiset(stored, handed, name);
    assert(stored.map_values(name) =~= names_of(from)) by {
        assert forall|k: int| 0 <= k < from.len() implies stored_rows(
            #[trigger] imported[k],
        ).name == from[k].name@ by {
            assert(is_taken_over(imported[k], from[k], now));
        }
    }
    assert(handed.map_values(name) =~= names_of(sorted));
    lemma_no_duplicates(names_of(from), names_of(sorted));
    let fill = |rows: CollectionContent| filled(rows, queued(imported));
    lemma_map_multiset(handed, stored, fill);
    lemma_sent(imported, from, now);
    lemma_received(received.collections@, sorted, docs);
    assert(import.node_peers@.map_values(|p: usize| sent.node_peers@[p as int].deep_view())
        =~= sent.node_peers.deep_view());
    assert(import.collection_peers@.map_values(
        |p: usize| sent.collection_peers@[p as int].deep_view(),
    ) =~= sent.collection_peers.deep_view());
    assert forall|i: int| 0 <= i < sorted.len() implies (#[trigger] received.collections@[i]).name
        == sorted[i].name by {
        assert(is_filled(received.collections@[i], sorted, i, docs));
    }
    assert forall|i: int, j: int| 0 <= i < j < sorted.len() implies text_le(
        (#[trigger] received.collections@[i]).name@,
        (#[trigger] received.collections@[j]).name@,
    ) by {
        assert(sorted[i].name == received.collections@[i].name);
        assert(sorted[j].name == received.collections@[j].name);
    }
}

} // verus!
