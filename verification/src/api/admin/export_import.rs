//! Export and import of an instance.
//!
//! An export nests everything below the name of its collection, so that an
//! import can give every row a new identity. Importing only adds: a collection
//! whose name is taken is left out with everything below it, and so is a peer
//! whose URL is known. A subscription is taken over where its collection and
//! its peer are there.

use flate2::read::GzDecoder;
use flate2::write::GzEncoder;
use flate2::Compression;
use std::io::{Read, Write};
use vstd::prelude::*;
use crate::api::reply::{Reply, ReplyModel};
use crate::hash::{hash_text, sha256_hex};
use crate::ids::{is_id, new_id};
use crate::index::indexer::{IndexJob, JobModel};
use crate::index::reader::ExportedDoc;
use crate::text::{
    comes_before, concat, copy_opt, decimal, lemma_text_le_transitive, lemma_text_lt_asymmetric,
    same_text, show_unsigned, text_le,
};

verus! {

/// The version of the format that is written and understood.
pub const FORMAT_VERSION: u32 = 1;

/// The most bytes of a body that is imported.
pub const IMPORT_BODY_LIMIT_BYTES: usize = 536_870_912;

// ---------------------------------------------------------------------------
// What is exported
// ---------------------------------------------------------------------------

/// An export.
#[derive(Debug, Clone)]
pub struct ExportEnvelope {
    pub format_version: u32,
    pub exported_at: String,
    pub self_url: String,
    pub collections: Vec<ExportedCollection>,
    pub node_peers: Vec<ExportedNodePeer>,
    pub collection_peers: Vec<ExportedCollectionPeer>,
}

/// A collection with everything below it.
#[derive(Debug, Clone)]
pub struct ExportedCollection {
    pub name: String,
    pub description: String,
    pub created_at: String,
    pub updated_at: String,
    pub crawl_targets: Vec<ExportedCrawlTarget>,
    pub ranking_config: Option<ExportedRankingConfig>,
    pub documents: Vec<ExportedDocument>,
    pub outlink_host_suggestions: Vec<ExportedOutlinkHostSuggestion>,
}

/// A crawl target with its pages.
#[derive(Debug, Clone)]
pub struct ExportedCrawlTarget {
    pub url_prefix: String,
    pub recrawl_interval_s: i64,
    pub recrawl_interval_secs: i64,
    pub enabled: i64,
    pub crawl_delay_secs: Option<i64>,
    pub created_at: String,
    pub crawled_pages: Vec<ExportedCrawledPage>,
}

/// A crawled page.
#[derive(Debug, Clone)]
pub struct ExportedCrawledPage {
    pub url: String,
    pub etag: Option<String>,
    pub last_modified: Option<String>,
    pub content_hash: Option<String>,
    pub last_status: Option<i64>,
    pub last_crawled_at: i64,
    pub indexed_content_hash: Option<String>,
}

/// How a collection is ranked. The half-life is kept as the bits of a
/// double-precision number.
#[derive(Debug, Clone)]
pub struct ExportedRankingConfig {
    pub freshness_half_life_days_bits: u64,
    pub source_weights_json: String,
    pub domain_boosts_json: String,
    pub config_json: Option<String>,
}

/// A document of the index.
#[derive(Debug, Clone)]
pub struct ExportedDocument {
    pub url: String,
    pub title: String,
    pub body: String,
    pub indexed_at: i64,
}

/// A host that was suggested as a crawl target.
#[derive(Debug, Clone)]
pub struct ExportedOutlinkHostSuggestion {
    pub host: String,
    pub link_count: i64,
    pub examples_json: String,
    pub first_seen_at: i64,
    pub last_seen_at: i64,
    pub status: String,
}

/// A peer.
#[derive(Debug, Clone)]
pub struct ExportedNodePeer {
    pub url: String,
    pub name: Option<String>,
    pub enabled: i64,
}

/// A subscription. The weight is kept as the bits of a double-precision
/// number.
#[derive(Debug, Clone)]
pub struct ExportedCollectionPeer {
    pub local_collection: String,
    pub node_peer_url: String,
    pub remote_collection: String,
    pub source_weight_bits: u64,
    pub enabled: i64,
}

pub struct DocumentModel {
    pub url: Seq<char>,
    pub title: Seq<char>,
    pub body: Seq<char>,
    pub indexed_at: i64,
}

impl DeepView for ExportedDocument {
    type V = DocumentModel;

    open spec fn deep_view(&self) -> DocumentModel {
        DocumentModel {
            url: self.url@,
            title: self.title@,
            body: self.body@,
            indexed_at: self.indexed_at,
        }
    }
}

pub struct PageModel {
    pub url: Seq<char>,
    pub etag: Option<Seq<char>>,
    pub last_modified: Option<Seq<char>>,
    pub content_hash: Option<Seq<char>>,
    pub last_status: Option<i64>,
    pub last_crawled_at: i64,
    pub indexed_content_hash: Option<Seq<char>>,
}

impl DeepView for ExportedCrawledPage {
    type V = PageModel;

    open spec fn deep_view(&self) -> PageModel {
        PageModel {
            url: self.url@,
            etag: self.etag.deep_view(),
            last_modified: self.last_modified.deep_view(),
            content_hash: self.content_hash.deep_view(),
            last_status: self.last_status,
            last_crawled_at: self.last_crawled_at,
            indexed_content_hash: self.indexed_content_hash.deep_view(),
        }
    }
}

pub struct RankingModel {
    pub freshness_half_life_days_bits: u64,
    pub source_weights_json: Seq<char>,
    pub domain_boosts_json: Seq<char>,
    pub config_json: Option<Seq<char>>,
}

impl DeepView for ExportedRankingConfig {
    type V = RankingModel;

    open spec fn deep_view(&self) -> RankingModel {
        RankingModel {
            freshness_half_life_days_bits: self.freshness_half_life_days_bits,
            source_weights_json: self.source_weights_json@,
            domain_boosts_json: self.domain_boosts_json@,
            config_json: self.config_json.deep_view(),
        }
    }
}

impl ExportedRankingConfig {
    pub fn copy(&self) -> (r: ExportedRankingConfig)
        ensures
            r.deep_view() == self.deep_view(),
    {
        ExportedRankingConfig {
            freshness_half_life_days_bits: self.freshness_half_life_days_bits,
            source_weights_json: self.source_weights_json.clone(),
            domain_boosts_json: self.domain_boosts_json.clone(),
            config_json: copy_opt(&self.config_json),
        }
    }
}

pub struct SuggestionModel {
    pub host: Seq<char>,
    pub link_count: i64,
    pub examples_json: Seq<char>,
    pub first_seen_at: i64,
    pub last_seen_at: i64,
    pub status: Seq<char>,
}

impl DeepView for ExportedOutlinkHostSuggestion {
    type V = SuggestionModel;

    open spec fn deep_view(&self) -> SuggestionModel {
        SuggestionModel {
            host: self.host@,
            link_count: self.link_count,
            examples_json: self.examples_json@,
            first_seen_at: self.first_seen_at,
            last_seen_at: self.last_seen_at,
            status: self.status@,
        }
    }
}

impl ExportedOutlinkHostSuggestion {
    pub fn copy(&self) -> (r: ExportedOutlinkHostSuggestion)
        ensures
            r.deep_view() == self.deep_view(),
    {
        ExportedOutlinkHostSuggestion {
            host: self.host.clone(),
            link_count: self.link_count,
            examples_json: self.examples_json.clone(),
            first_seen_at: self.first_seen_at,
            last_seen_at: self.last_seen_at,
            status: self.status.clone(),
        }
    }
}

pub struct PeerModel {
    pub url: Seq<char>,
    pub name: Option<Seq<char>>,
    pub enabled: i64,
}

impl DeepView for ExportedNodePeer {
    type V = PeerModel;

    open spec fn deep_view(&self) -> PeerModel {
        PeerModel { url: self.url@, name: self.name.deep_view(), enabled: self.enabled }
    }
}

pub struct SubscriptionModel {
    pub local_collection: Seq<char>,
    pub node_peer_url: Seq<char>,
    pub remote_collection: Seq<char>,
    pub source_weight_bits: u64,
    pub enabled: i64,
}

impl DeepView for ExportedCollectionPeer {
    type V = SubscriptionModel;

    open spec fn deep_view(&self) -> SubscriptionModel {
        SubscriptionModel {
            local_collection: self.local_collection@,
            node_peer_url: self.node_peer_url@,
            remote_collection: self.remote_collection@,
            source_weight_bits: self.source_weight_bits,
            enabled: self.enabled,
        }
    }
}

// ---------------------------------------------------------------------------
// Bodies
// ---------------------------------------------------------------------------

/// What a gzip stream decompresses to, or why it does not.
pub uninterp spec fn gunzipped(bytes: Seq<u8>) -> Result<Seq<u8>, Seq<char>>;

/// `flate2::read::GzDecoder`, read to its end; the error is the message of
/// what it fails with.
#[verifier::external_body]
fn gunzip(bytes: &Vec<u8>) -> (r: Result<Vec<u8>, String>)
    ensures
        match r {
            Ok(v) => gunzipped(bytes@) matches Ok(b) && b == v@,
            Err(e) => gunzipped(bytes@) matches Err(m) && m == e@,
        },
{
    let mut decoded = Vec::new();
    match GzDecoder::new(bytes.as_slice()).read_to_end(&mut decoded) {
        Ok(_) => Ok(decoded),
        Err(e) => Err(e.to_string()),
    }
}

/// The body is a gzip stream.
pub open spec fn is_gzip(bytes: Seq<u8>) -> bool {
    bytes.len() >= 2 && bytes[0] == 0x1f && bytes[1] == 0x8b
}

/// `packed` is a gzip stream that decompresses to `plain`.
pub open spec fn unpacks_to(packed: Seq<u8>, plain: Seq<u8>) -> bool {
    gunzipped(packed) matches Ok(b) && b == plain
}

/// `read` is what reading `body` gives: as it is, or decompressed.
pub open spec fn reads_as(body: Seq<u8>, read: Seq<u8>) -> bool {
    if is_gzip(body) {
        unpacks_to(body, read)
    } else {
        read == body
    }
}

/// `flate2::write::GzEncoder` at the default level into a `Vec`, which never
/// fails to take what is written. A gzip stream starts with the bytes 1f 8b,
/// and decompresses to what was written.
#[verifier::external_body]
fn gzip(bytes: &Vec<u8>) -> (r: Vec<u8>)
    ensures
        is_gzip(r@),
        unpacks_to(r@, bytes@),
{
    let mut encoder = GzEncoder::new(Vec::new(), Compression::default());
    encoder.write_all(bytes).expect("a vector takes every write");
    encoder.finish().expect("a vector takes every write")
}

/// The JSON of a body that is imported.
#[derive(Debug)]
pub struct ImportBody {
    pub json: Vec<u8>,
    pub gzipped: bool,
}

/// Reads a body that is to be imported: compressed or not, by its first bytes.
pub fn decode_body(body: Vec<u8>) -> (r: Result<ImportBody, Reply>)
    ensures
        match r {
            Ok(b) => b.gzipped == is_gzip(body@) && reads_as(body@, b.json@),
            Err(reply) => is_gzip(body@) && gunzipped(body@) is Err && reply.deep_view() == (
            ReplyModel {
                status: 400,
                body: "gzip decode failed: "@ + gunzipped(body@)->Err_0,
                header: None,
            }),
        },
{
    if body.len() >= 2 && body[0] == 0x1f && body[1] == 0x8b {
        match gunzip(&body) {
            Ok(json) => Ok(ImportBody { json, gzipped: true }),
            Err(e) => Err(
                Reply {
                    status: 400,
                    body: concat("gzip decode failed: ", e.as_str()),
                    header: None,
                },
            ),
        }
    } else {
        Ok(ImportBody { json: body, gzipped: false })
    }
}

/// The body of an export: its JSON, compressed. Importing it gives the JSON
/// back.
pub fn encode_body(json: &Vec<u8>) -> (r: Vec<u8>)
    ensures
        is_gzip(r@),
        unpacks_to(r@, json@),
{
    gzip(json)
}

/// The answer to a body whose JSON cannot be read, with the message of what is
/// wrong with it.
pub fn json_refusal(gzipped: bool, error: &str) -> (r: Reply)
    ensures
        r.deep_view() == (ReplyModel {
            status: 400,
            body: if gzipped {
                "invalid JSON in gzip: "@ + error@
            } else {
                "invalid JSON: "@ + error@
            },
            header: None,
        }),
{
    let body = if gzipped {
        concat("invalid JSON in gzip: ", error)
    } else {
        concat("invalid JSON: ", error)
    };
    Reply { status: 400, body, header: None }
}

/// Refuses an export in a format that is not understood.
pub fn check_format(format_version: u32) -> (r: Result<(), Reply>)
    ensures
        format_version == FORMAT_VERSION ==> r is Ok,
        format_version == 1 <==> r is Ok,
        format_version != FORMAT_VERSION ==> (r matches Err(reply) && reply.deep_view() == (
        ReplyModel {
            status: 400,
            body: "unsupported format_version "@ + decimal(format_version as nat)
                + ": this build understands "@ + decimal(FORMAT_VERSION as nat),
            header: None,
        })),
{
    if format_version == FORMAT_VERSION {
        return Ok(());
    }
    let theirs = show_unsigned(format_version as u64);
    let ours = show_unsigned(FORMAT_VERSION as u64);
    let mut body: String = "unsupported format_version ".to_owned();
    body.push_str(theirs.as_str());
    body.push_str(": this build understands ");
    body.push_str(ours.as_str());
    Err(Reply { status: 400, body, header: None })
}

// ---------------------------------------------------------------------------
// Export
// ---------------------------------------------------------------------------

/// A document of the index as it is exported.
pub open spec fn exported(d: ExportedDoc) -> DocumentModel {
    DocumentModel { url: d.url@, title: d.title@, body: d.body@, indexed_at: d.indexed_at }
}

/// The documents of the collection `name`, in their order.
pub open spec fn documents_of(docs: Seq<ExportedDoc>, name: Seq<char>) -> Seq<DocumentModel>
    decreases docs.len(),
{
    if docs.len() == 0 {
        Seq::empty()
    } else if docs.last().collection@ == name {
        documents_of(docs.drop_last(), name).push(exported(docs.last()))
    } else {
        documents_of(docs.drop_last(), name)
    }
}

/// The names of some collections.
pub open spec fn names_of(collections: Seq<ExportedCollection>) -> Seq<Seq<char>> {
    Seq::new(collections.len(), |i: int| collections[i].name@)
}

/// The key at `i` occurs at no earlier place.
pub open spec fn is_first(keys: Seq<Seq<char>>, i: int) -> bool {
    forall|j: int| 0 <= j < i ==> #[trigger] keys[j] != keys[i]
}

fn first_named(collections: &Vec<ExportedCollection>, i: usize) -> (r: bool)
    requires
        i < collections.len(),
    ensures
        r == is_first(names_of(collections@), i as int),
{
    let ghost names = names_of(collections@);
    let mut j: usize = 0;
    while j < i
        invariant
            j <= i < collections.len(),
            names == names_of(collections@),
            forall|k: int| 0 <= k < j ==> #[trigger] names[k] != names[i as int],
        decreases i - j,
    {
        if same_text(collections[j].name.as_str(), collections[i].name.as_str()) {
            assert(names[j as int] == names[i as int]);
            return false;
        }
        j = j + 1;
    }
    true
}

fn pick_documents(docs: &Vec<ExportedDoc>, name: &str) -> (r: Vec<ExportedDocument>)
    ensures
        r.deep_view() == documents_of(docs@, name@),
        forall|i: int|
            0 <= i < docs.len() && (#[trigger] docs@[i]).collection@ == name@
                ==> r.deep_view().contains(exported(docs@[i])),
{
    let mut r: Vec<ExportedDocument> = Vec::new();
    let mut i: usize = 0;
    assert(docs@.take(0) =~= Seq::<ExportedDoc>::empty());
    assert(r.deep_view() =~= Seq::<DocumentModel>::empty());
    while i < docs.len()
        invariant
            i <= docs.len(),
            r.deep_view() == documents_of(docs@.take(i as int), name@),
        decreases docs.len() - i,
    {
        let ghost before = r.deep_view();
        assert(docs@.take(i + 1).drop_last() =~= docs@.take(i as int));
        if same_text(docs[i].collection.as_str(), name) {
            let d = ExportedDocument {
                url: docs[i].url.clone(),
                title: docs[i].title.clone(),
                body: docs[i].body.clone(),
                indexed_at: docs[i].indexed_at,
            };
            r.push(d);
            assert(r.deep_view() =~= before.push(exported(docs@[i as int])));
        }
        i = i + 1;
    }
    assert(docs@.take(docs@.len() as int) =~= docs@);
    proof {
        assert forall|k: int| 0 <= k < docs.len() && (
        #[trigger] docs@[k]).collection@ == name@ implies r.deep_view().contains(
            exported(docs@[k]),
        ) by {
            every_document_is_exported(docs@, k);
        }
    }
    r
}

/// `c` is the collection `dump` with its documents: those of its name, unless
/// an earlier collection has the name too.
pub open spec fn is_filled(
    c: ExportedCollection,
    dumps: Seq<ExportedCollection>,
    i: int,
    docs: Seq<ExportedDoc>,
) -> bool {
    let dump = dumps[i];
    &&& c.name == dump.name
    &&& c.description == dump.description
    &&& c.created_at == dump.created_at
    &&& c.updated_at == dump.updated_at
    &&& c.crawl_targets == dump.crawl_targets
    &&& c.ranking_config == dump.ranking_config
    &&& c.outlink_host_suggestions == dump.outlink_host_suggestions
    &&& c.documents.deep_view() == (if is_first(names_of(dumps), i) {
        documents_of(docs, dump.name@)
    } else {
        Seq::empty()
    })
}

/// The names are in their order.
pub open spec fn named_in_order(collections: Seq<ExportedCollection>) -> bool {
    forall|i: int, j: int|
        0 <= i < j < collections.len() ==> text_le(
            (#[trigger] collections[i]).name@,
            (#[trigger] collections[j]).name@,
        )
}

/// `c` put into a list in the order of names, behind those of the same name.
pub open spec fn insert_named(
    sorted: Seq<ExportedCollection>,
    c: ExportedCollection,
) -> Seq<ExportedCollection>
    decreases sorted.len(),
{
    if sorted.len() == 0 || text_le(sorted.last().name@, c.name@) {
        sorted.push(c)
    } else {
        insert_named(sorted.drop_last(), c).push(sorted.last())
    }
}

/// The collections in the order of their names.
pub open spec fn by_name(collections: Seq<ExportedCollection>) -> Seq<ExportedCollection>
    decreases collections.len(),
{
    if collections.len() == 0 {
        Seq::empty()
    } else {
        insert_named(by_name(collections.drop_last()), collections.last())
    }
}

fn insert_by_name(v: &mut Vec<ExportedCollection>, c: ExportedCollection)
    ensures
        final(v)@ == insert_named(old(v)@, c),
{
    let ghost before = v@;
    let mut k: usize = v.len();
    assert(before.take(k as int) =~= before);
    assert(insert_named(before, c) + Seq::<ExportedCollection>::empty() =~= insert_named(before, c));
    assert(before.skip(k as int) =~= Seq::<ExportedCollection>::empty());
    while k > 0 && comes_before(c.name.as_str(), v[k - 1].name.as_str())
        invariant
            k <= v.len(),
            before == v@,
            insert_named(before, c) == insert_named(before.take(k as int), c) + before.skip(
                k as int,
            ),
        decreases k,
    {
        proof {
            let t = before.take(k as int);
            assert(t.drop_last() =~= before.take(k - 1));
            assert(t.last() == before[k - 1]);
            assert(insert_named(t, c) + before.skip(k as int) =~= insert_named(
                before.take(k - 1),
                c,
            ) + before.skip(k - 1));
        }
        k = k - 1;
    }
    proof {
        let t = before.take(k as int);
        if k > 0 {
            assert(t.last() == before[k - 1]);
        }
        assert(insert_named(t, c) == t.push(c));
    }
    v.insert(k, c);
    assert(v@ =~= before.take(k as int).push(c) + before.skip(k as int));
}

fn sort_by_name(collections: Vec<ExportedCollection>) -> (r: Vec<ExportedCollection>)
    ensures
        r@ == by_name(collections@),
    decreases collections.len(),
{
    let ghost all = collections@;
    let mut left = collections;
    match left.pop() {
        None => left,
        Some(last) => {
            assert(left@ =~= all.drop_last());
            let mut r = sort_by_name(left);
            insert_by_name(&mut r, last);
            r
        },
    }
}

proof fn lemma_insert_named(sorted: Seq<ExportedCollection>, c: ExportedCollection)
    requires
        named_in_order(sorted),
    ensures
        named_in_order(insert_named(sorted, c)),
        insert_named(sorted, c).to_multiset() == sorted.to_multiset().insert(c),
    decreases sorted.len(),
{
    sorted.to_multiset_ensures();
    let r = insert_named(sorted, c);
    if sorted.len() == 0 || text_le(sorted.last().name@, c.name@) {
        assert forall|i: int, j: int| 0 <= i < j < r.len() implies text_le(
            (#[trigger] r[i]).name@,
            (#[trigger] r[j]).name@,
        ) by {
            if j == sorted.len() && i < sorted.len() - 1 {
                assert(sorted[i] == r[i] && sorted[sorted.len() - 1] == sorted.last());
                lemma_text_le_transitive(r[i].name@, sorted.last().name@, c.name@);
            }
        }
    } else {
        let front = sorted.drop_last();
        let inner = insert_named(front, c);
        assert forall|i: int, j: int| 0 <= i < j < front.len() implies text_le(
            (#[trigger] front[i]).name@,
            (#[trigger] front[j]).name@,
        ) by {
            assert(sorted[i] == front[i] && sorted[j] == front[j]);
        }
        lemma_insert_named(front, c);
        lemma_text_lt_asymmetric(c.name@, sorted.last().name@);
        front.to_multiset_ensures();
        inner.to_multiset_ensures();
        assert(sorted =~= front.push(sorted.last()));
        assert forall|i: int, j: int| 0 <= i < j < r.len() implies text_le(
            (#[trigger] r[i]).name@,
            (#[trigger] r[j]).name@,
        ) by {
            if j < inner.len() {
                assert(inner[i] == r[i] && inner[j] == r[j]);
            } else {
                assert(inner.contains(inner[i]));
                assert(inner.to_multiset().count(inner[i]) > 0);
                if inner[i] != c {
                    assert(front.to_multiset().count(inner[i]) > 0);
                    assert(front.contains(inner[i]));
                    let k = choose|k: int| 0 <= k < front.len() && front[k] == inner[i];
                    assert(sorted[k] == inner[i] && sorted[sorted.len() - 1] == sorted.last());
                }
            }
        }
        assert(r.to_multiset() =~= sorted.to_multiset().insert(c));
    }
}

/// `r` is an export of the collections `dumps` and the documents `docs`.
pub open spec fn is_export_of(
    r: ExportEnvelope,
    self_url: Seq<char>,
    exported_at: Seq<char>,
    dumps: Seq<ExportedCollection>,
    docs: Seq<ExportedDoc>,
) -> bool {
    &&& r.format_version == FORMAT_VERSION
    &&& r.exported_at@ == exported_at
    &&& r.self_url@ == self_url
    &&& r.collections.len() == dumps.len()
    &&& forall|i: int|
        0 <= i < dumps.len() ==> is_filled(#[trigger] r.collections@[i], by_name(dumps), i, docs)
}

/// Builds an export: the collections that the database holds, in the order of
/// their names and each with the documents that the index holds under its name,
/// and the peers.
pub fn build_envelope(
    self_url: &str,
    exported_at: &str,
    dumps: Vec<ExportedCollection>,
    docs: &Vec<ExportedDoc>,
    node_peers: Vec<ExportedNodePeer>,
    collection_peers: Vec<ExportedCollectionPeer>,
) -> (r: ExportEnvelope)
    ensures
        is_export_of(r, self_url@, exported_at@, dumps@, docs@),
        r.node_peers == node_peers,
        r.collection_peers == collection_peers,
{
    let ghost all = by_name(dumps@);
    let ghost names = names_of(all);
    proof {
        collections_are_ordered(dumps@);
    }
    let mut collections = sort_by_name(dumps);
    let mut i: usize = 0;
    while i < collections.len()
        invariant
            i <= collections.len(),
            collections.len() == all.len(),
            names == names_of(all),
            names_of(collections@) == names,
            forall|j: int| 0 <= j < i ==> is_filled(#[trigger] collections@[j], all, j, docs@),
            forall|j: int| i <= j < all.len() ==> #[trigger] collections@[j] == all[j],
        decreases collections.len() - i,
    {
        let documents = if first_named(&collections, i) {
            pick_documents(docs, collections[i].name.as_str())
        } else {
            let none: Vec<ExportedDocument> = Vec::new();
            assert(none.deep_view() =~= Seq::<DocumentModel>::empty());
            none
        };
        let ghost before = collections@;
        collections[i].documents = documents;
        proof {
            assert(collections@[i as int].name == before[i as int].name);
            assert(names_of(collections@) =~= names);
        }
        i = i + 1;
    }
    ExportEnvelope {
        format_version: FORMAT_VERSION,
        exported_at: exported_at.to_owned(),
        self_url: self_url.to_owned(),
        collections,
        node_peers,
        collection_peers,
    }
}

// ---------------------------------------------------------------------------
// What is taken over
// ---------------------------------------------------------------------------

/// What an import took over and what it left out.
#[derive(Debug, Clone, Copy, PartialEq, Eq, Structural)]
pub struct ImportReport {
    pub collections_imported: usize,
    pub collections_skipped: usize,
    pub crawl_targets_imported: usize,
    pub crawled_pages_imported: usize,
    pub documents_queued: usize,
    pub outlink_host_suggestions_imported: usize,
    pub node_peers_imported: usize,
    pub node_peers_skipped: usize,
    pub collection_peers_imported: usize,
    pub collection_peers_skipped: usize,
}

impl Default for ImportReport {
    fn default() -> (r: ImportReport)
        ensures
            r == empty_report(),
    {
        ImportReport {
            collections_imported: 0,
            collections_skipped: 0,
            crawl_targets_imported: 0,
            crawled_pages_imported: 0,
            documents_queued: 0,
            outlink_host_suggestions_imported: 0,
            node_peers_imported: 0,
            node_peers_skipped: 0,
            collection_peers_imported: 0,
            collection_peers_skipped: 0,
        }
    }
}

/// The report of an import that did nothing yet.
pub open spec fn empty_report() -> ImportReport {
    ImportReport {
        collections_imported: 0,
        collections_skipped: 0,
        crawl_targets_imported: 0,
        crawled_pages_imported: 0,
        documents_queued: 0,
        outlink_host_suggestions_imported: 0,
        node_peers_imported: 0,
        node_peers_skipped: 0,
        collection_peers_imported: 0,
        collection_peers_skipped: 0,
    }
}

/// The key at `i` is new: it is neither known nor at an earlier place.
pub open spec fn is_new(known: Seq<Seq<char>>, keys: Seq<Seq<char>>, i: int) -> bool {
    !known.contains(keys[i]) && is_first(keys, i)
}

/// The places below `n` whose keys are new, in order.
pub open spec fn new_places(known: Seq<Seq<char>>, keys: Seq<Seq<char>>, n: nat) -> Seq<usize>
    decreases n,
{
    if n == 0 {
        Seq::empty()
    } else {
        let front = new_places(known, keys, (n - 1) as nat);
        if is_new(known, keys, n - 1) {
            front.push((n - 1) as usize)
        } else {
            front
        }
    }
}

/// The URLs of some peers.
pub open spec fn urls_of(peers: Seq<ExportedNodePeer>) -> Seq<Seq<char>> {
    Seq::new(peers.len(), |i: int| peers[i].url@)
}

/// The key is there after an import: it was known or came with it.
pub open spec fn is_there(known: Seq<Seq<char>>, keys: Seq<Seq<char>>, key: Seq<char>) -> bool {
    known.contains(key) || keys.contains(key)
}

/// The collection and the peer of a subscription are there after the import.
pub open spec fn is_wanted(
    s: ExportedCollectionPeer,
    env: ExportEnvelope,
    known_names: Seq<Seq<char>>,
    known_urls: Seq<Seq<char>>,
) -> bool {
    is_there(known_names, names_of(env.collections@), s.local_collection@) && is_there(
        known_urls,
        urls_of(env.node_peers@),
        s.node_peer_url@,
    )
}

/// The places below `n` of the subscriptions that are taken over, in order.
pub open spec fn wanted_places(
    env: ExportEnvelope,
    known_names: Seq<Seq<char>>,
    known_urls: Seq<Seq<char>>,
    n: nat,
) -> Seq<usize>
    decreases n,
{
    if n == 0 {
        Seq::empty()
    } else {
        let front = wanted_places(env, known_names, known_urls, (n - 1) as nat);
        if is_wanted(env.collection_peers@[n - 1], env, known_names, known_urls) {
            front.push((n - 1) as usize)
        } else {
            front
        }
    }
}

/// The number of pages below some targets.
pub open spec fn page_count(targets: Seq<ExportedCrawlTarget>) -> nat
    decreases targets.len(),
{
    if targets.len() == 0 {
        0
    } else {
        page_count(targets.drop_last()) + targets.last().crawled_pages.len() as nat
    }
}

/// How many rows the new collections at some places bring.
pub struct RowCounts {
    pub targets: nat,
    pub pages: nat,
    pub documents: nat,
    pub suggestions: nat,
}

/// How many rows the collections at the given places bring.
pub open spec fn rows_at(collections: Seq<ExportedCollection>, places: Seq<usize>) -> RowCounts
    decreases places.len(),
{
    if places.len() == 0 {
        RowCounts { targets: 0, pages: 0, documents: 0, suggestions: 0 }
    } else {
        let front = rows_at(collections, places.drop_last());
        let c = collections[places.last() as int];
        RowCounts {
            targets: front.targets + c.crawl_targets.len() as nat,
            pages: front.pages + page_count(c.crawl_targets@),
            documents: front.documents + c.documents.len() as nat,
            suggestions: front.suggestions + c.outlink_host_suggestions.len() as nat,
        }
    }
}

/// The rows of all collections can be counted.
pub open spec fn rows_fit(rows: RowCounts) -> bool {
    rows.targets <= usize::MAX && rows.pages <= usize::MAX && rows.documents <= usize::MAX
        && rows.suggestions <= usize::MAX
}

/// What an import takes over, by place in the export, and its report. The
/// report counts no subscription as taken over yet: that is known once it was
/// stored.
#[derive(Debug)]
pub struct ImportPlan {
    pub collections: Vec<usize>,
    pub node_peers: Vec<usize>,
    pub collection_peers: Vec<usize>,
    pub report: ImportReport,
}

fn knows(known: &Vec<String>, key: &str) -> (r: bool)
    ensures
        r == known.deep_view().contains(key@),
{
    let ghost all = known.deep_view();
    let mut i: usize = 0;
    while i < known.len()
        invariant
            i <= known.len(),
            all == known.deep_view(),
            forall|j: int| 0 <= j < i ==> #[trigger] all[j] != key@,
        decreases known.len() - i,
    {
        assert(all[i as int] == known@[i as int]@);
        if same_text(known[i].as_str(), key) {
            return true;
        }
        i = i + 1;
    }
    false
}

fn pick_new(known: &Vec<String>, keys: &Vec<String>) -> (r: Vec<usize>)
    ensures
        r@ == new_places(known.deep_view(), keys.deep_view(), keys.len() as nat),
{
    let ghost k = known.deep_view();
    let ghost all = keys.deep_view();
    let mut r: Vec<usize> = Vec::new();
    let mut i: usize = 0;
    while i < keys.len()
        invariant
            i <= keys.len(),
            k == known.deep_view(),
            all == keys.deep_view(),
            r@ == new_places(k, all, i as nat),
        decreases keys.len() - i,
    {
        assert(all[i as int] == keys@[i as int]@);
        let mut first = true;
        let mut j: usize = 0;
        while j < i
            invariant
                j <= i < keys.len(),
                all == keys.deep_view(),
                first == forall|m: int| 0 <= m < j ==> #[trigger] all[m] != all[i as int],
            decreases i - j,
        {
            assert(all[j as int] == keys@[j as int]@);
            assert(all[i as int] == keys@[i as int]@);
            if same_text(keys[j].as_str(), keys[i].as_str()) {
                first = false;
            }
            j = j + 1;
        }
        if first && !knows(known, keys[i].as_str()) {
            r.push(i);
        }
        i = i + 1;
    }
    r
}

fn collection_names(collections: &Vec<ExportedCollection>) -> (r: Vec<String>)
    ensures
        r.deep_view() == names_of(collections@),
        r.len() == collections.len(),
{
    let mut r: Vec<String> = Vec::new();
    let mut i: usize = 0;
    while i < collections.len()
        invariant
            i <= collections.len(),
            r.len() == i,
            forall|j: int| 0 <= j < i ==> (#[trigger] r@[j])@ == collections@[j].name@,
        decreases collections.len() - i,
    {
        r.push(collections[i].name.clone());
        i = i + 1;
    }
    assert(r.deep_view() =~= names_of(collections@));
    r
}

fn peer_urls(peers: &Vec<ExportedNodePeer>) -> (r: Vec<String>)
    ensures
        r.deep_view() == urls_of(peers@),
        r.len() == peers.len(),
{
    let mut r: Vec<String> = Vec::new();
    let mut i: usize = 0;
    while i < peers.len()
        invariant
            i <= peers.len(),
            r.len() == i,
            forall|j: int| 0 <= j < i ==> (#[trigger] r@[j])@ == peers@[j].url@,
        decreases peers.len() - i,
    {
        r.push(peers[i].url.clone());
        i = i + 1;
    }
    assert(r.deep_view() =~= urls_of(peers@));
    r
}

proof fn lemma_page_count_grows(targets: Seq<ExportedCrawlTarget>, k: int)
    requires
        0 <= k <= targets.len(),
    ensures
        page_count(targets.take(k)) <= page_count(targets),
    decreases targets.len(),
{
    if k == targets.len() {
        assert(targets.take(k) =~= targets);
    } else {
        lemma_page_count_grows(targets.drop_last(), k);
        assert(targets.drop_last().take(k) =~= targets.take(k));
    }
}

fn count_pages(targets: &Vec<ExportedCrawlTarget>) -> (r: usize)
    requires
        page_count(targets@) <= usize::MAX,
    ensures
        r == page_count(targets@),
{
    let mut n: usize = 0;
    let mut i: usize = 0;
    assert(targets@.take(0) =~= Seq::<ExportedCrawlTarget>::empty());
    while i < targets.len()
        invariant
            i <= targets.len(),
            page_count(targets@) <= usize::MAX,
            n == page_count(targets@.take(i as int)),
        decreases targets.len() - i,
    {
        proof {
            assert(targets@.take(i + 1).drop_last() =~= targets@.take(i as int));
            lemma_page_count_grows(targets@, i + 1);
        }
        n = n + targets[i].crawled_pages.len();
        i = i + 1;
    }
    assert(targets@.take(targets@.len() as int) =~= targets@);
    n
}

proof fn lemma_new_places(known: Seq<Seq<char>>, keys: Seq<Seq<char>>, n: nat)
    requires
        n <= keys.len(),
        keys.len() <= usize::MAX,
    ensures
        new_places(known, keys, n).len() <= n,
        forall|i: int|
            0 <= i < new_places(known, keys, n).len() ==> (#[trigger] new_places(
                known,
                keys,
                n,
            )[i]) < n && is_new(known, keys, new_places(known, keys, n)[i] as int),
        forall|i: int, j: int|
            0 <= i < j < new_places(known, keys, n).len() ==> new_places(known, keys, n)[i]
                < new_places(known, keys, n)[j],
        forall|p: int| #![trigger is_new(known, keys, p)]
            0 <= p < n && is_new(known, keys, p) ==> new_places(known, keys, n).contains(
                p as usize,
            ),
    decreases n,
{
    if n > 0 {
        lemma_new_places(known, keys, (n - 1) as nat);
        let front = new_places(known, keys, (n - 1) as nat);
        let all = new_places(known, keys, n);
        assert forall|p: int| #![trigger is_new(known, keys, p)]
            0 <= p < n && is_new(known, keys, p) implies all.contains(p as usize) by {
            if p < n - 1 {
                assert(front.contains(p as usize));
                let k = choose|k: int| 0 <= k < front.len() && front[k] == p as usize;
                assert(all[k] == p as usize);
            } else {
                assert(all[front.len() as int] == p as usize);
            }
        }
    }
}

proof fn lemma_rows_grow(collections: Seq<ExportedCollection>, places: Seq<usize>, k: int)
    requires
        0 <= k <= places.len(),
    ensures
        rows_at(collections, places.take(k)).targets <= rows_at(collections, places).targets,
        rows_at(collections, places.take(k)).pages <= rows_at(collections, places).pages,
        rows_at(collections, places.take(k)).documents <= rows_at(collections, places).documents,
        rows_at(collections, places.take(k)).suggestions <= rows_at(
            collections,
            places,
        ).suggestions,
    decreases places.len(),
{
    if k == places.len() {
        assert(places.take(k) =~= places);
    } else {
        lemma_rows_grow(collections, places.drop_last(), k);
        assert(places.drop_last().take(k) =~= places.take(k));
    }
}

fn count_rows(collections: &Vec<ExportedCollection>, places: &Vec<usize>, report: &mut ImportReport)
    requires
        rows_fit(rows_at(collections@, places@)),
        forall|i: int| 0 <= i < places.len() ==> (#[trigger] places@[i]) < collections.len(),
    ensures
        *final(report) == (ImportReport {
            crawl_targets_imported: rows_at(collections@, places@).targets as usize,
            crawled_pages_imported: rows_at(collections@, places@).pages as usize,
            documents_queued: rows_at(collections@, places@).documents as usize,
            outlink_host_suggestions_imported: rows_at(
                collections@,
                places@,
            ).suggestions as usize,
            ..*old(report)
        }),
{
    let mut targets: usize = 0;
    let mut pages: usize = 0;
    let mut documents: usize = 0;
    let mut suggestions: usize = 0;
    let mut i: usize = 0;
    assert(places@.take(0) =~= Seq::<usize>::empty());
    while i < places.len()
        invariant
            i <= places.len(),
            rows_fit(rows_at(collections@, places@)),
            forall|j: int| 0 <= j < places.len() ==> (#[trigger] places@[j]) < collections.len(),
            targets == rows_at(collections@, places@.take(i as int)).targets,
            pages == rows_at(collections@, places@.take(i as int)).pages,
            documents == rows_at(collections@, places@.take(i as int)).documents,
            suggestions == rows_at(collections@, places@.take(i as int)).suggestions,
        decreases places.len() - i,
    {
        proof {
            assert(places@.take(i + 1).drop_last() =~= places@.take(i as int));
            lemma_rows_grow(collections@, places@, i + 1);
        }
        let c = &collections[places[i]];
        targets = targets + c.crawl_targets.len();
        pages = pages + count_pages(&c.crawl_targets);
        documents = documents + c.documents.len();
        suggestions = suggestions + c.outlink_host_suggestions.len();
        i = i + 1;
    }
    assert(places@.take(places@.len() as int) =~= places@);
    report.crawl_targets_imported = targets;
    report.crawled_pages_imported = pages;
    report.documents_queued = documents;
    report.outlink_host_suggestions_imported = suggestions;
}

/// The report of an import before its subscriptions were stored.
pub open spec fn planned_report(
    env: ExportEnvelope,
    known_names: Seq<Seq<char>>,
    known_urls: Seq<Seq<char>>,
) -> ImportReport {
    let collections = new_places(
        known_names,
        names_of(env.collections@),
        env.collections.len() as nat,
    );
    let peers = new_places(known_urls, urls_of(env.node_peers@), env.node_peers.len() as nat);
    let wanted = wanted_places(
        env,
        known_names,
        known_urls,
        env.collection_peers.len() as nat,
    );
    let rows = rows_at(env.collections@, collections);
    ImportReport {
        collections_imported: collections.len() as usize,
        collections_skipped: (env.collections.len() - collections.len()) as usize,
        crawl_targets_imported: rows.targets as usize,
        crawled_pages_imported: rows.pages as usize,
        documents_queued: rows.documents as usize,
        outlink_host_suggestions_imported: rows.suggestions as usize,
        node_peers_imported: peers.len() as usize,
        node_peers_skipped: (env.node_peers.len() - peers.len()) as usize,
        collection_peers_imported: 0,
        collection_peers_skipped: (env.collection_peers.len() - wanted.len()) as usize,
    }
}

proof fn lemma_wanted_places(
    env: ExportEnvelope,
    known_names: Seq<Seq<char>>,
    known_urls: Seq<Seq<char>>,
    n: nat,
)
    ensures
        wanted_places(env, known_names, known_urls, n).len() <= n,
    decreases n,
{
    if n > 0 {
        lemma_wanted_places(env, known_names, known_urls, (n - 1) as nat);
    }
}

/// Plans the import of `env` into an instance that holds collections with the
/// names `known_names` and peers at `known_urls`.
pub fn plan_import(env: &ExportEnvelope, known_names: &Vec<String>, known_urls: &Vec<String>) -> (r:
    ImportPlan)
    requires
        rows_fit(
            rows_at(
                env.collections@,
                new_places(
                    known_names.deep_view(),
                    names_of(env.collections@),
                    env.collections.len() as nat,
                ),
            ),
        ),
    ensures
        r.collections@ == new_places(
            known_names.deep_view(),
            names_of(env.collections@),
            env.collections.len() as nat,
        ),
        r.node_peers@ == new_places(
            known_urls.deep_view(),
            urls_of(env.node_peers@),
            env.node_peers.len() as nat,
        ),
        r.collection_peers@ == wanted_places(
            *env,
            known_names.deep_view(),
            known_urls.deep_view(),
            env.collection_peers.len() as nat,
        ),
        r.report == planned_report(*env, known_names.deep_view(), known_urls.deep_view()),
{
    let names = collection_names(&env.collections);
    let urls = peer_urls(&env.node_peers);
    let collections = pick_new(known_names, &names);
    let node_peers = pick_new(known_urls, &urls);
    proof {
        assert(names.deep_view().len() == names.len());
        assert(urls.deep_view().len() == urls.len());
        lemma_new_places(known_names.deep_view(), names.deep_view(), names.len() as nat);
        lemma_new_places(known_urls.deep_view(), urls.deep_view(), urls.len() as nat);
        lemma_wanted_places(
            *env,
            known_names.deep_view(),
            known_urls.deep_view(),
            env.collection_peers.len() as nat,
        );
    }
    let mut collection_peers: Vec<usize> = Vec::new();
    let mut i: usize = 0;
    while i < env.collection_peers.len()
        invariant
            i <= env.collection_peers.len(),
            names.deep_view() == names_of(env.collections@),
            urls.deep_view() == urls_of(env.node_peers@),
            collection_peers@ == wanted_places(
                *env,
                known_names.deep_view(),
                known_urls.deep_view(),
                i as nat,
            ),
        decreases env.collection_peers.len() - i,
    {
        let s = &env.collection_peers[i];
        let collection_there = knows(known_names, s.local_collection.as_str()) || knows(
            &names,
            s.local_collection.as_str(),
        );
        let peer_there = knows(known_urls, s.node_peer_url.as_str()) || knows(
            &urls,
            s.node_peer_url.as_str(),
        );
        if collection_there && peer_there {
            collection_peers.push(i);
        }
        i = i + 1;
    }
    let mut report = ImportReport {
        collections_imported: collections.len(),
        collections_skipped: env.collections.len() - collections.len(),
        crawl_targets_imported: 0,
        crawled_pages_imported: 0,
        documents_queued: 0,
        outlink_host_suggestions_imported: 0,
        node_peers_imported: node_peers.len(),
        node_peers_skipped: env.node_peers.len() - node_peers.len(),
        collection_peers_imported: 0,
        collection_peers_skipped: env.collection_peers.len() - collection_peers.len(),
    };
    count_rows(&env.collections, &collections, &mut report);
    ImportPlan { collections, node_peers, collection_peers, report }
}

/// Notes in the report whether a subscription was stored: one that was there
/// already counts as left out.
pub fn note_collection_peer(report: &mut ImportReport, inserted: bool)
    requires
        old(report).collection_peers_imported < usize::MAX,
        old(report).collection_peers_skipped < usize::MAX,
    ensures
        *final(report) == if inserted {
            ImportReport {
                collection_peers_imported: (old(report).collection_peers_imported + 1) as usize,
                ..*old(report)
            }
        } else {
            ImportReport {
                collection_peers_skipped: (old(report).collection_peers_skipped + 1) as usize,
                ..*old(report)
            }
        },
{
    if inserted {
        report.collection_peers_imported = report.collection_peers_imported + 1;
    } else {
        report.collection_peers_skipped = report.collection_peers_skipped + 1;
    }
}

// ---------------------------------------------------------------------------
// The rows of a collection that is taken over
// ---------------------------------------------------------------------------

/// The time that a row is stamped with: its own, where it has one.
pub open spec fn stamp(own: Seq<char>, now: Seq<char>) -> Seq<char> {
    if own.len() == 0 {
        now
    } else {
        own
    }
}

/// The time that a row is stamped with.
pub fn stamped(own: &str, now: &str) -> (r: String)
    ensures
        r@ == stamp(own@, now@),
{
    if own.is_empty() {
        now.to_owned()
    } else {
        own.to_owned()
    }
}

/// A page without what was committed of it: nothing of it is in the index
/// here yet.
pub open spec fn uncommitted(p: PageModel) -> PageModel {
    PageModel { indexed_content_hash: None, ..p }
}

fn import_page(p: &ExportedCrawledPage) -> (r: ExportedCrawledPage)
    ensures
        r.deep_view() == uncommitted(p.deep_view()),
{
    ExportedCrawledPage {
        url: p.url.clone(),
        etag: copy_opt(&p.etag),
        last_modified: copy_opt(&p.last_modified),
        content_hash: copy_opt(&p.content_hash),
        last_status: p.last_status,
        last_crawled_at: p.last_crawled_at,
        indexed_content_hash: None,
    }
}

/// A crawl target to store, with its pages.
#[derive(Debug, Clone)]
pub struct ImportedTarget {
    pub id: String,
    pub collection_id: String,
    pub url_prefix: String,
    pub recrawl_interval_s: i64,
    pub recrawl_interval_secs: i64,
    pub enabled: i64,
    pub crawl_delay_secs: Option<i64>,
    pub created_at: String,
    pub crawled_pages: Vec<ExportedCrawledPage>,
}

/// A suggestion to store.
#[derive(Debug, Clone)]
pub struct ImportedSuggestion {
    pub id: String,
    pub suggestion: ExportedOutlinkHostSuggestion,
}

/// A collection to store, with everything below it.
#[derive(Debug, Clone)]
pub struct ImportedCollection {
    pub id: String,
    pub name: String,
    pub description: String,
    pub created_at: String,
    pub updated_at: String,
    pub crawl_targets: Vec<ImportedTarget>,
    pub ranking_config: Option<ExportedRankingConfig>,
    pub outlink_host_suggestions: Vec<ImportedSuggestion>,
    pub jobs: Vec<IndexJob>,
}

/// `r` is the target `t` under another identity, below the collection `id`.
pub open spec fn is_target_of(
    r: ImportedTarget,
    t: ExportedCrawlTarget,
    id: Seq<char>,
    now: Seq<char>,
) -> bool {
    &&& r.collection_id@ == id
    &&& r.url_prefix@ == t.url_prefix@
    &&& r.recrawl_interval_s == t.recrawl_interval_s
    &&& r.recrawl_interval_secs == t.recrawl_interval_secs
    &&& r.enabled == t.enabled
    &&& r.crawl_delay_secs == t.crawl_delay_secs
    &&& r.created_at@ == stamp(t.created_at@, now)
    &&& r.crawled_pages.deep_view() == t.crawled_pages.deep_view().map_values(
        |p: PageModel| uncommitted(p),
    )
}

/// `r` is the collection `c` under another identity: its own data, its targets
/// with their pages, its ranking, its suggestions, and a job for each of its
/// documents. Everything below it refers to that identity.
pub open spec fn is_copy_of(
    r: ImportedCollection,
    c: ExportedCollection,
    now: Seq<char>,
) -> bool {
    &&& r.name@ == c.name@
    &&& r.description@ == c.description@
    &&& r.created_at@ == stamp(c.created_at@, now)
    &&& r.updated_at@ == stamp(c.updated_at@, now)
    &&& r.crawl_targets.len() == c.crawl_targets.len()
    &&& forall|i: int|
        0 <= i < c.crawl_targets.len() ==> is_target_of(
            #[trigger] r.crawl_targets@[i],
            c.crawl_targets@[i],
            r.id@,
            now,
        )
    &&& r.ranking_config.deep_view() == c.ranking_config.deep_view()
    &&& r.outlink_host_suggestions.len() == c.outlink_host_suggestions.len()
    &&& forall|i: int|
        0 <= i < c.outlink_host_suggestions.len() ==> (
        #[trigger] r.outlink_host_suggestions@[i]).suggestion.deep_view()
            == c.outlink_host_suggestions@[i].deep_view()
    &&& r.jobs.deep_view() == c.documents.deep_view().map_values(
        |d: DocumentModel| document_job(d, c.name@, r.id@),
    )
}

/// The identities of a collection and of what stands below it.
pub struct ImportIds {
    pub collection: String,
    pub targets: Vec<String>,
    pub suggestions: Vec<String>,
}

/// The rows have the given identities.
pub open spec fn has_ids(r: ImportedCollection, ids: ImportIds) -> bool {
    &&& r.id@ == ids.collection@
    &&& r.crawl_targets.len() == ids.targets.len()
    &&& forall|i: int|
        0 <= i < ids.targets.len() ==> (#[trigger] r.crawl_targets@[i]).id@ == ids.targets@[i]@
    &&& r.outlink_host_suggestions.len() == ids.suggestions.len()
    &&& forall|i: int|
        0 <= i < ids.suggestions.len() ==> (#[trigger] r.outlink_host_suggestions@[i]).id@
            == ids.suggestions@[i]@
}

/// `r` is the collection `c` under new identities.
pub open spec fn is_taken_over(
    r: ImportedCollection,
    c: ExportedCollection,
    now: Seq<char>,
) -> bool {
    &&& is_copy_of(r, c, now)
    &&& is_id(r.id@)
    &&& forall|i: int| 0 <= i < r.crawl_targets.len() ==> is_id((#[trigger] r.crawl_targets@[i]).id@)
    &&& forall|i: int|
        0 <= i < r.outlink_host_suggestions.len() ==> is_id(
            (#[trigger] r.outlink_host_suggestions@[i]).id@,
        )
}

fn import_target(
    t: &ExportedCrawlTarget,
    id: &String,
    collection_id: &str,
    now: &str,
) -> (r: ImportedTarget)
    ensures
        is_target_of(r, *t, collection_id@, now@),
        r.id@ == id@,
{
    let mut pages: Vec<ExportedCrawledPage> = Vec::new();
    let mut i: usize = 0;
    while i < t.crawled_pages.len()
        invariant
            i <= t.crawled_pages.len(),
            pages.len() == i,
            forall|j: int|
                0 <= j < i ==> (#[trigger] pages@[j]).deep_view() == uncommitted(
                    t.crawled_pages@[j].deep_view(),
                ),
        decreases t.crawled_pages.len() - i,
    {
        pages.push(import_page(&t.crawled_pages[i]));
        i = i + 1;
    }
    assert(pages.deep_view() =~= t.crawled_pages.deep_view().map_values(
        |p: PageModel| uncommitted(p),
    ));
    ImportedTarget {
        id: id.clone(),
        collection_id: collection_id.to_owned(),
        url_prefix: t.url_prefix.clone(),
        recrawl_interval_s: t.recrawl_interval_s,
        recrawl_interval_secs: t.recrawl_interval_secs,
        enabled: t.enabled,
        crawl_delay_secs: t.crawl_delay_secs,
        created_at: stamped(t.created_at.as_str(), now),
        crawled_pages: pages,
    }
}

/// The fingerprint of an imported document: that of its body.
pub fn doc_content_hash(d: &ExportedDocument) -> (r: String)
    ensures
        r@ == sha256_hex(d.body@),
{
    hash_text(d.body.as_str())
}

/// The job that puts an imported document into the index.
pub open spec fn document_job(d: DocumentModel, name: Seq<char>, id: Seq<char>) -> JobModel {
    JobModel {
        collection_name: name,
        url: d.url,
        title: d.title,
        body: d.body,
        indexed_at: d.indexed_at,
        collection_id: id,
        content_hash: sha256_hex(d.body),
    }
}

/// The jobs that put the documents of a collection into the index, one for
/// each and in their order. `collection_id` is the identity that the
/// collection has here.
pub fn document_jobs(c: &ExportedCollection, collection_id: &str) -> (r: Vec<IndexJob>)
    ensures
        r.deep_view() == c.documents.deep_view().map_values(
            |d: DocumentModel| document_job(d, c.name@, collection_id@),
        ),
{
    let mut r: Vec<IndexJob> = Vec::new();
    let mut i: usize = 0;
    while i < c.documents.len()
        invariant
            i <= c.documents.len(),
            r.len() == i,
            forall|j: int|
                0 <= j < i ==> (#[trigger] r@[j]).deep_view() == document_job(
                    c.documents@[j].deep_view(),
                    c.name@,
                    collection_id@,
                ),
        decreases c.documents.len() - i,
    {
        let d = &c.documents[i];
        r.push(
            IndexJob {
                collection_name: c.name.clone(),
                url: d.url.clone(),
                title: d.title.clone(),
                body: d.body.clone(),
                indexed_at: d.indexed_at,
                collection_id: collection_id.to_owned(),
                content_hash: doc_content_hash(d),
            },
        );
        i = i + 1;
    }
    assert(r.deep_view() =~= c.documents.deep_view().map_values(
        |d: DocumentModel| document_job(d, c.name@, collection_id@),
    ));
    r
}

fn new_ids(n: usize) -> (r: Vec<String>)
    ensures
        r.len() == n,
        forall|i: int| 0 <= i < n ==> is_id((#[trigger] r@[i])@),
{
    let mut r: Vec<String> = Vec::new();
    while r.len() < n
        invariant
            r.len() <= n,
            forall|i: int| 0 <= i < r.len() ==> is_id((#[trigger] r@[i])@),
        decreases n - r.len(),
    {
        r.push(new_id());
    }
    r
}

/// The rows of a collection that is taken over under the given identities.
pub fn import_collection_as(c: &ExportedCollection, ids: &ImportIds, now: &str) -> (r:
    ImportedCollection)
    requires
        ids.targets.len() == c.crawl_targets.len(),
        ids.suggestions.len() == c.outlink_host_suggestions.len(),
    ensures
        is_copy_of(r, *c, now@),
        has_ids(r, *ids),
{
    let id = ids.collection.clone();
    let mut crawl_targets: Vec<ImportedTarget> = Vec::new();
    let mut i: usize = 0;
    while i < c.crawl_targets.len()
        invariant
            i <= c.crawl_targets.len(),
            ids.targets.len() == c.crawl_targets.len(),
            crawl_targets.len() == i,
            forall|j: int|
                0 <= j < i ==> (#[trigger] crawl_targets@[j]).id@ == ids.targets@[j]@,
            forall|j: int|
                0 <= j < i ==> is_target_of(
                    #[trigger] crawl_targets@[j],
                    c.crawl_targets@[j],
                    id@,
                    now@,
                ),
        decreases c.crawl_targets.len() - i,
    {
        crawl_targets.push(
            import_target(&c.crawl_targets[i], &ids.targets[i], id.as_str(), now),
        );
        i = i + 1;
    }
    let mut suggestions: Vec<ImportedSuggestion> = Vec::new();
    let mut k: usize = 0;
    while k < c.outlink_host_suggestions.len()
        invariant
            k <= c.outlink_host_suggestions.len(),
            ids.suggestions.len() == c.outlink_host_suggestions.len(),
            suggestions.len() == k,
            forall|j: int|
                0 <= j < k ==> (#[trigger] suggestions@[j]).id@ == ids.suggestions@[j]@
                    && suggestions@[j].suggestion.deep_view()
                    == c.outlink_host_suggestions@[j].deep_view(),
        decreases c.outlink_host_suggestions.len() - k,
    {
        suggestions.push(
            ImportedSuggestion {
                id: ids.suggestions[k].clone(),
                suggestion: c.outlink_host_suggestions[k].copy(),
            },
        );
        k = k + 1;
    }
    let ranking_config = match &c.ranking_config {
        Some(config) => Some(config.copy()),
        None => None,
    };
    let jobs = document_jobs(c, id.as_str());
    ImportedCollection {
        id,
        name: c.name.clone(),
        description: c.description.clone(),
        created_at: stamped(c.created_at.as_str(), now),
        updated_at: stamped(c.updated_at.as_str(), now),
        crawl_targets,
        ranking_config,
        outlink_host_suggestions: suggestions,
        jobs,
    }
}

/// The rows of a collection that is taken over under new identities.
pub fn import_collection(c: &ExportedCollection, now: &str) -> (r: ImportedCollection)
    ensures
        is_taken_over(r, *c, now@),
{
    let ids = ImportIds {
        collection: new_id(),
        targets: new_ids(c.crawl_targets.len()),
        suggestions: new_ids(c.outlink_host_suggestions.len()),
    };
    import_collection_as(c, &ids, now)
}

/// An import: what is to be stored and queued, and its report. Peers and
/// subscriptions are given by their place in the export.
#[derive(Debug)]
pub struct Import {
    pub collections: Vec<ImportedCollection>,
    pub node_peers: Vec<usize>,
    pub collection_peers: Vec<usize>,
    pub report: ImportReport,
}

/// `r` is the import of `env` into an instance that holds collections with the
/// names `known_names` and peers at `known_urls`.
pub open spec fn is_import_of(
    r: Import,
    env: ExportEnvelope,
    known_names: Seq<Seq<char>>,
    known_urls: Seq<Seq<char>>,
    now: Seq<char>,
) -> bool {
    let places = new_places(
        known_names,
        names_of(env.collections@),
        env.collections.len() as nat,
    );
    &&& r.collections.len() == places.len()
    &&& forall|k: int|
        0 <= k < places.len() ==> is_taken_over(
            #[trigger] r.collections@[k],
            env.collections@[places[k] as int],
            now,
        )
    &&& r.node_peers@ == new_places(
        known_urls,
        urls_of(env.node_peers@),
        env.node_peers.len() as nat,
    )
    &&& r.collection_peers@ == wanted_places(
        env,
        known_names,
        known_urls,
        env.collection_peers.len() as nat,
    )
    &&& r.report == planned_report(env, known_names, known_urls)
}

/// Imports `env` into an instance that holds collections with the names
/// `known_names` and peers at `known_urls`.
pub fn apply_envelope(
    env: &ExportEnvelope,
    known_names: &Vec<String>,
    known_urls: &Vec<String>,
    now: &str,
) -> (r: Import)
    requires
        rows_fit(
            rows_at(
                env.collections@,
                new_places(
                    known_names.deep_view(),
                    names_of(env.collections@),
                    env.collections.len() as nat,
                ),
            ),
        ),
    ensures
        is_import_of(r, *env, known_names.deep_view(), known_urls.deep_view(), now@),
{
    let plan = plan_import(env, known_names, known_urls);
    let ghost places = plan.collections@;
    proof {
        lemma_new_places(
            known_names.deep_view(),
            names_of(env.collections@),
            env.collections.len() as nat,
        );
    }
    let mut collections: Vec<ImportedCollection> = Vec::new();
    let mut k: usize = 0;
    while k < plan.collections.len()
        invariant
            k <= plan.collections.len(),
            plan.collections@ == places,
            collections.len() == k,
            forall|j: int|
                0 <= j < places.len() ==> (#[trigger] places[j]) < env.collections.len(),
            forall|j: int|
                0 <= j < k ==> is_taken_over(
                    #[trigger] collections@[j],
                    env.collections@[places[j] as int],
                    now@,
                ),
        decreases plan.collections.len() - k,
    {
        assert(places[k as int] < env.collections.len());
        collections.push(import_collection(&env.collections[plan.collections[k]], now));
        k = k + 1;
    }
    Import {
        collections,
        node_peers: plan.node_peers,
        collection_peers: plan.collection_peers,
        report: plan.report,
    }
}

// ---------------------------------------------------------------------------
// Laws
// ---------------------------------------------------------------------------

/// The order of an export is that of the names, and no collection is lost,
/// gained or changed by it.
pub proof fn collections_are_ordered(collections: Seq<ExportedCollection>)
    ensures
        named_in_order(by_name(collections)),
        by_name(collections).to_multiset() == collections.to_multiset(),
        by_name(collections).len() == collections.len(),
    decreases collections.len(),
{
    collections.to_multiset_ensures();
    by_name(collections).to_multiset_ensures();
    if collections.len() > 0 {
        let front = collections.drop_last();
        collections_are_ordered(front);
        lemma_insert_named(by_name(front), collections.last());
        front.to_multiset_ensures();
        assert(collections =~= front.push(collections.last()));
    }
}

/// Importing an exported body gives back the JSON that was exported, and so
/// does importing the JSON itself, which is no gzip stream.
pub proof fn bodies_survive_the_journey(body: Seq<u8>, json: Seq<u8>, read: Seq<u8>)
    requires
        is_gzip(body) && unpacks_to(body, json) || body == json && !is_gzip(json),
        reads_as(body, read),
    ensures
        read == json,
{
}

/// A collection is taken over exactly where its name is neither taken nor
/// taken over earlier in the same import, and none is taken over twice.
pub proof fn names_decide(
    known: Seq<Seq<char>>,
    keys: Seq<Seq<char>>,
    place: int,
)
    requires
        0 <= place < keys.len(),
        keys.len() <= usize::MAX,
    ensures
        new_places(known, keys, keys.len()).contains(place as usize) <==> is_new(
            known,
            keys,
            place,
        ),
        new_places(known, keys, keys.len()).no_duplicates(),
{
    lemma_new_places(known, keys, keys.len());
    let all = new_places(known, keys, keys.len());
    if all.contains(place as usize) {
        let i = choose|i: int| 0 <= i < all.len() && all[i] == place as usize;
        assert(is_new(known, keys, all[i] as int));
    }
}

/// Into an empty instance everything with a name of its own is taken over.
pub proof fn empty_instances_take_everything(keys: Seq<Seq<char>>, place: int)
    requires
        0 <= place < keys.len(),
        keys.len() <= usize::MAX,
        forall|i: int, j: int| 0 <= i < j < keys.len() ==> #[trigger] keys[i] != #[trigger] keys[j],
    ensures
        new_places(Seq::empty(), keys, keys.len()).contains(place as usize),
{
    names_decide(Seq::empty(), keys, place);
    assert(is_new(Seq::empty(), keys, place));
}

/// Importing the same export a second time takes over no collection and no
/// peer.
pub proof fn second_imports_add_nothing(known: Seq<Seq<char>>, keys: Seq<Seq<char>>, n: nat)
    requires
        n <= keys.len(),
        forall|i: int| 0 <= i < keys.len() ==> known.contains(#[trigger] keys[i]),
    ensures
        new_places(known, keys, n).len() == 0,
    decreases n,
{
    if n > 0 {
        second_imports_add_nothing(known, keys, (n - 1) as nat);
        assert(known.contains(keys[n - 1]));
    }
}

/// Every document of a collection that is exported and taken over elsewhere is
/// put into the index there, once, under the same name and with the same
/// content.
pub proof fn documents_survive_the_journey(
    docs: Seq<ExportedDoc>,
    name: Seq<char>,
    id: Seq<char>,
    i: int,
)
    requires
        0 <= i < documents_of(docs, name).len(),
    ensures
        ({
            let d = documents_of(docs, name)[i];
            let job = documents_of(docs, name).map_values(
                |d: DocumentModel| document_job(d, name, id),
            )[i];
            &&& job.collection_name == name
            &&& job.collection_id == id
            &&& job.url == d.url
            &&& job.title == d.title
            &&& job.body == d.body
            &&& job.indexed_at == d.indexed_at
            &&& exists|k: int|
                0 <= k < docs.len() && (#[trigger] docs[k]).collection@ == name && exported(docs[k])
                    == d
        }),
    decreases docs.len(),
{
    let front = docs.drop_last();
    let all = documents_of(docs, name);
    let before = documents_of(front, name);
    let d = all[i];
    if i < before.len() {
        documents_survive_the_journey(front, name, id, i);
        assert(before[i] == d);
        let k = choose|k: int|
            0 <= k < front.len() && (#[trigger] front[k]).collection@ == name && exported(front[k])
                == before[i];
        assert(docs[k].collection@ == name && exported(docs[k]) == d);
    } else {
        assert(docs[docs.len() - 1] == docs.last());
    }
}

/// The report accounts for every collection and every peer of the export: each
/// was taken over or left out.
pub proof fn reports_add_up(
    env: ExportEnvelope,
    known_names: Seq<Seq<char>>,
    known_urls: Seq<Seq<char>>,
)
    ensures
        ({
            let report = planned_report(env, known_names, known_urls);
            &&& report.collections_imported + report.collections_skipped == env.collections.len()
            &&& report.node_peers_imported + report.node_peers_skipped == env.node_peers.len()
            &&& report.collection_peers_imported == 0
        }),
{
    lemma_new_places(known_names, names_of(env.collections@), env.collections.len() as nat);
    lemma_new_places(known_urls, urls_of(env.node_peers@), env.node_peers.len() as nat);
}

/// Every document of the index is exported with its collection: with its URL, its
/// title, its text and its time.
pub proof fn every_document_is_exported(docs: Seq<ExportedDoc>, i: int)
    requires
        0 <= i < docs.len(),
    ensures
        documents_of(docs, docs[i].collection@).contains(
            (DocumentModel {
                url: docs[i].url@,
                title: docs[i].title@,
                body: docs[i].body@,
                indexed_at: docs[i].indexed_at,
            }),
        ),
    decreases docs.len(),
{
    let name = docs[i].collection@;
    let front = documents_of(docs.drop_last(), name);
    let all = documents_of(docs, name);
    let d = exported(docs[i]);
    if i < docs.len() - 1 {
        every_document_is_exported(docs.drop_last(), i);
        let k = choose|k: int| 0 <= k < front.len() && front[k] == d;
        assert(all[k] == d);
    } else {
        assert(all[front.len() as int] == d);
    }
}

/// A document is exported with its own collection and no other; of two lists of
/// documents, those of the first come first.
pub proof fn documents_are_exported_in_order(
    doc: ExportedDoc,
    a: Seq<ExportedDoc>,
    b: Seq<ExportedDoc>,
    name: Seq<char>,
)
    ensures
        documents_of(seq![doc], name).len() == (if doc.collection@ == name {
            1nat
        } else {
            0nat
        }),
        documents_of(a + b, name) == documents_of(a, name) + documents_of(b, name),
    decreases b.len(),
{
    let one = seq![doc];
    assert(one.drop_last() =~= Seq::<ExportedDoc>::empty());
    assert(one.last() == doc);
    assert(documents_of(one.drop_last(), name).len() == 0);
    if b.len() == 0 {
        assert(a + b =~= a);
        assert(documents_of(a, name) + documents_of(b, name) =~= documents_of(a, name));
    } else {
        documents_are_exported_in_order(doc, a, b.drop_last(), name);
        assert((a + b).drop_last() =~= a + b.drop_last());
        assert((a + b).last() == b.last());
        assert(documents_of(a + b, name) =~= documents_of(a, name) + documents_of(b, name));
    }
}

/// An export holds every collection, with all that the database holds of it and
/// all documents of its name.
pub proof fn every_collection_is_exported(
    r: ExportEnvelope,
    self_url: Seq<char>,
    exported_at: Seq<char>,
    dumps: Seq<ExportedCollection>,
    docs: Seq<ExportedDoc>,
    i: int,
)
    requires
        is_export_of(r, self_url, exported_at, dumps, docs),
        names_of(dumps).no_duplicates(),
        0 <= i < dumps.len(),
    ensures
        r.format_version == FORMAT_VERSION,
        r.self_url@ == self_url,
        r.exported_at@ == exported_at,
        r.collections.len() == dumps.len(),
        exists|k: int|
            0 <= k < r.collections.len() && {
                let c = #[trigger] r.collections@[k];
                &&& c.name == dumps[i].name && c.description == dumps[i].description
                &&& c.created_at == dumps[i].created_at && c.updated_at == dumps[i].updated_at
                &&& c.crawl_targets == dumps[i].crawl_targets
                &&& c.ranking_config == dumps[i].ranking_config
                &&& c.outlink_host_suggestions == dumps[i].outlink_host_suggestions
                &&& c.documents.deep_view() == documents_of(docs, dumps[i].name@)
            },
{
    let sorted = by_name(dumps);
    collections_are_ordered(dumps);
    dumps.to_multiset_ensures();
    sorted.to_multiset_ensures();
    assert(dumps.contains(dumps[i]));
    assert(sorted.to_multiset().count(dumps[i]) > 0);
    assert(sorted.contains(dumps[i]));
    let k = choose|k: int| 0 <= k < sorted.len() && sorted[k] == dumps[i];
    assert(is_filled(r.collections@[k], sorted, k, docs));
    let names = names_of(sorted);
    lemma_sorted_names_distinct(dumps);
    assert forall|j: int| 0 <= j < k implies #[trigger] names[j] != names[k] by {
    }
    assert(is_first(names, k));
}

proof fn lemma_sorted_names_distinct(dumps: Seq<ExportedCollection>)
    requires
        names_of(dumps).no_duplicates(),
    ensures
        names_of(by_name(dumps)).no_duplicates(),
{
    let sorted = by_name(dumps);
    collections_are_ordered(dumps);
    lemma_same_names(dumps, sorted);
    names_of(dumps).lemma_multiset_has_no_duplicates();
    names_of(sorted).lemma_multiset_has_no_duplicates_conv();
}

proof fn lemma_same_names(a: Seq<ExportedCollection>, b: Seq<ExportedCollection>)
    requires
        a.to_multiset() == b.to_multiset(),
    ensures
        names_of(a).to_multiset() == names_of(b).to_multiset(),
    decreases a.len(),
{
    a.to_multiset_ensures();
    b.to_multiset_ensures();
    if a.len() == 0 {
        assert(names_of(a) =~= names_of(b));
    } else {
        let front = a.drop_last();
        let x = a.last();
        assert(a =~= front.push(x));
        front.to_multiset_ensures();
        assert(a.contains(x));
        assert(b.to_multiset().count(x) > 0);
        let k = choose|k: int| 0 <= k < b.len() && b[k] == x;
        let rest = b.remove(k);
        assert(rest.to_multiset() =~= front.to_multiset());
        lemma_same_names(front, rest);
        let nb = names_of(b);
        nb.to_multiset_ensures();
        names_of(front).to_multiset_ensures();
        assert(nb.remove(k) =~= names_of(rest));
        assert(names_of(a) =~= names_of(front).push(x.name@));
        assert(nb[k] == x.name@);
        assert(nb.contains(x.name@));
        assert(nb.to_multiset().count(x.name@) > 0);
        assert(nb.to_multiset().remove(x.name@).insert(x.name@) =~= nb.to_multiset());
    }
}

/// A subscription is taken over exactly where its collection and its peer are
/// there after the import: known before, or part of it.
pub proof fn subscriptions_need_both_ends(
    env: ExportEnvelope,
    known_names: Seq<Seq<char>>,
    known_urls: Seq<Seq<char>>,
    n: nat,
    i: int,
)
    requires
        0 <= i < n <= env.collection_peers.len(),
    ensures
        ({
            let s = env.collection_peers@[i];
            let collection_there = known_names.contains(s.local_collection@) || exists|k: int|
                0 <= k < env.collections.len() && (#[trigger] env.collections@[k]).name@
                    == s.local_collection@;
            let peer_there = known_urls.contains(s.node_peer_url@) || exists|k: int|
                0 <= k < env.node_peers.len() && (#[trigger] env.node_peers@[k]).url@
                    == s.node_peer_url@;
            wanted_places(env, known_names, known_urls, n).contains(i as usize) <==> (
            collection_there && peer_there)
        }),
    decreases n,
{
    let front = wanted_places(env, known_names, known_urls, (n - 1) as nat);
    let all = wanted_places(env, known_names, known_urls, n);
    let s = env.collection_peers@[i];
    let names = names_of(env.collections@);
    let urls = urls_of(env.node_peers@);
    if names.contains(s.local_collection@) {
        let k = choose|k: int| 0 <= k < names.len() && names[k] == s.local_collection@;
        assert(env.collections@[k].name@ == s.local_collection@);
    }
    if exists|k: int|
        0 <= k < env.collections.len() && (#[trigger] env.collections@[k]).name@
            == s.local_collection@ {
        let k = choose|k: int|
            0 <= k < env.collections.len() && (#[trigger] env.collections@[k]).name@
                == s.local_collection@;
        assert(names[k] == s.local_collection@);
    }
    if urls.contains(s.node_peer_url@) {
        let k = choose|k: int| 0 <= k < urls.len() && urls[k] == s.node_peer_url@;
        assert(env.node_peers@[k].url@ == s.node_peer_url@);
    }
    if exists|k: int|
        0 <= k < env.node_peers.len() && (#[trigger] env.node_peers@[k]).url@
            == s.node_peer_url@ {
        let k = choose|k: int|
            0 <= k < env.node_peers.len() && (#[trigger] env.node_peers@[k]).url@
                == s.node_peer_url@;
        assert(urls[k] == s.node_peer_url@);
    }
    lemma_wanted_below(env, known_names, known_urls, (n - 1) as nat);
    if i < n - 1 {
        subscriptions_need_both_ends(env, known_names, known_urls, (n - 1) as nat, i);
        if front.contains(i as usize) {
            let k = choose|k: int| 0 <= k < front.len() && front[k] == i as usize;
            assert(all[k] == i as usize);
        }
        if all.contains(i as usize) {
            let k = choose|k: int| 0 <= k < all.len() && all[k] == i as usize;
            assert(front[k] == i as usize);
        }
    } else {
        if is_wanted(s, env, known_names, known_urls) {
            assert(all[front.len() as int] == i as usize);
        }
        if front.contains(i as usize) {
            let k = choose|k: int| 0 <= k < front.len() && front[k] == i as usize;
            assert(front[k] < n - 1);
        }
    }
}

proof fn lemma_wanted_below(
    env: ExportEnvelope,
    known_names: Seq<Seq<char>>,
    known_urls: Seq<Seq<char>>,
    n: nat,
)
    requires
        n <= env.collection_peers.len(),
    ensures
        forall|k: int|
            0 <= k < wanted_places(env, known_names, known_urls, n).len() ==> (
            #[trigger] wanted_places(env, known_names, known_urls, n)[k]) < n,
    decreases n,
{
    if n > 0 {
        lemma_wanted_below(env, known_names, known_urls, (n - 1) as nat);
        let front = wanted_places(env, known_names, known_urls, (n - 1) as nat);
        let all = wanted_places(env, known_names, known_urls, n);
        assert forall|k: int| 0 <= k < all.len() implies (#[trigger] all[k]) < n by {
            if k < front.len() {
                assert(all[k] == front[k]);
            }
        }
    }
}

/// Every row of a collection that is taken over is counted, once: its targets,
/// their pages, its documents and its suggestions.
pub proof fn every_row_is_counted(
    collections: Seq<ExportedCollection>,
    places: Seq<usize>,
    place: usize,
    targets: Seq<ExportedCrawlTarget>,
    target: ExportedCrawlTarget,
)
    ensures
        ({
            let before = rows_at(collections, places);
            let after = rows_at(collections, places.push(place));
            let c = collections[place as int];
            &&& after.targets == before.targets + c.crawl_targets.len()
            &&& after.pages == before.pages + page_count(c.crawl_targets@)
            &&& after.documents == before.documents + c.documents.len()
            &&& after.suggestions == before.suggestions + c.outlink_host_suggestions.len()
        }),
        rows_at(collections, Seq::empty()) == (RowCounts {
            targets: 0,
            pages: 0,
            documents: 0,
            suggestions: 0,
        }),
        page_count(targets.push(target)) == page_count(targets) + target.crawled_pages.len(),
        page_count(Seq::empty()) == 0,
{
    assert(places.push(place).drop_last() =~= places);
    assert(targets.push(target).drop_last() =~= targets);
}

/// The report of an import counts what is taken over and what is left out.
pub proof fn reports_count_what_is_taken_over(
    r: Import,
    env: ExportEnvelope,
    known_names: Seq<Seq<char>>,
    known_urls: Seq<Seq<char>>,
    now: Seq<char>,
)
    requires
        is_import_of(r, env, known_names, known_urls, now),
        rows_fit(
            rows_at(
                env.collections@,
                new_places(known_names, names_of(env.collections@), env.collections.len() as nat),
            ),
        ),
    ensures
        r.report.collections_imported == r.collections.len(),
        r.report.collections_skipped == env.collections.len() - r.collections.len(),
        r.report.node_peers_imported == r.node_peers.len(),
        r.report.node_peers_skipped == env.node_peers.len() - r.node_peers.len(),
        r.report.collection_peers_imported == 0,
        r.report.collection_peers_skipped == env.collection_peers.len() - r.collection_peers.len(),
        ({
            let rows = rows_at(
                env.collections@,
                new_places(known_names, names_of(env.collections@), env.collections.len() as nat),
            );
            &&& r.report.crawl_targets_imported == rows.targets
            &&& r.report.crawled_pages_imported == rows.pages
            &&& r.report.documents_queued == rows.documents
            &&& r.report.outlink_host_suggestions_imported == rows.suggestions
        }),
{
    lemma_new_places(known_names, names_of(env.collections@), env.collections.len() as nat);
    lemma_new_places(known_urls, urls_of(env.node_peers@), env.node_peers.len() as nat);
    lemma_wanted_places(env, known_names, known_urls, env.collection_peers.len() as nat);
}

/// Every collection whose name is neither taken nor used before in the export is
/// taken over with all its rows.
pub proof fn new_collections_are_taken_over(
    r: Import,
    env: ExportEnvelope,
    known_names: Seq<Seq<char>>,
    known_urls: Seq<Seq<char>>,
    now: Seq<char>,
    i: int,
)
    requires
        is_import_of(r, env, known_names, known_urls, now),
        0 <= i < env.collections.len(),
        !known_names.contains(env.collections@[i].name@),
        forall|j: int| 0 <= j < i ==> (#[trigger] env.collections@[j]).name@ != env.collections@[i].name@,
    ensures
        exists|k: int|
            0 <= k < r.collections.len() && {
                let c = #[trigger] r.collections@[k];
                &&& c.name@ == env.collections@[i].name@
                &&& c.description@ == env.collections@[i].description@
                &&& c.crawl_targets.len() == env.collections@[i].crawl_targets.len()
                &&& c.outlink_host_suggestions.len()
                    == env.collections@[i].outlink_host_suggestions.len()
                &&& c.jobs.deep_view().len() == env.collections@[i].documents.deep_view().len()
                &&& c.ranking_config.deep_view() == env.collections@[i].ranking_config.deep_view()
            },
{
    let names = names_of(env.collections@);
    let places = new_places(known_names, names, env.collections.len() as nat);
    lemma_new_places(known_names, names, env.collections.len() as nat);
    assert forall|j: int| 0 <= j < i implies #[trigger] names[j] != names[i] by {
        assert(env.collections@[j].name@ != env.collections@[i].name@);
    }
    assert(is_new(known_names, names, i));
    let k = choose|k: int| 0 <= k < places.len() && places[k] == i as usize;
    assert(is_taken_over(r.collections@[k], env.collections@[places[k] as int], now));
}

/// A row keeps its own time, and has that of the import where it has none.
pub proof fn rows_keep_their_times(own: Seq<char>, now: Seq<char>)
    ensures
        own.len() > 0 ==> stamp(own, now) == own,
        own.len() == 0 ==> stamp(own, now) == now,
{
}

/// A target that is taken over keeps its prefix, its intervals, its wait and all
/// its pages, of which nothing counts as committed here.
pub proof fn targets_are_taken_over_whole(
    r: ImportedTarget,
    t: ExportedCrawlTarget,
    id: Seq<char>,
    now: Seq<char>,
    i: int,
)
    requires
        is_target_of(r, t, id, now),
        0 <= i < t.crawled_pages.len(),
    ensures
        r.collection_id@ == id,
        r.url_prefix@ == t.url_prefix@,
        r.recrawl_interval_s == t.recrawl_interval_s,
        r.recrawl_interval_secs == t.recrawl_interval_secs,
        r.enabled == t.enabled,
        r.crawl_delay_secs == t.crawl_delay_secs,
        ({
            let p = t.crawled_pages@[i].deep_view();
            let q = r.crawled_pages.deep_view()[i];
            &&& q.url == p.url && q.etag == p.etag && q.last_modified == p.last_modified
            &&& q.content_hash == p.content_hash && q.last_status == p.last_status
            &&& q.last_crawled_at == p.last_crawled_at
            &&& q.indexed_content_hash is None
        }),
        r.crawled_pages.deep_view().len() == t.crawled_pages.len(),
{
    assert(t.crawled_pages.deep_view()[i] == t.crawled_pages@[i].deep_view());
}

/// A document that is taken over is indexed as it was exported, under the name
/// and the new identity of its collection.
pub proof fn documents_are_indexed_as_exported(d: DocumentModel, name: Seq<char>, id: Seq<char>)
    ensures
        document_job(d, name, id).collection_name == name,
        document_job(d, name, id).collection_id == id,
        document_job(d, name, id).url == d.url,
        document_job(d, name, id).title == d.title,
        document_job(d, name, id).body == d.body,
        document_job(d, name, id).indexed_at == d.indexed_at,
        document_job(d, name, id).content_hash == sha256_hex(d.body),
{
}

/// A body is read as gzip exactly where it starts with the two bytes of one.
pub proof fn gzip_is_told_by_its_start(rest: Seq<u8>, first: u8, second: u8)
    ensures
        is_gzip(seq![first, second] + rest) <==> first == 31 && second == 139,
        !is_gzip(Seq::empty()),
{
    let all = seq![first, second] + rest;
    assert(all[0] == first && all[1] == second);
}

/// The rows of a collection that is taken over have the identities given, each
/// its own.
pub proof fn rows_have_the_given_identities(r: ImportedCollection, ids: ImportIds, i: int)
    requires
        has_ids(r, ids),
    ensures
        r.id@ == ids.collection@,
        r.crawl_targets.len() == ids.targets.len(),
        r.outlink_host_suggestions.len() == ids.suggestions.len(),
        0 <= i < r.crawl_targets.len() ==> r.crawl_targets@[i].id@ == ids.targets@[i]@,
        0 <= i < r.outlink_host_suggestions.len() ==> r.outlink_host_suggestions@[i].id@
            == ids.suggestions@[i]@,
{
}

/// What is written has the first version of the format, and a body that is
/// imported may have half a gibibyte.
pub proof fn exports_have_the_first_version()
    ensures
        FORMAT_VERSION == 1,
        IMPORT_BODY_LIMIT_BYTES == 512 * 1024 * 1024,
{
}

} // verus!
