//! Searching: what is asked, how far a search is forwarded, and the stream of
//! events that answers it.

use vstd::prelude::*;
use crate::api::reply::{Reply, ReplyModel};
use crate::api::sse::{SearchResult, SseEvent};
use crate::protocol::PROTOCOL_VERSION;
use crate::text::{trim, trimmed};

verus! {

/// The most results of one search.
pub const SEARCH_LIMIT: usize = 25;

/// The most steps that a search may be forwarded.
pub const MAX_FANOUT_DEPTH: u32 = 2;

/// A search.
#[derive(Debug, Clone)]
pub struct SearchRequest {
    pub query: String,
    pub collection: Option<String>,
    /// How many steps the search may still be forwarded.
    pub remaining_depth: u32,
}

/// A collection as it is listed.
#[derive(Debug, Clone)]
pub struct CollectionListItem {
    pub name: String,
    pub description: String,
    /// The number of documents in the index.
    pub documents: u64,
}

/// The list of collections.
#[derive(Debug, Clone)]
pub struct CollectionsResponse {
    pub protocol_version: &'static str,
    pub collections: Vec<CollectionListItem>,
}

/// `item` lists a collection with the given name and description; a count that
/// could not be had is zero.
pub open spec fn is_item(
    item: CollectionListItem,
    basic: (Seq<char>, Seq<char>),
    count: Option<u64>,
) -> bool {
    item.name@ == basic.0 && item.description@ == basic.1 && item.documents == (match count {
        Some(n) => n,
        None => 0,
    })
}

/// The list of collections, from their names and descriptions and from the
/// number of documents of each, as far as it could be had.
pub fn collections_response(basics: &Vec<(String, String)>, counts: &Vec<Option<u64>>) -> (r:
    CollectionsResponse)
    requires
        basics.len() == counts.len(),
    ensures
        r.protocol_version@ == PROTOCOL_VERSION@,
        r.collections.len() == basics.len(),
        forall|i: int|
            0 <= i < basics.len() ==> is_item(
                #[trigger] r.collections@[i],
                basics.deep_view()[i],
                counts@[i],
            ),
{
    let mut collections: Vec<CollectionListItem> = Vec::new();
    let mut i: usize = 0;
    while i < basics.len()
        invariant
            i <= basics.len(),
            basics.len() == counts.len(),
            collections.len() == i,
            forall|j: int|
                0 <= j < i ==> is_item(
                    #[trigger] collections@[j],
                    basics.deep_view()[j],
                    counts@[j],
                ),
        decreases basics.len() - i,
    {
        assert(basics.deep_view()[i as int] == (basics@[i as int].0@, basics@[i as int].1@));
        let documents: u64 = match counts[i] {
            Some(n) => n,
            None => 0,
        };
        collections.push(
            CollectionListItem {
                name: basics[i].0.clone(),
                description: basics[i].1.clone(),
                documents,
            },
        );
        i = i + 1;
    }
    CollectionsResponse { protocol_version: PROTOCOL_VERSION, collections }
}

// ---------------------------------------------------------------------------
// Requests
// ---------------------------------------------------------------------------

/// Refuses a search without a query.
pub fn validate_search(req: &SearchRequest) -> (r: Result<(), Reply>)
    ensures
        match r {
            Ok(_) => trimmed(req.query@).len() > 0,
            Err(reply) => trimmed(req.query@).len() == 0 && reply.deep_view() == (ReplyModel {
                status: 400,
                body: "query is required"@,
                header: None,
            }),
        },
{
    let t = trim(req.query.as_str());
    if t.as_str().is_empty() {
        Err(Reply::plain(400, "query is required"))
    } else {
        Ok(())
    }
}

/// The depth that is asked for, within what is allowed; none where none is
/// asked for.
pub open spec fn capped_depth(depth: Option<u64>) -> u64 {
    match depth {
        Some(d) => if d > MAX_FANOUT_DEPTH {
            MAX_FANOUT_DEPTH as u64
        } else {
            d
        },
        None => 0,
    }
}

/// The depth of a search that is asked for without a body of its own.
pub fn cap_depth(depth: Option<u64>) -> (r: u32)
    ensures
        r == capped_depth(depth),
        r <= MAX_FANOUT_DEPTH,
{
    match depth {
        Some(d) => if d > MAX_FANOUT_DEPTH as u64 {
            MAX_FANOUT_DEPTH
        } else {
            d as u32
        },
        None => 0,
    }
}

/// The depth with which a search is forwarded: one less than it came with, and
/// no more than fits. `None` where it is not forwarded.
pub open spec fn forwarded_depth(remaining_depth: u32) -> Option<u8> {
    if remaining_depth == 0 {
        None
    } else if remaining_depth - 1 > 255 {
        Some(255)
    } else {
        Some((remaining_depth - 1) as u8)
    }
}

/// The depth with which a search is forwarded, where it is.
pub fn outgoing_depth(remaining_depth: u32) -> (r: Option<u8>)
    ensures
        r == forwarded_depth(remaining_depth),
{
    if remaining_depth == 0 {
        None
    } else if remaining_depth - 1 > 255 {
        Some(255)
    } else {
        Some((remaining_depth - 1) as u8)
    }
}

/// The local collection whose subscriptions decide where a search is
/// forwarded.
pub fn fanout_collection(req: &SearchRequest) -> (r: String)
    ensures
        r@ == (match req.collection {
            Some(c) => c@,
            None => Seq::empty(),
        }),
{
    match &req.collection {
        Some(c) => c.clone(),
        None => String::new(),
    }
}

// ---------------------------------------------------------------------------
// The stream
// ---------------------------------------------------------------------------

/// What a peer answered: the label of its results, and the results unless it
/// failed.
#[derive(Debug, Clone)]
pub struct PeerAnswer {
    pub source_label: String,
    pub results: Option<Vec<SearchResult>>,
}

/// The event is the given result.
pub open spec fn carries(event: SseEvent, result: SearchResult) -> bool {
    event == SseEvent::Result(result)
}

/// The event ends the results of the source.
pub open spec fn completes(event: SseEvent, source: Seq<char>) -> bool {
    event matches SseEvent::SourceComplete { source: s } && s@ == source
}

/// The events are the results in their order and then the end of the source.
pub open spec fn source_events(
    events: Seq<SseEvent>,
    results: Seq<SearchResult>,
    source: Seq<char>,
) -> bool {
    &&& events.len() == results.len() + 1
    &&& forall|i: int| 0 <= i < results.len() ==> carries(#[trigger] events[i], results[i])
    &&& completes(events.last(), source)
}

fn events_of(results: Vec<SearchResult>, source: &str) -> (r: Vec<SseEvent>)
    ensures
        source_events(r@, results@, source@),
{
    let ghost all = results@;
    let mut left = results;
    let mut reversed: Vec<SearchResult> = Vec::new();
    assert(all + Seq::<SearchResult>::empty().reverse() =~= all);
    while left.len() > 0
        invariant
            left@ + reversed@.reverse() == all,
        decreases left.len(),
    {
        let ghost before = left@;
        let ghost rev = reversed@;
        match left.pop() {
            Some(x) => {
                reversed.push(x);
                assert(reversed@.reverse() =~= seq![x] + rev.reverse());
                assert(before + rev.reverse() =~= left@ + reversed@.reverse());
            },
            None => {},
        }
    }
    assert(left@ + reversed@.reverse() =~= reversed@.reverse());
    let mut r: Vec<SseEvent> = Vec::new();
    while reversed.len() > 0
        invariant
            r.len() + reversed.len() == all.len(),
            forall|i: int| 0 <= i < r.len() ==> carries(#[trigger] r@[i], all[i]),
            reversed@.reverse() == all.skip(r.len() as int),
        decreases reversed.len(),
    {
        let ghost before = reversed@;
        let ghost n = r.len() as int;
        match reversed.pop() {
            Some(x) => {
                assert(before.reverse()[0] == x);
                assert(all.skip(n)[0] == all[n]);
                r.push(SseEvent::Result(x));
                assert(reversed@.reverse() =~= before.reverse().drop_first());
                assert(all.skip(n).drop_first() =~= all.skip(n + 1));
            },
            None => {},
        }
    }
    r.push(SseEvent::SourceComplete { source: source.to_owned() });
    r
}

/// The results found here that are sent: the first ones, as many as a search
/// gives; none where the search failed.
pub open spec fn shown_results(results: Option<Vec<SearchResult>>) -> Seq<SearchResult> {
    match results {
        Some(v) => v@.take(
            if v.len() < SEARCH_LIMIT {
                v.len() as int
            } else {
                SEARCH_LIMIT as int
            },
        ),
        None => Seq::empty(),
    }
}

/// The events for what was found here: no more results than a search gives,
/// and none where it failed. Either way the source ends.
pub fn local_events(results: Option<Vec<SearchResult>>) -> (r: Vec<SseEvent>)
    ensures
        source_events(r@, shown_results(results), "local"@),
{
    match results {
        Some(v) => {
            let mut shown = v;
            if shown.len() > SEARCH_LIMIT {
                shown.truncate(SEARCH_LIMIT);
            }
            assert(shown@ =~= shown_results(results));
            events_of(shown, "local")
        },
        None => {
            let none: Vec<SearchResult> = Vec::new();
            assert(none@ =~= Seq::<SearchResult>::empty());
            events_of(none, "local")
        },
    }
}

/// The events for what a peer answered; a peer that failed adds nothing.
pub fn peer_events(answer: PeerAnswer) -> (r: Vec<SseEvent>)
    ensures
        match answer.results {
            Some(v) => source_events(r@, v@, answer.source_label@),
            None => r@ == Seq::<SseEvent>::empty(),
        },
{
    match answer.results {
        Some(v) => events_of(v, answer.source_label.as_str()),
        None => {
            let r: Vec<SseEvent> = Vec::new();
            assert(r@ =~= Seq::<SseEvent>::empty());
            r
        },
    }
}

/// The event that ends every stream.
pub fn final_event() -> (r: SseEvent)
    ensures
        r == SseEvent::Done,
{
    SseEvent::Done
}

/// How far a search has come.
pub struct StreamModel {
    /// How many steps the search may be forwarded.
    pub remaining_depth: u32,
    /// The events of each source that was heard, in the order of the sources.
    pub parts: Seq<Seq<SseEvent>>,
    /// The end was sent.
    pub ended: bool,
}

/// The part holds results from here, no more than a search gives, and the end
/// of what was found here.
pub open spec fn is_local_part(part: Seq<SseEvent>) -> bool {
    exists|results: Seq<SearchResult>|
        results.len() <= SEARCH_LIMIT && #[trigger] source_events(part, results, "local"@)
}

/// The part holds the results of one source and then its end.
pub open spec fn is_part(part: Seq<SseEvent>) -> bool {
    exists|results: Seq<SearchResult>, source: Seq<char>| #[trigger]
        source_events(part, results, source)
}

/// A whole stream: the events of its sources one after the other, and then the
/// end.
pub open spec fn stream(parts: Seq<Seq<SseEvent>>) -> Seq<SseEvent> {
    parts.flatten().push(SseEvent::Done)
}

impl StreamModel {
    /// What holds of every stream: what was found here comes first, every
    /// source is closed by its own end, and without depth there is no other
    /// source.
    pub open spec fn valid(self) -> bool {
        &&& self.parts.len() > 0 ==> is_local_part(self.parts[0])
        &&& forall|k: int| 0 <= k < self.parts.len() ==> is_part(#[trigger] self.parts[k])
        &&& self.remaining_depth == 0 ==> self.parts.len() <= 1
        &&& self.ended ==> self.parts.len() > 0
    }

    /// The events that were sent so far.
    pub open spec fn sent(self) -> Seq<SseEvent> {
        if self.ended {
            stream(self.parts)
        } else {
            self.parts.flatten()
        }
    }

    /// The stream before anything was sent.
    pub open spec fn started(remaining_depth: u32) -> StreamModel {
        StreamModel { remaining_depth, parts: Seq::empty(), ended: false }
    }

    /// The stream after one more source was heard.
    pub open spec fn with_part(self, part: Seq<SseEvent>) -> StreamModel {
        StreamModel { parts: self.parts.push(part), ..self }
    }

    /// The stream after its end.
    pub open spec fn finished(self) -> StreamModel {
        StreamModel { ended: true, ..self }
    }
}

proof fn lemma_with_part(m: StreamModel, part: Seq<SseEvent>)
    requires
        m.valid(),
        !m.ended,
        is_part(part),
        m.parts.len() == 0 ==> is_local_part(part),
        m.parts.len() > 0 ==> m.remaining_depth > 0,
    ensures
        m.with_part(part).valid(),
        m.with_part(part).sent() == m.sent() + part,
{
    m.parts.lemma_flatten_push(part);
}

/// The stream of events that answers a search. First comes what was found
/// here, then what each peer answers, and then the end.
pub struct SearchStream {
    remaining_depth: u32,
    parts: Ghost<Seq<Seq<SseEvent>>>,
    ended: bool,
}

impl View for SearchStream {
    type V = StreamModel;

    closed spec fn view(&self) -> StreamModel {
        StreamModel {
            remaining_depth: self.remaining_depth,
            parts: self.parts@,
            ended: self.ended,
        }
    }
}

impl SearchStream {
    pub open spec fn valid(&self) -> bool {
        self@.valid()
    }

    /// The stream for a search; one without a query is refused.
    pub fn start(req: &SearchRequest) -> (r: Result<SearchStream, Reply>)
        ensures
            match r {
                Ok(s) => trimmed(req.query@).len() > 0 && s.valid() && s@ == StreamModel::started(
                    req.remaining_depth,
                ),
                Err(reply) => trimmed(req.query@).len() == 0 && reply.deep_view() == (ReplyModel {
                    status: 400,
                    body: "query is required"@,
                    header: None,
                }),
            },
    {
        match validate_search(req) {
            Ok(_) => Ok(
                SearchStream {
                    remaining_depth: req.remaining_depth,
                    parts: Ghost(Seq::empty()),
                    ended: false,
                },
            ),
            Err(reply) => Err(reply),
        }
    }

    /// The depth with which the search is forwarded, where it is.
    pub fn peer_depth(&self) -> (r: Option<u8>)
        ensures
            r == forwarded_depth(self@.remaining_depth),
    {
        outgoing_depth(self.remaining_depth)
    }

    /// The events to send for what was found here, which comes first.
    pub fn local_found(&mut self, results: Option<Vec<SearchResult>>) -> (r: Vec<SseEvent>)
        requires
            old(self).valid(),
            old(self)@.parts.len() == 0,
        ensures
            final(self).valid(),
            source_events(r@, shown_results(results), "local"@),
            final(self)@ == old(self)@.with_part(r@),
            final(self)@.sent() == old(self)@.sent() + r@,
    {
        let ghost before = self@;
        let r = local_events(results);
        proof {
            assert(shown_results(results).len() <= SEARCH_LIMIT);
            assert(is_local_part(r@));
            assert(is_part(r@));
            lemma_with_part(before, r@);
        }
        self.parts = Ghost(self.parts@.push(r@));
        r
    }

    /// The events to send for what a peer answered. One that failed adds
    /// nothing.
    pub fn peer_answered(&mut self, answer: PeerAnswer) -> (r: Vec<SseEvent>)
        requires
            old(self).valid(),
            old(self)@.parts.len() > 0,
            !old(self)@.ended,
            old(self)@.remaining_depth > 0,
        ensures
            final(self).valid(),
            final(self)@.sent() == old(self)@.sent() + r@,
            match answer.results {
                Some(v) => source_events(r@, v@, answer.source_label@) && final(self)@ == old(
                    self,
                )@.with_part(r@),
                None => r@ == Seq::<SseEvent>::empty() && final(self)@ == old(self)@,
            },
    {
        let ghost before = self@;
        let failed = answer.results.is_none();
        let r = peer_events(answer);
        if failed {
            assert(before.sent() + r@ =~= before.sent());
        } else {
            proof {
                assert(is_part(r@));
                lemma_with_part(before, r@);
            }
            self.parts = Ghost(self.parts@.push(r@));
        }
        r
    }

    /// The event that ends the stream, when no peer is left to answer.
    pub fn no_more_peers(&mut self) -> (r: SseEvent)
        requires
            old(self).valid(),
            old(self)@.parts.len() > 0,
            !old(self)@.ended,
        ensures
            final(self).valid(),
            r == SseEvent::Done,
            final(self)@ == old(self)@.finished(),
            final(self)@.sent() == old(self)@.sent().push(r),
    {
        self.ended = true;
        final_event()
    }
}

/// Labels results with the source they came from.
pub fn tag_results(results: &mut Vec<SearchResult>, source_label: &str)
    ensures
        final(results).len() == old(results).len(),
        forall|i: int|
            0 <= i < old(results).len() ==> {
                let a = old(results)@[i];
                let b = #[trigger] final(results)@[i];
                &&& b.source@ == source_label@
                &&& b.title == a.title
                &&& b.url == a.url
                &&& b.snippet_html == a.snippet_html
                &&& b.timestamp == a.timestamp
                &&& b.score_bits == a.score_bits
            },
{
    let ghost before = results@;
    let mut i: usize = 0;
    while i < results.len()
        invariant
            i <= results.len(),
            results.len() == before.len(),
            before == old(results)@,
            forall|j: int| i <= j < before.len() ==> #[trigger] results@[j] == before[j],
            forall|j: int|
                0 <= j < i ==> {
                    let a = before[j];
                    let b = #[trigger] results@[j];
                    &&& b.source@ == source_label@
                    &&& b.title == a.title
                    &&& b.url == a.url
                    &&& b.snippet_html == a.snippet_html
                    &&& b.timestamp == a.timestamp
                    &&& b.score_bits == a.score_bits
                },
        decreases results.len() - i,
    {
        let tagged = SearchResult {
            title: results[i].title.clone(),
            url: results[i].url.clone(),
            snippet_html: results[i].snippet_html.clone(),
            source: source_label.to_owned(),
            timestamp: results[i].timestamp,
            score_bits: results[i].score_bits,
        };
        results.set(i, tagged);
        i = i + 1;
    }
}

// ---------------------------------------------------------------------------
// Laws
// ---------------------------------------------------------------------------

/// Every step of forwarding leaves less depth, so no chain of peers forwards a
/// search for ever, and a search without depth is not forwarded.
pub proof fn forwarding_ends(remaining_depth: u32)
    ensures
        forwarded_depth(remaining_depth) is None <==> remaining_depth == 0,
        forwarded_depth(remaining_depth) matches Some(d) ==> d < remaining_depth,
{
}

/// A source's end is told once, after all of its results.
pub proof fn sources_end_once(
    events: Seq<SseEvent>,
    results: Seq<SearchResult>,
    source: Seq<char>,
    i: int,
)
    requires
        source_events(events, results, source),
        0 <= i < events.len(),
    ensures
        events[i] is SourceComplete <==> i == events.len() - 1,
        !(events[i] is Done),
{
    if i < results.len() {
        assert(carries(events[i], results[i]));
    }
}

proof fn lemma_parts_do_not_end(parts: Seq<Seq<SseEvent>>)
    requires
        forall|k: int| 0 <= k < parts.len() ==> is_part(#[trigger] parts[k]),
    ensures
        forall|i: int| 0 <= i < parts.flatten().len() ==> !(#[trigger] parts.flatten()[i] is Done),
    decreases parts.len(),
{
    if parts.len() > 0 {
        let first = parts[0];
        let rest = parts.drop_first();
        assert forall|k: int| 0 <= k < rest.len() implies is_part(#[trigger] rest[k]) by {
            assert(rest[k] == parts[k + 1]);
        }
        lemma_parts_do_not_end(rest);
        assert(is_part(first));
        assert forall|i: int| 0 <= i < parts.flatten().len() implies !(
        #[trigger] parts.flatten()[i] is Done) by {
            if i < first.len() {
                let (results, source) = choose|results: Seq<SearchResult>, source: Seq<char>|
                    #[trigger] source_events(first, results, source);
                sources_end_once(first, results, source, i);
                assert(parts.flatten()[i] == first[i]);
            } else {
                assert(parts.flatten()[i] == rest.flatten()[i - first.len()]);
            }
        }
    }
}

/// A stream ends exactly once, with its last event, whatever the sources sent.
pub proof fn streams_end_once(parts: Seq<Seq<SseEvent>>, i: int)
    requires
        forall|k: int| 0 <= k < parts.len() ==> is_part(#[trigger] parts[k]),
        0 <= i < stream(parts).len(),
    ensures
        stream(parts)[i] is Done <==> i == stream(parts).len() - 1,
{
    lemma_parts_do_not_end(parts);
    if i < parts.flatten().len() {
        assert(stream(parts)[i] == parts.flatten()[i]);
    }
}

/// A search that has come to its end has sent a whole stream: first the
/// results from here, no more than a search gives, and their end; then, only
/// where the search was forwarded, the results of one peer after the other,
/// each closed by its own end; and the end of the stream once, as the last
/// event.
pub proof fn searches_are_answered_in_order(m: StreamModel, i: int)
    requires
        m.valid(),
        m.ended,
        0 <= i < m.sent().len(),
    ensures
        m.sent() == stream(m.parts),
        m.parts.len() > 0,
        is_local_part(m.parts[0]),
        forall|k: int| 0 <= k < m.parts.len() ==> is_part(#[trigger] m.parts[k]),
        m.remaining_depth == 0 ==> m.parts.len() == 1,
        m.sent()[i] is Done <==> i == m.sent().len() - 1,
        m.parts[0].is_prefix_of(m.sent()),
{
    streams_end_once(m.parts, i);
    assert(m.parts.flatten() == m.parts[0] + m.parts.drop_first().flatten());
    assert(m.sent().subrange(0, m.parts[0].len() as int) =~= m.parts[0]);
}

/// What a source found is sent, every result once and in its order, and then the
/// end of the source.
pub proof fn every_result_is_sent(
    events: Seq<SseEvent>,
    results: Seq<SearchResult>,
    source: Seq<char>,
    i: int,
)
    requires
        source_events(events, results, source),
        0 <= i < results.len(),
    ensures
        events.len() == results.len() + 1,
        events[i] == SseEvent::Result(results[i]),
        match events[results.len() as int] {
            SseEvent::SourceComplete { source: s } => s@ == source,
            _ => false,
        },
{
    assert(carries(events[i], results[i]));
}

/// The first results that were found here are sent, all of them up to the limit
/// of a search.
pub proof fn results_are_shown_up_to_the_limit(results: Vec<SearchResult>, i: int)
    ensures
        results.len() <= SEARCH_LIMIT ==> shown_results(Some(results)) == results@,
        results.len() > SEARCH_LIMIT ==> shown_results(Some(results)).len() == SEARCH_LIMIT,
        0 <= i < results.len() && i < SEARCH_LIMIT ==> shown_results(Some(results))[i]
            == results@[i],
        shown_results(None).len() == 0,
{
    assert(results@.take(results@.len() as int) =~= results@);
}

/// Every source that was heard is in the stream, in the order in which they were
/// heard: another source adds its events behind those that were sent.
pub proof fn sources_follow_each_other(m: StreamModel, part: Seq<SseEvent>)
    requires
        !m.ended,
    ensures
        m.with_part(part).sent() == m.sent() + part,
        m.with_part(part).parts == m.parts.push(part),
        m.with_part(part).remaining_depth == m.remaining_depth,
        m.finished().sent() == m.sent().push(SseEvent::Done),
        m.finished().parts == m.parts,
        StreamModel::started(m.remaining_depth).sent().len() == 0,
{
    m.parts.lemma_flatten_push(part);
}

/// A search is forwarded with one step less than it came with, or as many as the
/// field holds.
pub proof fn forwarding_takes_one_step(remaining_depth: u32)
    ensures
        1 <= remaining_depth <= 256 ==> forwarded_depth(remaining_depth) == Some(
            (remaining_depth - 1) as u8,
        ),
        remaining_depth > 256 ==> forwarded_depth(remaining_depth) == Some(255u8),
{
}

/// The depth that is asked for counts up to two, and none is asked for by
/// default.
pub proof fn depths_are_capped(asked: u64)
    ensures
        capped_depth(None) == 0,
        asked <= 2 ==> capped_depth(Some(asked)) == asked,
        asked > 2 ==> capped_depth(Some(asked)) == 2,
{
}

/// A collection is listed with its own name and description and the number of
/// its documents, where that could be had.
pub proof fn collections_are_listed_as_they_are(
    item: CollectionListItem,
    basic: (Seq<char>, Seq<char>),
    count: Option<u64>,
)
    requires
        is_item(item, basic, count),
    ensures
        item.name@ == basic.0,
        item.description@ == basic.1,
        count matches Some(n) ==> item.documents == n,
        count is None ==> item.documents == 0,
{
}

/// A search gives up to twenty-five results from here.
pub proof fn searches_give_twenty_five_results(results: Vec<SearchResult>)
    ensures
        results.len() >= 25 ==> shown_results(Some(results)).len() == 25,
        results.len() < 25 ==> shown_results(Some(results)).len() == results.len(),
{
}

/// What was found here takes twenty-six events at most: a result each, twenty-five
/// of them, and the end of the source.
pub proof fn local_parts_are_bounded(part: Seq<SseEvent>)
    requires
        is_local_part(part),
    ensures
        1 <= part.len() <= 26,
        completes(part.last(), "local"@),
{
}

} // verus!
