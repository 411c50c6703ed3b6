//! Gossip: engines tell each other which engines they know.
//!
//! Lists are merged by URL. What was only known here stays as it is; what a
//! peer told is taken over, counts as seen now, and keeps the earlier of the
//! two first sightings.

use vstd::prelude::*;
use crate::api::gossip::{all_heard_of, heard, ExchangeResponse};
use crate::crawler::fetcher::{is_success, success};
use crate::federation::discovered::{
    in_order, list, listed_before, urls_distinct, DiscoveredEngine, EngineModel,
};
use crate::protocol::{check_compatibility, compatibility, Compatibility, PROTOCOL_VERSION};
use crate::text::{
    concat, decimal, lemma_text_lt_irreflexive, show_unsigned, trim_end_char, trim_end_of,
};

verus! {

// ---------------------------------------------------------------------------
// Tables
// ---------------------------------------------------------------------------

/// The engines of a list by their URL; the last one counts where a URL occurs
/// more than once.
pub open spec fn by_url(s: Seq<EngineModel>) -> Map<Seq<char>, EngineModel>
    decreases s.len(),
{
    if s.len() == 0 {
        Map::empty()
    } else {
        by_url(s.drop_last()).insert(s.last().url, s.last())
    }
}

/// The later of two times.
pub open spec fn later(a: i64, b: i64) -> i64 {
    if a < b {
        b
    } else {
        a
    }
}

/// What a told engine makes of the entry for its URL: a new one is taken over;
/// a known one keeps the earlier first sighting, and its name and description
/// unless it was told of a sighting at least as late. Either way it counts as
/// seen at `now`.
pub open spec fn merged_entry(
    existing: Option<EngineModel>,
    told: EngineModel,
    now: i64,
) -> EngineModel {
    match existing {
        None => EngineModel { last_seen: later(told.last_seen, now), ..told },
        Some(e) => {
            let wins = told.last_seen >= e.last_seen;
            EngineModel {
                url: e.url,
                name: if wins {
                    told.name
                } else {
                    e.name
                },
                description: if wins {
                    told.description
                } else {
                    e.description
                },
                first_seen: if told.first_seen < e.first_seen {
                    told.first_seen
                } else {
                    e.first_seen
                },
                last_seen: later(
                    if wins {
                        told.last_seen
                    } else {
                        e.last_seen
                    },
                    now,
                ),
            }
        },
    }
}

/// The table after one engine was told of.
pub open spec fn absorb(
    table: Map<Seq<char>, EngineModel>,
    told: EngineModel,
    now: i64,
) -> Map<Seq<char>, EngineModel> {
    let existing = if table.dom().contains(told.url) {
        Some(table[told.url])
    } else {
        None
    };
    table.insert(told.url, merged_entry(existing, told, now))
}

/// The table after some engines were told of, one after the other.
pub open spec fn absorb_all(
    table: Map<Seq<char>, EngineModel>,
    told: Seq<EngineModel>,
    now: i64,
) -> Map<Seq<char>, EngineModel>
    decreases told.len(),
{
    if told.len() == 0 {
        table
    } else {
        absorb(absorb_all(table, told.drop_last(), now), told.last(), now)
    }
}

/// The list holds exactly the entries of the table, in order.
pub open spec fn lists_table(r: Seq<EngineModel>, table: Map<Seq<char>, EngineModel>) -> bool {
    &&& in_order(r)
    &&& forall|i: int|
        0 <= i < r.len() ==> table.dom().contains((#[trigger] r[i]).url) && table[r[i].url] == r[i]
    &&& forall|u: Seq<char>| #[trigger]
        table.dom().contains(u) ==> exists|i: int| 0 <= i < r.len() && (#[trigger] r[i]).url == u
}

/// The table of a list whose URLs are distinct, seen from the list.
spec fn is_table_of(s: Seq<EngineModel>, table: Map<Seq<char>, EngineModel>) -> bool {
    &&& urls_distinct(s)
    &&& forall|i: int|
        0 <= i < s.len() ==> table.dom().contains((#[trigger] s[i]).url) && table[s[i].url] == s[i]
    &&& forall|u: Seq<char>| #[trigger]
        table.dom().contains(u) ==> exists|i: int| 0 <= i < s.len() && (#[trigger] s[i]).url == u
}

fn find(table: &Vec<DiscoveredEngine>, url: &String) -> (r: Option<usize>)
    ensures
        match r {
            Some(i) => i < table.len() && table.deep_view()[i as int].url == url@,
            None => forall|i: int|
                0 <= i < table.len() ==> (#[trigger] table.deep_view()[i]).url != url@,
        },
{
    let mut i: usize = 0;
    while i < table.len()
        invariant
            i <= table.len(),
            forall|j: int| 0 <= j < i ==> (#[trigger] table.deep_view()[j]).url != url@,
        decreases table.len() - i,
    {
        assert(table.deep_view()[i as int] == table@[i as int].deep_view());
        if table[i].url == *url {
            return Some(i);
        }
        i = i + 1;
    }
    None
}

fn put(table: &mut Vec<DiscoveredEngine>, e: DiscoveredEngine, at: Option<usize>, Ghost(m): Ghost<
    Map<Seq<char>, EngineModel>,
>)
    requires
        is_table_of(old(table).deep_view(), m),
        match at {
            Some(i) => i < old(table).len() && old(table).deep_view()[i as int].url == e.url@,
            None => forall|i: int|
                0 <= i < old(table).len() ==> (#[trigger] old(table).deep_view()[i]).url != e.url@,
        },
    ensures
        is_table_of(final(table).deep_view(), m.insert(e.url@, e.deep_view())),
{
    let ghost before = table.deep_view();
    let ghost x = e.deep_view();
    let ghost n = m.insert(e.url@, e.deep_view());
    match at {
        Some(k) => {
            table.set(k, e);
            proof {
                let after = table.deep_view();
                assert(after =~= before.update(k as int, x));
                assert forall|i: int, j: int| 0 <= i < j < after.len() implies (
                #[trigger] after[i]).url != (#[trigger] after[j]).url by {
                    assert(before[i].url != before[j].url);
                }
                assert forall|i: int| 0 <= i < after.len() implies n.dom().contains(
                    (#[trigger] after[i]).url,
                ) && n[after[i].url] == after[i] by {
                    if i != k {
                        assert(after[i] == before[i]);
                        if i < k {
                            assert(before[i].url != before[k as int].url);
                        } else {
                            assert(before[k as int].url != before[i].url);
                        }
                    }
                }
                assert forall|u: Seq<char>| #[trigger] n.dom().contains(u) implies exists|i: int|
                    0 <= i < after.len() && (#[trigger] after[i]).url == u by {
                    if u == x.url {
                        assert(after[k as int].url == u);
                    } else {
                        assert(m.dom().contains(u));
                        let i = choose|i: int| 0 <= i < before.len() && (#[trigger] before[i]).url == u;
                        assert(after[i].url == u);
                    }
                }
            }
        },
        None => {
            table.push(e);
            proof {
                let after = table.deep_view();
                assert(after =~= before.push(x));
                assert forall|i: int| 0 <= i < after.len() implies n.dom().contains(
                    (#[trigger] after[i]).url,
                ) && n[after[i].url] == after[i] by {
                    if i < before.len() {
                        assert(after[i] == before[i]);
                    }
                }
                assert forall|i: int, j: int| 0 <= i < j < after.len() implies (
                #[trigger] after[i]).url != (#[trigger] after[j]).url by {
                    assert(after[i] == before[i]);
                    if j < before.len() {
                        assert(after[j] == before[j]);
                    }
                }
                assert forall|u: Seq<char>| #[trigger] n.dom().contains(u) implies exists|i: int|
                    0 <= i < after.len() && (#[trigger] after[i]).url == u by {
                    if u == x.url {
                        assert(after[before.len() as int].url == u);
                    } else {
                        assert(m.dom().contains(u));
                        let i = choose|i: int| 0 <= i < before.len() && (#[trigger] before[i]).url == u;
                        assert(after[i].url == u);
                    }
                }
            }
        },
    }
}

fn max_time(a: i64, b: i64) -> (r: i64)
    ensures
        r == later(a, b),
{
    if a < b {
        b
    } else {
        a
    }
}

fn merge_one(existing: Option<&DiscoveredEngine>, told: &DiscoveredEngine, now: i64) -> (r:
    DiscoveredEngine)
    ensures
        r.deep_view() == merged_entry(
            match existing {
                Some(e) => Some(e.deep_view()),
                None => None,
            },
            told.deep_view(),
            now,
        ),
{
    match existing {
        None => {
            let mut r = told.copy();
            r.last_seen = max_time(r.last_seen, now);
            r
        },
        Some(e) => {
            let mut r = e.copy();
            if told.first_seen < r.first_seen {
                r.first_seen = told.first_seen;
            }
            if told.last_seen >= r.last_seen {
                r.name = told.name.clone();
                r.description = told.description.clone();
                r.last_seen = told.last_seen;
            }
            r.last_seen = max_time(r.last_seen, now);
            r
        },
    }
}

/// Merges what a peer told into the local list. The result is in order: the
/// engine seen last comes first, and engines seen at the same time are listed
/// by URL.
pub fn merge_engine_lists(
    local: Vec<DiscoveredEngine>,
    incoming: Vec<DiscoveredEngine>,
    now: i64,
) -> (r: Vec<DiscoveredEngine>)
    ensures
        lists_table(
            r.deep_view(),
            absorb_all(by_url(local.deep_view()), incoming.deep_view(), now),
        ),
{
    let ghost all = local.deep_view();
    let ghost told = incoming.deep_view();
    let mut table: Vec<DiscoveredEngine> = Vec::new();
    let mut i: usize = 0;
    assert(all.take(0) =~= Seq::<EngineModel>::empty());
    while i < local.len()
        invariant
            i <= local.len(),
            all == local.deep_view(),
            is_table_of(table.deep_view(), by_url(all.take(i as int))),
        decreases local.len() - i,
    {
        let e = local[i].copy();
        assert(all[i as int] == e.deep_view());
        assert(all.take(i + 1).drop_last() =~= all.take(i as int));
        let at = find(&table, &e.url);
        put(&mut table, e, at, Ghost(by_url(all.take(i as int))));
        i = i + 1;
    }
    assert(all.take(all.len() as int) =~= all);

    let ghost base = by_url(all);
    let mut k: usize = 0;
    assert(told.take(0) =~= Seq::<EngineModel>::empty());
    while k < incoming.len()
        invariant
            k <= incoming.len(),
            told == incoming.deep_view(),
            is_table_of(table.deep_view(), absorb_all(base, told.take(k as int), now)),
        decreases incoming.len() - k,
    {
        let ghost m = absorb_all(base, told.take(k as int), now);
        proof {
            assert(told[k as int] == incoming@[k as int].deep_view());
            assert(told.take(k + 1).drop_last() =~= told.take(k as int));
        }
        let at = find(&table, &incoming[k].url);
        let e = match at {
            Some(p) => {
                assert(table.deep_view()[p as int] == table@[p as int].deep_view());
                merge_one(Some(&table[p]), &incoming[k], now)
            },
            None => {
                proof {
                    if m.dom().contains(told[k as int].url) {
                        let q = choose|q: int|
                            0 <= q < table.deep_view().len() && (
                            #[trigger] table.deep_view()[q]).url == told[k as int].url;
                    }
                }
                merge_one(None, &incoming[k], now)
            },
        };
        put(&mut table, e, at, Ghost(m));
        k = k + 1;
    }
    assert(told.take(told.len() as int) =~= told);

    let ghost s = table.deep_view();
    let ghost m = absorb_all(base, told, now);
    let r = list(table);
    proof {
        let out = r.deep_view();
        assert forall|j: int| 0 <= j < out.len() implies m.dom().contains((#[trigger] out[j]).url)
            && m[out[j].url] == out[j] by {
            assert(out.contains(out[j]));
            assert(s.contains(out[j]));
            let q = choose|q: int| 0 <= q < s.len() && s[q] == out[j];
        }
        assert forall|u: Seq<char>| #[trigger] m.dom().contains(u) implies exists|j: int|
            0 <= j < out.len() && (#[trigger] out[j]).url == u by {
            let q = choose|q: int| 0 <= q < s.len() && (#[trigger] s[q]).url == u;
            assert(s.contains(s[q]));
            assert(out.contains(s[q]));
            let j = choose|j: int| 0 <= j < out.len() && out[j] == s[q];
            assert(out[j].url == u);
        }
    }
    r
}

// ---------------------------------------------------------------------------
// Exchanges
// ---------------------------------------------------------------------------

/// Why an exchange with a peer failed. Failures of the network and of the
/// database carry the message that came with them.
#[derive(Debug)]
pub enum GossipError {
    Http(String),
    Db(String),
    Version(String),
    Status(u16),
}

impl GossipError {
    /// The message shown for the error.
    pub open spec fn message_text(self) -> Seq<char> {
        match self {
            GossipError::Http(m) => "HTTP error: "@ + m@,
            GossipError::Db(m) => "DB error: "@ + m@,
            GossipError::Version(m) => "incompatible protocol version: "@ + m@,
            GossipError::Status(s) => "peer returned status "@ + decimal(s as nat),
        }
    }

    /// The message shown for the error.
    pub fn message(&self) -> (r: String)
        ensures
            r@ == self.message_text(),
    {
        match self {
            GossipError::Http(m) => concat("HTTP error: ", m.as_str()),
            GossipError::Db(m) => concat("DB error: ", m.as_str()),
            GossipError::Version(m) => concat("incompatible protocol version: ", m.as_str()),
            GossipError::Status(s) => {
                let digits = show_unsigned(*s as u64);
                concat("peer returned status ", digits.as_str())
            },
        }
    }
}

/// How many engines were told and heard of.
#[derive(Debug, Clone, Copy, PartialEq, Eq, Structural)]
pub struct ExchangeOutcome {
    pub sent_count: usize,
    pub received_count: usize,
}

/// How many peers a round of gossip reached.
#[derive(Debug, Clone, Copy, PartialEq, Eq, Structural)]
pub struct SyncResult {
    pub attempted: usize,
    pub succeeded: usize,
}

/// Where a peer takes gossip.
pub fn exchange_url(peer_url: &str) -> (r: String)
    ensures
        r@ == trim_end_of(peer_url@, '/') + "/api/gossip/exchange"@,
{
    let base = trim_end_char(peer_url, '/');
    concat(base.as_str(), "/api/gossip/exchange")
}

/// An error where a peer did not answer with success.
pub fn check_status(status: u16) -> (r: Result<(), GossipError>)
    ensures
        is_success(status) ==> r is Ok,
        !is_success(status) ==> r == Err::<(), _>(GossipError::Status(status)),
{
    if success(status) {
        Ok(())
    } else {
        Err(GossipError::Status(status))
    }
}

/// What is said of a peer that speaks another major version.
pub open spec fn version_complaint(peer_url: Seq<char>, theirs: Seq<char>) -> Seq<char> {
    "peer "@ + peer_url + " speaks "@ + theirs + " (ours "@ + PROTOCOL_VERSION@ + ")"@
}

/// Takes in a peer's answer to our list `local`. A peer that speaks another
/// major version is refused. Otherwise the result is the counts and the list
/// to store.
pub fn take_answer(
    local: Vec<DiscoveredEngine>,
    peer_url: &str,
    answer: &ExchangeResponse,
    now: i64,
) -> (r: Result<(ExchangeOutcome, Vec<DiscoveredEngine>), GossipError>)
    ensures
        match r {
            Err(e) => compatibility(answer.protocol_version@) is Incompatible && (
            e matches GossipError::Version(m) && m@ == version_complaint(
                peer_url@,
                answer.protocol_version@,
            )),
            Ok(x) => {
                &&& !(compatibility(answer.protocol_version@) is Incompatible)
                &&& x.0.sent_count == local.len()
                &&& x.0.received_count == answer.engines.len()
                &&& lists_table(
                    x.1.deep_view(),
                    absorb_all(
                        by_url(local.deep_view()),
                        all_heard_of(answer.engines.deep_view(), now),
                        now,
                    ),
                )
            },
        },
{
    match check_compatibility(answer.protocol_version.as_str()) {
        Compatibility::Incompatible => {
            let mut m: String = "peer ".to_owned();
            m.push_str(peer_url);
            m.push_str(" speaks ");
            m.push_str(answer.protocol_version.as_str());
            m.push_str(" (ours ");
            m.push_str(PROTOCOL_VERSION);
            m.push_str(")");
            Err(GossipError::Version(m))
        },
        _ => {
            let incoming = heard(&answer.engines, now);
            let outcome = ExchangeOutcome {
                sent_count: local.len(),
                received_count: incoming.len(),
            };
            Ok((outcome, merge_engine_lists(local, incoming, now)))
        },
    }
}

/// Sums up a round of gossip from how each exchange ended.
pub fn sync_result(succeeded: &Vec<bool>) -> (r: SyncResult)
    ensures
        r.attempted == succeeded.len(),
        r.succeeded == succeeded@.filter(|b: bool| b).len(),
{
    let ghost yes = |b: bool| b;
    let mut n: usize = 0;
    let mut i: usize = 0;
    assert(succeeded@.take(0) =~= Seq::<bool>::empty());
    assert(succeeded@.take(0).filter(yes).len() == 0) by {
        succeeded@.take(0).lemma_filter_len(yes);
    }
    while i < succeeded.len()
        invariant
            i <= succeeded.len(),
            yes == (|b: bool| b),
            n == succeeded@.take(i as int).filter(yes).len(),
            n <= i,
        decreases succeeded.len() - i,
    {
        proof {
            assert(succeeded@.take(i + 1) =~= succeeded@.take(i as int).push(
                succeeded@[i as int],
            ));
            succeeded@.take(i as int).lemma_filter_push(succeeded@[i as int], yes);
        }
        if succeeded[i] {
            n = n + 1;
        }
        i = i + 1;
    }
    assert(succeeded@.take(succeeded@.len() as int) =~= succeeded@);
    SyncResult { attempted: succeeded.len(), succeeded: n }
}

// ---------------------------------------------------------------------------
// Laws
// ---------------------------------------------------------------------------

/// Some engine of the list has the URL.
pub open spec fn tells_of(told: Seq<EngineModel>, url: Seq<char>) -> bool {
    exists|i: int| 0 <= i < told.len() && (#[trigger] told[i]).url == url
}

/// After a merge every engine is known that was known before or was told of,
/// and no other.
pub proof fn merging_unites(table: Map<Seq<char>, EngineModel>, told: Seq<EngineModel>, now: i64)
    ensures
        forall|u: Seq<char>| #[trigger]
            absorb_all(table, told, now).dom().contains(u) <==> table.dom().contains(u)
                || tells_of(told, u),
    decreases told.len(),
{
    if told.len() > 0 {
        let front = told.drop_last();
        merging_unites(table, front, now);
        assert forall|u: Seq<char>| #[trigger] absorb_all(table, told, now).dom().contains(u)
            <==> table.dom().contains(u) || tells_of(told, u) by {
            assert(absorb_all(table, front, now).dom().contains(u) <==> table.dom().contains(u)
                || tells_of(front, u));
            if tells_of(front, u) {
                let i = choose|i: int| 0 <= i < front.len() && (#[trigger] front[i]).url == u;
                assert(told[i].url == u);
            }
            if told.last().url == u {
                assert(told[told.len() - 1].url == u);
            }
            if tells_of(told, u) && told.last().url != u {
                let i = choose|i: int| 0 <= i < told.len() && (#[trigger] told[i]).url == u;
                assert(front[i].url == u);
            }
        }
    }
}

/// An engine that the peer did not tell of is left exactly as it was; above
/// all it does not count as seen again.
pub proof fn untold_engines_stay(
    table: Map<Seq<char>, EngineModel>,
    told: Seq<EngineModel>,
    now: i64,
    url: Seq<char>,
)
    requires
        table.dom().contains(url),
        !tells_of(told, url),
    ensures
        absorb_all(table, told, now).dom().contains(url),
        absorb_all(table, told, now)[url] == table[url],
    decreases told.len(),
{
    if told.len() > 0 {
        let front = told.drop_last();
        if tells_of(front, url) {
            let i = choose|i: int| 0 <= i < front.len() && (#[trigger] front[i]).url == url;
            assert(told[i].url == url);
        }
        untold_engines_stay(table, front, now, url);
        assert(told[told.len() - 1].url != url);
    }
}

/// An engine that the peer told of counts as seen now or later, and its first
/// sighting is never later than it was, nor later than what was told last.
pub proof fn told_engines_are_seen(
    table: Map<Seq<char>, EngineModel>,
    told: Seq<EngineModel>,
    now: i64,
    url: Seq<char>,
)
    requires
        tells_of(told, url),
    ensures
        absorb_all(table, told, now).dom().contains(url),
        absorb_all(table, told, now)[url].last_seen >= now,
        table.dom().contains(url) ==> absorb_all(table, told, now)[url].first_seen
            <= table[url].first_seen,
        forall|i: int|
            0 <= i < told.len() && (#[trigger] told[i]).url == url ==> absorb_all(
                table,
                told,
                now,
            )[url].first_seen <= told[i].first_seen,
    decreases told.len(),
{
    let front = told.drop_last();
    let before = absorb_all(table, front, now);
    merging_unites(table, front, now);
    if tells_of(front, url) {
        told_engines_are_seen(table, front, now, url);
    } else if table.dom().contains(url) {
        untold_engines_stay(table, front, now, url);
    }
    assert forall|i: int| 0 <= i < told.len() && (#[trigger] told[i]).url == url implies absorb_all(
        table,
        told,
        now,
    )[url].first_seen <= told[i].first_seen by {
        if i < front.len() {
            assert(front[i] == told[i]);
            assert(tells_of(front, url));
        }
    }
    if told.last().url != url {
        let i = choose|i: int| 0 <= i < told.len() && (#[trigger] told[i]).url == url;
        assert(front[i].url == url);
    }
}

/// Hearing of an engine with an older sighting than the known one changes
/// neither its name nor its description; an equal or newer one brings both.
pub proof fn newer_sightings_win(e: EngineModel, told: EngineModel, now: i64)
    ensures
        told.last_seen < e.last_seen ==> merged_entry(Some(e), told, now).name == e.name
            && merged_entry(Some(e), told, now).description == e.description,
        told.last_seen >= e.last_seen ==> merged_entry(Some(e), told, now).name == told.name
            && merged_entry(Some(e), told, now).description == told.description,
{
}

/// Hearing the same twice at one time changes nothing more.
pub proof fn hearing_twice_is_hearing_once(
    table: Map<Seq<char>, EngineModel>,
    told: EngineModel,
    now: i64,
)
    requires
        is_keyed(table),
    ensures
        absorb(absorb(table, told, now), told, now) == absorb(table, told, now),
{
    let once = absorb(table, told, now);
    assert(absorb(once, told, now) =~= once);
}

proof fn lemma_no_engine_precedes_itself(e: EngineModel)
    ensures
        !listed_before(e, e),
{
    lemma_text_lt_irreflexive(e.url);
}

/// A merged list names no URL twice.
pub proof fn merged_lists_are_distinct(r: Seq<EngineModel>, table: Map<Seq<char>, EngineModel>)
    requires
        lists_table(r, table),
    ensures
        urls_distinct(r),
{
    assert forall|i: int, j: int| 0 <= i < j < r.len() implies (#[trigger] r[i]).url != (
    #[trigger] r[j]).url by {
        if r[i].url == r[j].url {
            assert(r[i] == r[j]);
            lemma_no_engine_precedes_itself(r[i]);
            assert(listed_before(r[i], r[j]));
        }
    }
}

/// The merged list is determined by what was known and what was told.
pub proof fn merges_are_deterministic(
    a: Seq<EngineModel>,
    b: Seq<EngineModel>,
    table: Map<Seq<char>, EngineModel>,
)
    requires
        lists_table(a, table),
        lists_table(b, table),
    ensures
        a == b,
{
    assert forall|e: EngineModel| #[trigger] a.contains(e) <==> b.contains(e) by {
        if a.contains(e) {
            let i = choose|i: int| 0 <= i < a.len() && a[i] == e;
            assert(table.dom().contains(a[i].url));
            let j = choose|j: int| 0 <= j < b.len() && (#[trigger] b[j]).url == a[i].url;
            assert(b[j] == e);
        }
        if b.contains(e) {
            let i = choose|i: int| 0 <= i < b.len() && b[i] == e;
            assert(table.dom().contains(b[i].url));
            let j = choose|j: int| 0 <= j < a.len() && (#[trigger] a[j]).url == b[i].url;
            assert(a[j] == e);
        }
    }
    crate::federation::discovered::order_is_unique(a, b);
}

/// Every entry stands under its own URL.
pub open spec fn is_keyed(table: Map<Seq<char>, EngineModel>) -> bool {
    forall|u: Seq<char>| #[trigger] table.dom().contains(u) ==> table[u].url == u
}

/// The last engine of the list with the URL that was seen at `time`.
spec fn last_seen_at(told: Seq<EngineModel>, url: Seq<char>, time: i64) -> Option<EngineModel>
    decreases told.len(),
{
    if told.len() == 0 {
        None
    } else if told.last().url == url && told.last().last_seen == time {
        Some(told.last())
    } else {
        last_seen_at(told.drop_last(), url, time)
    }
}

/// Nothing in the list is later seen or earlier known than in the table.
spec fn covers(table: Map<Seq<char>, EngineModel>, told: Seq<EngineModel>, now: i64) -> bool {
    forall|i: int|
        0 <= i < told.len() ==> {
            let e = #[trigger] told[i];
            &&& table.dom().contains(e.url)
            &&& e.last_seen <= table[e.url].last_seen
            &&& now <= table[e.url].last_seen
            &&& table[e.url].first_seen <= e.first_seen
        }
}

/// After a merge the table covers what was told, and the engine told last
/// among those with the latest sighting gave the name and the description.
proof fn lemma_merged(
    table: Map<Seq<char>, EngineModel>,
    told: Seq<EngineModel>,
    now: i64,
)
    requires
        is_keyed(table),
    ensures
        is_keyed(absorb_all(table, told, now)),
        covers(absorb_all(table, told, now), told, now),
        forall|u: Seq<char>| #[trigger]
            absorb_all(table, told, now).dom().contains(u) ==> (match last_seen_at(
                told,
                u,
                absorb_all(table, told, now)[u].last_seen,
            ) {
                Some(e) => absorb_all(table, told, now)[u].name == e.name && absorb_all(
                    table,
                    told,
                    now,
                )[u].description == e.description,
                None => true,
            }),
    decreases told.len(),
{
    if told.len() > 0 {
        let front = told.drop_last();
        let x = told.last();
        let before = absorb_all(table, front, now);
        let after = absorb_all(table, told, now);
        lemma_merged(table, front, now);
        assert forall|i: int| 0 <= i < told.len() implies ({
            let e = #[trigger] told[i];
            &&& after.dom().contains(e.url)
            &&& e.last_seen <= after[e.url].last_seen
            &&& now <= after[e.url].last_seen
            &&& after[e.url].first_seen <= e.first_seen
        }) by {
            if i < front.len() {
                assert(front[i] == told[i]);
            }
        }
        assert forall|u: Seq<char>| #[trigger] after.dom().contains(u) implies (match last_seen_at(
            told,
            u,
            after[u].last_seen,
        ) {
            Some(e) => after[u].name == e.name && after[u].description == e.description,
            None => true,
        }) by {
            if u != x.url {
                assert(before.dom().contains(u));
                assert(after[u] == before[u]);
            } else if x.last_seen != after[u].last_seen {
                let time = after[u].last_seen;
                if last_seen_at(front, u, time) is Some {
                    lemma_last_seen_is_told(front, u, time);
                    let i = choose|i: int|
                        0 <= i < front.len() && (#[trigger] front[i]).url == u
                            && front[i].last_seen == time;
                    assert(front[i].last_seen <= before[u].last_seen);
                    assert(before.dom().contains(u));
                    assert(before[u].last_seen == time);
                }
            }
        }
    }
}

proof fn lemma_last_seen_is_told(told: Seq<EngineModel>, url: Seq<char>, time: i64)
    requires
        last_seen_at(told, url, time) is Some,
    ensures
        exists|i: int|
            0 <= i < told.len() && (#[trigger] told[i]).url == url && told[i].last_seen == time,
    decreases told.len(),
{
    let front = told.drop_last();
    if told.last().url == url && told.last().last_seen == time {
        assert(told[told.len() - 1].url == url);
    } else {
        lemma_last_seen_is_told(front, url, time);
        let i = choose|i: int|
            0 <= i < front.len() && (#[trigger] front[i]).url == url && front[i].last_seen == time;
        assert(told[i].url == url);
    }
}

/// What a table makes of a list that it covers: at most names and descriptions
/// change, to those told last among the latest sightings.
proof fn lemma_covered(table: Map<Seq<char>, EngineModel>, told: Seq<EngineModel>, now: i64)
    requires
        is_keyed(table),
        covers(table, told, now),
    ensures
        absorb_all(table, told, now).dom() == table.dom(),
        forall|u: Seq<char>| #[trigger]
            table.dom().contains(u) ==> absorb_all(table, told, now)[u] == (match last_seen_at(
                told,
                u,
                table[u].last_seen,
            ) {
                Some(e) => EngineModel { name: e.name, description: e.description, ..table[u] },
                None => table[u],
            }),
    decreases told.len(),
{
    if told.len() > 0 {
        let front = told.drop_last();
        let x = told.last();
        let before = absorb_all(table, front, now);
        let after = absorb_all(table, told, now);
        assert(covers(table, front, now)) by {
            assert forall|i: int| 0 <= i < front.len() implies ({
                let e = #[trigger] front[i];
                &&& table.dom().contains(e.url)
                &&& e.last_seen <= table[e.url].last_seen
                &&& now <= table[e.url].last_seen
                &&& table[e.url].first_seen <= e.first_seen
            }) by {
                assert(told[i] == front[i]);
            }
        }
        lemma_covered(table, front, now);
        assert(told[told.len() - 1] == x);
        assert(table.dom().contains(x.url));
        assert(after.dom() =~= table.dom());
        assert forall|u: Seq<char>| #[trigger] table.dom().contains(u) implies after[u] == (
        match last_seen_at(told, u, table[u].last_seen) {
            Some(e) => EngineModel { name: e.name, description: e.description, ..table[u] },
            None => table[u],
        }) by {
            if u == x.url {
                assert(before.dom().contains(u));
                assert(before[u].last_seen == table[u].last_seen);
            } else {
                assert(after[u] == before[u]);
            }
        }
    }
}

proof fn lemma_by_url_is_keyed(s: Seq<EngineModel>)
    ensures
        is_keyed(by_url(s)),
    decreases s.len(),
{
    if s.len() > 0 {
        lemma_by_url_is_keyed(s.drop_last());
    }
}

proof fn lemma_by_url_of_distinct(s: Seq<EngineModel>)
    requires
        urls_distinct(s),
    ensures
        forall|i: int|
            0 <= i < s.len() ==> by_url(s).dom().contains((#[trigger] s[i]).url)
                && by_url(s)[s[i].url] == s[i],
        forall|u: Seq<char>| #[trigger]
            by_url(s).dom().contains(u) ==> exists|i: int|
                0 <= i < s.len() && (#[trigger] s[i]).url == u,
    decreases s.len(),
{
    if s.len() > 0 {
        let front = s.drop_last();
        assert(urls_distinct(front)) by {
            assert forall|i: int, j: int| 0 <= i < j < front.len() implies (
            #[trigger] front[i]).url != (#[trigger] front[j]).url by {
                assert(s[i].url != s[j].url);
            }
        }
        lemma_by_url_of_distinct(front);
        assert forall|i: int| 0 <= i < s.len() implies by_url(s).dom().contains(
            (#[trigger] s[i]).url,
        ) && by_url(s)[s[i].url] == s[i] by {
            if i < front.len() {
                assert(front[i] == s[i]);
                assert(s[i].url != s[s.len() - 1].url);
            }
        }
        assert forall|u: Seq<char>| #[trigger] by_url(s).dom().contains(u) implies exists|i: int|
            0 <= i < s.len() && (#[trigger] s[i]).url == u by {
            if u == s.last().url {
                assert(s[s.len() - 1].url == u);
            } else {
                assert(by_url(front).dom().contains(u));
                let i = choose|i: int| 0 <= i < front.len() && (#[trigger] front[i]).url == u;
                assert(s[i].url == u);
            }
        }
    }
}

/// Merging the same list once more at the same time changes nothing: `once` is
/// `local` merged with what was told, and `twice` is `once` merged with it.
pub proof fn merging_twice_is_merging_once(
    local: Seq<EngineModel>,
    told: Seq<EngineModel>,
    now: i64,
    once: Seq<EngineModel>,
    twice: Seq<EngineModel>,
)
    requires
        lists_table(once, absorb_all(by_url(local), told, now)),
        lists_table(twice, absorb_all(by_url(once), told, now)),
    ensures
        twice == once,
{
    let table = absorb_all(by_url(local), told, now);
    lemma_by_url_is_keyed(local);
    lemma_merged(by_url(local), told, now);
    lemma_covered(table, told, now);
    assert(absorb_all(table, told, now) =~= table);
    merged_lists_are_distinct(once, table);
    lemma_by_url_of_distinct(once);
    assert(by_url(once) =~= table) by {
        assert forall|u: Seq<char>| #[trigger] by_url(once).dom().contains(u) <==> table.dom().contains(u) by {
            if table.dom().contains(u) {
                let i = choose|i: int| 0 <= i < once.len() && (#[trigger] once[i]).url == u;
                assert(by_url(once).dom().contains(once[i].url));
            }
        }
        assert forall|u: Seq<char>| #[trigger] table.dom().contains(u) implies by_url(once)[u]
            == table[u] by {
            let i = choose|i: int| 0 <= i < once.len() && (#[trigger] once[i]).url == u;
            assert(by_url(once)[once[i].url] == once[i]);
        }
    }
    merges_are_deterministic(once, twice, table);
}

/// What a merge makes of one engine: the earliest first sighting and the latest
/// of the known, the told and the present sighting. A new engine is taken over
/// as it was told.
pub proof fn merges_keep_the_extremes(e: EngineModel, told: EngineModel, now: i64)
    ensures
        ({
            let r = merged_entry(Some(e), told, now);
            &&& r.url == e.url
            &&& r.first_seen <= e.first_seen && r.first_seen <= told.first_seen
            &&& r.first_seen == e.first_seen || r.first_seen == told.first_seen
            &&& r.last_seen >= e.last_seen && r.last_seen >= told.last_seen && r.last_seen >= now
            &&& r.last_seen == e.last_seen || r.last_seen == told.last_seen || r.last_seen == now
        }),
        ({
            let r = merged_entry(None, told, now);
            &&& r.url == told.url && r.name == told.name && r.description == told.description
            &&& r.first_seen == told.first_seen
            &&& r.last_seen >= told.last_seen && r.last_seen >= now
            &&& r.last_seen == told.last_seen || r.last_seen == now
        }),
{
}

/// Telling of engines one after the other is telling of all of them at once.
pub proof fn engines_are_merged_one_by_one(
    table: Map<Seq<char>, EngineModel>,
    a: Seq<EngineModel>,
    b: Seq<EngineModel>,
    now: i64,
)
    ensures
        absorb_all(table, a + b, now) == absorb_all(absorb_all(table, a, now), b, now),
        absorb_all(table, Seq::empty(), now) == table,
    decreases b.len(),
{
    if b.len() == 0 {
        assert(a + b =~= a);
    } else {
        engines_are_merged_one_by_one(table, a, b.drop_last(), now);
        assert((a + b).drop_last() =~= a + b.drop_last());
        assert((a + b).last() == b.last());
    }
}

/// Telling of one engine changes the entry for its URL and no other.
pub proof fn one_engine_changes_one_entry(
    table: Map<Seq<char>, EngineModel>,
    told: EngineModel,
    now: i64,
)
    ensures
        ({
            let r = absorb_all(table, seq![told], now);
            &&& r.dom() == table.dom().insert(told.url)
            &&& forall|u: Seq<char>|
                u != told.url && #[trigger] table.dom().contains(u) ==> r[u] == table[u]
            &&& table.dom().contains(told.url) ==> r[told.url] == merged_entry(
                Some(table[told.url]),
                told,
                now,
            )
            &&& !table.dom().contains(told.url) ==> r[told.url] == merged_entry(None, told, now)
        }),
{
    let one = seq![told];
    assert(one.drop_last() =~= Seq::<EngineModel>::empty());
    assert(one.last() == told);
    assert(absorb_all(table, one.drop_last(), now) == table);
    assert(absorb_all(table, one, now).dom() =~= table.dom().insert(told.url));
}

/// A list of engines with distinct URLs is known as it is.
pub proof fn local_engines_are_known(local: Seq<EngineModel>, i: int)
    requires
        urls_distinct(local),
        0 <= i < local.len(),
    ensures
        by_url(local).dom().contains(local[i].url),
        by_url(local)[local[i].url] == local[i],
{
    lemma_by_url_of_distinct(local);
}

/// A merged list names every engine of the table, and no other, with the latest
/// sightings first.
pub proof fn merged_lists_name_every_engine(
    r: Seq<EngineModel>,
    table: Map<Seq<char>, EngineModel>,
    url: Seq<char>,
    i: int,
)
    requires
        lists_table(r, table),
    ensures
        table.dom().contains(url) ==> r.contains(table[url]),
        0 <= i < r.len() ==> table.dom().contains(r[i].url) && table[r[i].url] == r[i],
        0 < i < r.len() ==> r[i - 1].last_seen >= r[i].last_seen,
{
    if table.dom().contains(url) {
        let k = choose|k: int| 0 <= k < r.len() && (#[trigger] r[k]).url == url;
        assert(r[k] == table[url]);
    }
    if 0 < i < r.len() {
        assert(listed_before(r[i - 1], r[i]));
    }
}

/// The message of a failed exchange says what failed, and then what is known of
/// it; a peer of another version is named with its version and ours.
pub proof fn failures_are_told(m: String, status: u16, peer_url: Seq<char>, theirs: Seq<char>)
    ensures
        GossipError::Http(m).message_text() == "HTTP error: "@ + m@,
        GossipError::Db(m).message_text() == "DB error: "@ + m@,
        GossipError::Version(m).message_text() == "incompatible protocol version: "@ + m@,
        GossipError::Status(status).message_text() == "peer returned status "@ + decimal(
            status as nat,
        ),
        version_complaint(peer_url, theirs) == "peer "@ + peer_url + " speaks "@ + theirs
            + " (ours "@ + PROTOCOL_VERSION@ + ")"@,
{
}

} // verus!
