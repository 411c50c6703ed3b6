//! Hosts that crawled pages link to, offered to the administrator as crawl
//! targets.

use vstd::prelude::*;
use crate::text::same_text;

verus! {

/// How many example links are kept for a host.
pub const MAX_EXAMPLES: usize = 5;

/// One example link to a host: the page that holds it, where it leads, and its
/// text.
#[derive(Debug, Clone, PartialEq, Eq)]
pub struct OutlinkExample {
    pub source_url: String,
    pub target_url: String,
    pub link_text: String,
}

pub struct ExampleModel {
    pub source_url: Seq<char>,
    pub target_url: Seq<char>,
    pub link_text: Seq<char>,
}

impl DeepView for OutlinkExample {
    type V = ExampleModel;

    open spec fn deep_view(&self) -> ExampleModel {
        ExampleModel {
            source_url: self.source_url@,
            target_url: self.target_url@,
            link_text: self.link_text@,
        }
    }
}

impl OutlinkExample {
    pub fn copy(&self) -> (r: OutlinkExample)
        ensures
            r.deep_view() == self.deep_view(),
    {
        OutlinkExample {
            source_url: self.source_url.clone(),
            target_url: self.target_url.clone(),
            link_text: self.link_text.clone(),
        }
    }
}

/// A host suggestion as the administrator sees it.
#[derive(Debug)]
pub struct OutlinkHostRow {
    pub id: i64,
    pub host: String,
    pub link_count: i64,
    pub examples: Vec<OutlinkExample>,
    pub first_seen_at: i64,
    pub last_seen_at: i64,
}

/// What identifies a suggestion when it is promoted or dismissed.
pub struct OutlinkHostRecord {
    pub rowid: i64,
    pub collection_id: String,
    pub host: String,
}

/// What the administrator has decided on a suggestion.
#[derive(Debug, Clone, Copy, PartialEq, Eq, Structural)]
pub enum HostStatus {
    Pending,
    Promoted,
    Dismissed,
}

impl HostStatus {
    /// The status that is stored under a text. Whatever is not pending is
    /// decided.
    pub open spec fn stored_as(text: Seq<char>) -> HostStatus {
        if text == "pending"@ {
            HostStatus::Pending
        } else if text == "promoted"@ {
            HostStatus::Promoted
        } else {
            HostStatus::Dismissed
        }
    }

    /// The text under which a status is stored.
    pub fn text(&self) -> (r: &'static str)
        ensures
            HostStatus::stored_as(r@) == *self,
            r@ == (match self {
                HostStatus::Pending => "pending"@,
                HostStatus::Promoted => "promoted"@,
                HostStatus::Dismissed => "dismissed"@,
            }),
    {
        proof {
            reveal_strlit("pending");
            reveal_strlit("promoted");
            reveal_strlit("dismissed");
            assert("promoted"@.len() != "pending"@.len());
            assert("dismissed"@.len() != "pending"@.len());
            assert("dismissed"@.len() != "promoted"@.len());
        }
        match self {
            HostStatus::Pending => "pending",
            HostStatus::Promoted => "promoted",
            HostStatus::Dismissed => "dismissed",
        }
    }

    /// Reads a stored status.
    pub fn read(text: &str) -> (r: HostStatus)
        ensures
            r == HostStatus::stored_as(text@),
    {
        if same_text(text, "pending") {
            HostStatus::Pending
        } else if same_text(text, "promoted") {
            HostStatus::Promoted
        } else {
            HostStatus::Dismissed
        }
    }
}

/// What is remembered of the links to a host.
#[derive(Debug)]
pub struct HostSightings {
    pub status: HostStatus,
    pub link_count: i64,
    pub examples: Vec<OutlinkExample>,
    pub first_seen_at: i64,
    pub last_seen_at: i64,
    /// The crawl target that was made of the host, where one was.
    pub promoted_target_id: Option<i64>,
}

pub struct SightingsModel {
    pub status: HostStatus,
    pub link_count: int,
    pub examples: Seq<ExampleModel>,
    pub first_seen_at: i64,
    pub last_seen_at: i64,
    pub promoted_target_id: Option<i64>,
}

impl DeepView for HostSightings {
    type V = SightingsModel;

    open spec fn deep_view(&self) -> SightingsModel {
        SightingsModel {
            status: self.status,
            link_count: self.link_count as int,
            examples: self.examples.deep_view(),
            first_seen_at: self.first_seen_at,
            last_seen_at: self.last_seen_at,
            promoted_target_id: self.promoted_target_id,
        }
    }
}

// ---------------------------------------------------------------------------
// Examples
// ---------------------------------------------------------------------------

/// Two examples are the same link: one page, one target.
pub open spec fn same_link(a: ExampleModel, b: ExampleModel) -> bool {
    a.source_url == b.source_url && a.target_url == b.target_url
}

/// The list already holds the link of `e`.
pub open spec fn has_link(examples: Seq<ExampleModel>, e: ExampleModel) -> bool {
    exists|i: int| 0 <= i < examples.len() && same_link(#[trigger] examples[i], e)
}

/// No link occurs twice in the list.
pub open spec fn links_distinct(examples: Seq<ExampleModel>) -> bool {
    forall|i: int, j: int|
        0 <= i < j < examples.len() ==> !same_link(#[trigger] examples[i], #[trigger] examples[j])
}

/// The list with `e` at its end, unless it is full or holds the link already.
pub open spec fn merged_examples(examples: Seq<ExampleModel>, e: ExampleModel) -> Seq<
    ExampleModel,
> {
    if examples.len() >= MAX_EXAMPLES || has_link(examples, e) {
        examples
    } else {
        examples.push(e)
    }
}

fn holds_link(examples: &Vec<OutlinkExample>, e: &OutlinkExample) -> (r: bool)
    ensures
        r == has_link(examples.deep_view(), e.deep_view()),
{
    let ghost all = examples.deep_view();
    let mut i: usize = 0;
    while i < examples.len()
        invariant
            i <= examples.len(),
            all == examples.deep_view(),
            forall|j: int| 0 <= j < i ==> !same_link(#[trigger] all[j], e.deep_view()),
        decreases examples.len() - i,
    {
        assert(all[i as int] == examples@[i as int].deep_view());
        if same_text(examples[i].source_url.as_str(), e.source_url.as_str()) && same_text(
            examples[i].target_url.as_str(),
            e.target_url.as_str(),
        ) {
            return true;
        }
        i = i + 1;
    }
    false
}

/// Adds an example to a host's list. The first ones seen stay: once the list
/// is full it no longer changes, and a link is listed once.
pub fn merge_example(examples: &mut Vec<OutlinkExample>, new_example: OutlinkExample)
    ensures
        final(examples).deep_view() == merged_examples(
            old(examples).deep_view(),
            new_example.deep_view(),
        ),
{
    let ghost before = examples.deep_view();
    if examples.len() < MAX_EXAMPLES && !holds_link(examples, &new_example) {
        examples.push(new_example);
        assert(examples.deep_view() =~= before.push(new_example.deep_view()));
    }
}

/// Merging keeps the list within its cap and free of repeated links, keeps
/// every example in its place, and adds one at the most.
pub proof fn merging_keeps_examples(examples: Seq<ExampleModel>, e: ExampleModel)
    requires
        examples.len() <= MAX_EXAMPLES,
        links_distinct(examples),
    ensures
        merged_examples(examples, e).len() <= MAX_EXAMPLES,
        links_distinct(merged_examples(examples, e)),
        examples.is_prefix_of(merged_examples(examples, e)),
        merged_examples(examples, e).len() <= examples.len() + 1,
{
    assert(examples.is_prefix_of(merged_examples(examples, e))) by {
        assert(merged_examples(examples, e).subrange(0, examples.len() as int) =~= examples);
    }
}

/// Merging an example a second time changes nothing.
pub proof fn merging_is_idempotent(examples: Seq<ExampleModel>, e: ExampleModel)
    ensures
        merged_examples(merged_examples(examples, e), e) == merged_examples(examples, e),
{
    if examples.len() < MAX_EXAMPLES && !has_link(examples, e) {
        let m = examples.push(e);
        assert(same_link(m[examples.len() as int], e));
    }
}

// ---------------------------------------------------------------------------
// Hits
// ---------------------------------------------------------------------------

/// What one more link to a host makes of what is remembered of it: a first
/// sighting is remembered with its example; a pending host gains a link, the
/// time and maybe an example; a decided host is left alone.
pub open spec fn after_hit(
    existing: Option<SightingsModel>,
    e: ExampleModel,
    now: i64,
) -> SightingsModel {
    match existing {
        None => SightingsModel {
            status: HostStatus::Pending,
            link_count: 1,
            examples: seq![e],
            first_seen_at: now,
            last_seen_at: now,
            promoted_target_id: None,
        },
        Some(s) => if s.status != HostStatus::Pending {
            s
        } else {
            SightingsModel {
                link_count: s.link_count + 1,
                last_seen_at: now,
                examples: merged_examples(s.examples, e),
                ..s
            }
        },
    }
}

/// Records one observed link to a host. `existing` is what the database holds
/// for the collection and the host.
pub fn record_hit(
    existing: Option<HostSightings>,
    example: OutlinkExample,
    now_unix: i64,
) -> (r: HostSightings)
    requires
        existing is Some ==> existing->0.link_count < i64::MAX,
    ensures
        r.deep_view() == after_hit(existing.deep_view(), example.deep_view(), now_unix),
{
    match existing {
        None => {
            let mut examples: Vec<OutlinkExample> = Vec::new();
            examples.push(example);
            assert(examples.deep_view() =~= seq![example.deep_view()]);
            HostSightings {
                status: HostStatus::Pending,
                link_count: 1,
                examples,
                first_seen_at: now_unix,
                last_seen_at: now_unix,
                promoted_target_id: None,
            }
        },
        Some(s) => {
            if s.status != HostStatus::Pending {
                s
            } else {
                let mut r = s;
                r.link_count = r.link_count + 1;
                r.last_seen_at = now_unix;
                merge_example(&mut r.examples, example);
                r
            }
        },
    }
}

/// Notes that the crawl target `target_id` was made of the host.
pub fn mark_promoted(sightings: &mut HostSightings, target_id: i64)
    ensures
        final(sightings).deep_view() == (SightingsModel {
            status: HostStatus::Promoted,
            promoted_target_id: Some(target_id),
            ..old(sightings).deep_view()
        }),
{
    sightings.status = HostStatus::Promoted;
    sightings.promoted_target_id = Some(target_id);
}

/// Notes that the host is not wanted.
pub fn mark_dismissed(sightings: &mut HostSightings)
    ensures
        final(sightings).deep_view() == (SightingsModel {
            status: HostStatus::Dismissed,
            ..old(sightings).deep_view()
        }),
{
    sightings.status = HostStatus::Dismissed;
}

/// A host that was dismissed or promoted is never changed by further links to
/// it, so a dismissal lasts.
pub proof fn decisions_last(s: SightingsModel, e: ExampleModel, now: i64)
    requires
        s.status != HostStatus::Pending,
    ensures
        after_hit(Some(s), e, now) == s,
{
}

/// A host stays pending until it is decided, and its first sighting stays.
pub proof fn hits_keep_status_and_first_sighting(s: SightingsModel, e: ExampleModel, now: i64)
    ensures
        after_hit(Some(s), e, now).status == s.status,
        after_hit(Some(s), e, now).first_seen_at == s.first_seen_at,
{
}

// ---------------------------------------------------------------------------
// The list for the administrator
// ---------------------------------------------------------------------------

/// A host suggestion with what was decided on it.
#[derive(Debug)]
pub struct HostSuggestion {
    pub row: OutlinkHostRow,
    pub status: HostStatus,
}

/// `a` may stand before `b` in the list: it has more links, or as many and was
/// seen no earlier.
pub open spec fn ranks_before(a: OutlinkHostRow, b: OutlinkHostRow) -> bool {
    a.link_count > b.link_count || (a.link_count == b.link_count && a.last_seen_at
        >= b.last_seen_at)
}

/// `row` put into `sorted` behind everything that may stand before it.
pub open spec fn insert_ranked(sorted: Seq<OutlinkHostRow>, row: OutlinkHostRow) -> Seq<
    OutlinkHostRow,
>
    decreases sorted.len(),
{
    if sorted.len() == 0 || ranks_before(sorted.last(), row) {
        sorted.push(row)
    } else {
        insert_ranked(sorted.drop_last(), row).push(sorted.last())
    }
}

/// The pending suggestions, those with the most links first, and of those with
/// as many the ones seen last.
pub open spec fn ranked_pending(all: Seq<HostSuggestion>) -> Seq<OutlinkHostRow>
    decreases all.len(),
{
    if all.len() == 0 {
        Seq::empty()
    } else if all.last().status == HostStatus::Pending {
        insert_ranked(ranked_pending(all.drop_last()), all.last().row)
    } else {
        ranked_pending(all.drop_last())
    }
}

/// How many suggestions a page holds: what is asked for, but at least one and
/// at most 500; 50 where nothing is asked for.
pub open spec fn page_limit(limit: Option<i64>) -> int {
    match limit {
        None => 50,
        Some(l) => if l < 1 {
            1
        } else if l > 500 {
            500
        } else {
            l as int
        },
    }
}

/// How many suggestions are passed over: what is asked for, but not less than
/// none.
pub open spec fn page_offset(offset: Option<i64>) -> int {
    match offset {
        None => 0,
        Some(o) => if o < 0 {
            0
        } else {
            o as int
        },
    }
}

/// The part of a list that a page shows.
pub open spec fn page_of(list: Seq<OutlinkHostRow>, limit: int, offset: int) -> Seq<
    OutlinkHostRow,
> {
    let from = if offset < list.len() {
        offset
    } else {
        list.len() as int
    };
    let to = if from + limit < list.len() {
        from + limit
    } else {
        list.len() as int
    };
    list.subrange(from, to)
}

fn may_precede(a: &OutlinkHostRow, b: &OutlinkHostRow) -> (r: bool)
    ensures
        r == ranks_before(*a, *b),
{
    a.link_count > b.link_count || (a.link_count == b.link_count && a.last_seen_at
        >= b.last_seen_at)
}

fn insert_by_rank(v: &mut Vec<OutlinkHostRow>, row: OutlinkHostRow)
    ensures
        final(v)@ == insert_ranked(old(v)@, row),
{
    let ghost before = v@;
    let mut k: usize = v.len();
    assert(before.take(k as int) =~= before);
    assert(insert_ranked(before.take(k as int), row) + before.skip(k as int) =~= insert_ranked(
        before,
        row,
    ));
    while k > 0 && !may_precede(&v[k - 1], &row)
        invariant
            k <= v.len(),
            before == v@,
            insert_ranked(before, row) == insert_ranked(before.take(k as int), row)
                + before.skip(k as int),
        decreases k,
    {
        proof {
            let t = before.take(k as int);
            assert(t.drop_last() =~= before.take(k - 1));
            assert(t.last() == before[k - 1]);
            assert(insert_ranked(t, row) + before.skip(k as int) =~= insert_ranked(
                before.take(k - 1),
                row,
            ) + before.skip(k - 1));
        }
        k = k - 1;
    }
    proof {
        let t = before.take(k as int);
        if k > 0 {
            assert(t.last() == before[k - 1]);
        }
        assert(insert_ranked(t, row) == t.push(row));
    }
    v.insert(k, row);
    assert(v@ =~= before.take(k as int).push(row) + before.skip(k as int));
}

fn rank_pending(all: Vec<HostSuggestion>) -> (r: Vec<OutlinkHostRow>)
    ensures
        r@ == ranked_pending(all@),
    decreases all.len(),
{
    let ghost total = all@;
    let mut left = all;
    match left.pop() {
        None => {
            let r: Vec<OutlinkHostRow> = Vec::new();
            assert(r@ =~= Seq::<OutlinkHostRow>::empty());
            r
        },
        Some(last) => {
            assert(left@ =~= total.drop_last());
            let mut r = rank_pending(left);
            if last.status == HostStatus::Pending {
                insert_by_rank(&mut r, last.row);
            }
            r
        },
    }
}

/// A page of the pending suggestions among `all`, the most telling first.
pub fn list_pending(all: Vec<HostSuggestion>, limit: Option<i64>, offset: Option<i64>) -> (r: Vec<
    OutlinkHostRow,
>)
    ensures
        r@ == page_of(ranked_pending(all@), page_limit(limit), page_offset(offset)),
{
    let count: u64 = match limit {
        None => 50,
        Some(l) => if l < 1 {
            1
        } else if l > 500 {
            500
        } else {
            l as u64
        },
    };
    let skipped: u64 = match offset {
        None => 0,
        Some(o) => if o < 0 {
            0
        } else {
            o as u64
        },
    };
    let mut list = rank_pending(all);
    let ghost total = list@;
    let len: usize = list.len();
    let from: usize = if skipped < len as u64 {
        skipped as usize
    } else {
        len
    };
    let mut page = list.split_off(from);
    assert(page@ =~= total.skip(from as int));
    if (page.len() as u64) > count {
        page.truncate(count as usize);
    }
    assert(page@ =~= page_of(total, page_limit(limit), page_offset(offset)));
    page
}

proof fn lemma_insert_ranked(sorted: Seq<OutlinkHostRow>, row: OutlinkHostRow)
    requires
        forall|i: int, j: int|
            0 <= i < j < sorted.len() ==> ranks_before(#[trigger] sorted[i], #[trigger] sorted[j]),
    ensures
        insert_ranked(sorted, row).len() == sorted.len() + 1,
        forall|i: int, j: int|
            0 <= i < j < insert_ranked(sorted, row).len() ==> ranks_before(
                #[trigger] insert_ranked(sorted, row)[i],
                #[trigger] insert_ranked(sorted, row)[j],
            ),
        forall|i: int|
            0 <= i < insert_ranked(sorted, row).len() ==> (#[trigger] insert_ranked(
                sorted,
                row,
            )[i] == row || sorted.contains(insert_ranked(sorted, row)[i])),
    decreases sorted.len(),
{
    let r = insert_ranked(sorted, row);
    if sorted.len() == 0 || ranks_before(sorted.last(), row) {
        assert forall|i: int, j: int| 0 <= i < j < r.len() implies ranks_before(
            #[trigger] r[i],
            #[trigger] r[j],
        ) by {
            if j == sorted.len() && i < sorted.len() - 1 {
                assert(ranks_before(sorted[i], sorted[sorted.len() - 1]));
            }
        }
        assert forall|i: int| 0 <= i < r.len() implies (#[trigger] r[i] == row || sorted.contains(
            r[i],
        )) by {
            if i < sorted.len() {
                assert(sorted[i] == r[i]);
            }
        }
    } else {
        let front = sorted.drop_last();
        lemma_insert_ranked(front, row);
        let inner = insert_ranked(front, row);
        assert forall|i: int| 0 <= i < r.len() implies (#[trigger] r[i] == row || sorted.contains(
            r[i],
        )) by {
            if i < inner.len() {
                assert(inner[i] == r[i]);
                if inner[i] != row {
                    let k = choose|k: int| 0 <= k < front.len() && front[k] == inner[i];
                    assert(sorted[k] == r[i]);
                }
            } else {
                assert(sorted[sorted.len() - 1] == r[i]);
            }
        }
        assert forall|i: int, j: int| 0 <= i < j < r.len() implies ranks_before(
            #[trigger] r[i],
            #[trigger] r[j],
        ) by {
            assert(inner[i] == r[i]);
            if j < inner.len() {
                assert(inner[j] == r[j]);
            } else if inner[i] != row {
                let k = choose|k: int| 0 <= k < front.len() && front[k] == inner[i];
                assert(ranks_before(sorted[k], sorted[sorted.len() - 1]));
            }
        }
    }
}

/// `row` is one of the suggestions and is pending.
pub open spec fn is_pending_in(row: OutlinkHostRow, all: Seq<HostSuggestion>) -> bool {
    exists|k: int|
        0 <= k < all.len() && (#[trigger] all[k]).row == row && all[k].status
            == HostStatus::Pending
}

/// The list shows pending suggestions only, those with the most links first.
pub proof fn pending_lists_are_ranked(all: Seq<HostSuggestion>)
    ensures
        forall|i: int, j: int|
            0 <= i < j < ranked_pending(all).len() ==> ranks_before(
                #[trigger] ranked_pending(all)[i],
                #[trigger] ranked_pending(all)[j],
            ),
        forall|i: int|
            0 <= i < ranked_pending(all).len() ==> is_pending_in(
                #[trigger] ranked_pending(all)[i],
                all,
            ),
    decreases all.len(),
{
    if all.len() > 0 {
        let before = all.drop_last();
        pending_lists_are_ranked(before);
        let front = ranked_pending(before);
        let r = ranked_pending(all);
        if all.last().status == HostStatus::Pending {
            lemma_insert_ranked(front, all.last().row);
        }
        assert forall|i: int| 0 <= i < r.len() implies is_pending_in(#[trigger] r[i], all) by {
            if all.last().status == HostStatus::Pending && r[i] == all.last().row {
                assert(all[all.len() - 1].row == r[i]);
            } else {
                assert(front.contains(r[i]));
                let m = choose|m: int| 0 <= m < front.len() && front[m] == r[i];
                assert(is_pending_in(front[m], before));
                let k = choose|k: int|
                    0 <= k < before.len() && (#[trigger] before[k]).row == front[m]
                        && before[k].status == HostStatus::Pending;
                assert(all[k].row == r[i]);
            }
        }
    }
}

/// A new link joins the examples at the end as long as there is room; one that
/// is there already, or for which there is no room, changes nothing.
pub proof fn new_examples_are_kept(examples: Seq<ExampleModel>, e: ExampleModel)
    ensures
        examples.len() < MAX_EXAMPLES && (forall|i: int|
            0 <= i < examples.len() ==> (#[trigger] examples[i]).source_url != e.source_url
                || examples[i].target_url != e.target_url) ==> merged_examples(examples, e)
            == examples.push(e),
        examples.len() >= MAX_EXAMPLES ==> merged_examples(examples, e) == examples,
        (exists|i: int|
            0 <= i < examples.len() && (#[trigger] examples[i]).source_url == e.source_url
                && examples[i].target_url == e.target_url) ==> merged_examples(examples, e)
            == examples,
{
    if exists|i: int|
        0 <= i < examples.len() && (#[trigger] examples[i]).source_url == e.source_url
            && examples[i].target_url == e.target_url {
        let i = choose|i: int|
            0 <= i < examples.len() && (#[trigger] examples[i]).source_url == e.source_url
                && examples[i].target_url == e.target_url;
        assert(same_link(examples[i], e));
    }
}

/// Every link to a host that is not decided on is counted, once, and dates its
/// last sighting; the first one starts the count with its example.
pub proof fn hits_are_counted(s: SightingsModel, e: ExampleModel, now: i64)
    ensures
        ({
            let first = after_hit(None, e, now);
            &&& first.status == HostStatus::Pending
            &&& first.link_count == 1
            &&& first.examples.len() == 1 && first.examples[0] == e
            &&& first.first_seen_at == now && first.last_seen_at == now
            &&& first.promoted_target_id is None
        }),
        s.status == HostStatus::Pending ==> {
            let r = after_hit(Some(s), e, now);
            &&& r.link_count == s.link_count + 1
            &&& r.last_seen_at == now
            &&& r.examples == merged_examples(s.examples, e)
            &&& r.promoted_target_id == s.promoted_target_id
        },
{
}

/// One more suggestion is listed where it is pending, beside all that were, and
/// changes nothing otherwise.
pub proof fn every_pending_suggestion_is_listed(all: Seq<HostSuggestion>, s: HostSuggestion)
    ensures
        ranked_pending(Seq::empty()).len() == 0,
        s.status == HostStatus::Pending ==> ranked_pending(all.push(s)).to_multiset()
            == ranked_pending(all).to_multiset().insert(s.row),
        s.status != HostStatus::Pending ==> ranked_pending(all.push(s)) == ranked_pending(all),
{
    assert(all.push(s).drop_last() =~= all);
    lemma_insert_ranked_keeps(ranked_pending(all), s.row);
}

proof fn lemma_insert_ranked_keeps(sorted: Seq<OutlinkHostRow>, row: OutlinkHostRow)
    ensures
        insert_ranked(sorted, row).to_multiset() == sorted.to_multiset().insert(row),
    decreases sorted.len(),
{
    sorted.to_multiset_ensures();
    if sorted.len() > 0 && !ranks_before(sorted.last(), row) {
        let front = sorted.drop_last();
        lemma_insert_ranked_keeps(front, row);
        front.to_multiset_ensures();
        insert_ranked(front, row).to_multiset_ensures();
        assert(sorted =~= front.push(sorted.last()));
        assert(insert_ranked(sorted, row).to_multiset() =~= sorted.to_multiset().insert(row));
    }
}

/// A suggestion with more links stands before one with fewer, and of two with as
/// many the one that was seen later.
pub proof fn busier_hosts_come_first(all: Seq<HostSuggestion>, i: int, j: int)
    requires
        0 <= i < j < ranked_pending(all).len(),
    ensures
        ranked_pending(all)[i].link_count >= ranked_pending(all)[j].link_count,
        ranked_pending(all)[i].link_count == ranked_pending(all)[j].link_count
            ==> ranked_pending(all)[i].last_seen_at >= ranked_pending(all)[j].last_seen_at,
{
    pending_lists_are_ranked(all);
    assert(ranks_before(ranked_pending(all)[i], ranked_pending(all)[j]));
}

/// A page shows the suggestions from its offset on, as many as it may, and the
/// pages of a list show all of it.
pub proof fn pages_show_the_list(list: Seq<OutlinkHostRow>, limit: int, offset: int, i: int)
    requires
        limit >= 1,
        offset >= 0,
    ensures
        page_of(list, limit, offset).len() == (if offset >= list.len() {
            0
        } else if list.len() - offset < limit {
            list.len() - offset
        } else {
            limit
        }),
        0 <= i < page_of(list, limit, offset).len() ==> page_of(list, limit, offset)[i]
            == list[offset + i],
        page_of(list, limit, offset) + page_of(list, list.len() as int + 1, offset + limit)
            == page_of(list, list.len() as int + 1, offset),
{
    assert(page_of(list, limit, offset) + page_of(list, list.len() as int + 1, offset + limit)
        =~= page_of(list, list.len() as int + 1, offset));
}

/// A page holds as many suggestions as are asked for, at least one and at most
/// 500, and 50 where nothing is asked for.
pub proof fn page_sizes_are_bounded(asked: i64)
    ensures
        page_limit(None) == 50,
        1 <= asked <= 500 ==> page_limit(Some(asked)) == asked,
        asked < 1 ==> page_limit(Some(asked)) == 1,
        asked > 500 ==> page_limit(Some(asked)) == 500,
        page_offset(None) == 0,
        asked >= 0 ==> page_offset(Some(asked)) == asked,
        asked < 0 ==> page_offset(Some(asked)) == 0,
{
}

/// A status is read back as it was stored, and whatever is not known counts as
/// decided.
pub proof fn unknown_statuses_are_decided(text: Seq<char>)
    ensures
        HostStatus::stored_as(text) == HostStatus::Pending <==> text == "pending"@,
        HostStatus::stored_as("promoted"@) == HostStatus::Promoted,
        HostStatus::stored_as("dismissed"@) == HostStatus::Dismissed,
{
    reveal_strlit("pending");
    reveal_strlit("promoted");
    reveal_strlit("dismissed");
    assert("promoted"@.len() != "pending"@.len());
    assert("dismissed"@.len() != "pending"@.len());
    assert("dismissed"@.len() != "promoted"@.len());
}

/// Five examples are kept of a host.
pub proof fn five_examples_are_kept(examples: Seq<ExampleModel>, e: ExampleModel)
    ensures
        examples.len() >= 5 ==> merged_examples(examples, e) == examples,
        examples.len() < 5 && !has_link(examples, e) ==> merged_examples(examples, e).len()
            == examples.len() + 1,
{
}

} // verus!
