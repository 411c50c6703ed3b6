//! The crawl scheduler: which targets are due, and which of them to start.

use vstd::prelude::*;
use crate::crawler::driver::DriverConfig;
use crate::crawler::page::PageContext;
use crate::index::size::check_capacity;
use crate::time::{seconds, Duration};

verus! {

/// The most pages that one run of a target fetches.
pub const MAX_PAGES_PER_RUN: usize = 1_000;

/// A crawl target that is due.
#[derive(Debug)]
pub struct DueTarget {
    pub id: String,
    pub collection_id: String,
    pub collection_name: String,
    pub url_prefix: String,
    pub recrawl_interval_secs: i64,
    /// The wait between pages of this target in seconds, where it has its own.
    pub crawl_delay_secs: Option<i64>,
}

/// A crawl target with what decides whether it is due.
#[derive(Debug)]
pub struct TargetSchedule {
    pub target: DueTarget,
    pub enabled: bool,
    pub last_crawled_at: Option<i64>,
}

/// A target is due at `now` if it is enabled and was never crawled, or not
/// within its interval.
pub open spec fn is_due(t: TargetSchedule, now: i64) -> bool {
    t.enabled && match t.last_crawled_at {
        None => true,
        Some(last) => last + t.target.recrawl_interval_secs <= now,
    }
}

/// The targets among `all` that are due at `now`, in their order.
pub open spec fn due_targets(all: Seq<TargetSchedule>, now: i64) -> Seq<DueTarget>
    decreases all.len(),
{
    if all.len() == 0 {
        Seq::empty()
    } else if is_due(all.last(), now) {
        due_targets(all.drop_last(), now).push(all.last().target)
    } else {
        due_targets(all.drop_last(), now)
    }
}

fn due(t: &TargetSchedule, now_unix: i64) -> (r: bool)
    ensures
        r == is_due(*t, now_unix),
{
    t.enabled && match t.last_crawled_at {
        None => true,
        Some(last) => last as i128 + t.target.recrawl_interval_secs as i128 <= now_unix as i128,
    }
}

/// The targets that are due at `now_unix`.
pub fn list_due_targets(all: Vec<TargetSchedule>, now_unix: i64) -> (r: Vec<DueTarget>)
    ensures
        r@ == due_targets(all@, now_unix),
        forall|i: int|
            0 <= i < all.len() && (#[trigger] all@[i]).enabled && (match all@[i].last_crawled_at {
                Some(last) => last + all@[i].target.recrawl_interval_secs <= now_unix,
                None => true,
            }) ==> r@.contains(all@[i].target),
{
    let mut left = all;
    let mut r: Vec<DueTarget> = Vec::new();
    let ghost total = all@;
    assert(total.take(total.len() as int) =~= total);
    let mut reversed: Vec<DueTarget> = Vec::new();
    while left.len() > 0
        invariant
            left@ == total.take(left.len() as int),
            left.len() <= total.len(),
            due_targets(total, now_unix) == due_targets(left@, now_unix) + reversed@.reverse(),
        decreases left.len(),
    {
        let ghost before = left@;
        match left.pop() {
            Some(t) => {
                assert(left@ =~= before.drop_last());
                assert(t == before.last());
                assert(left@ =~= total.take(left.len() as int));
                if due(&t, now_unix) {
                    let ghost rev = reversed@;
                    reversed.push(t.target);
                    assert(reversed@.reverse() =~= seq![t.target] + rev.reverse());
                    assert(due_targets(before, now_unix) + rev.reverse() =~= due_targets(
                        left@,
                        now_unix,
                    ) + reversed@.reverse());
                }
            },
            None => {},
        }
    }
    assert(due_targets(total, now_unix) =~= reversed@.reverse());
    while reversed.len() > 0
        invariant
            r@ + reversed@.reverse() == due_targets(total, now_unix),
        decreases reversed.len(),
    {
        let ghost before = reversed@;
        let ghost listed = r@;
        match reversed.pop() {
            Some(t) => {
                r.push(t);
                assert(before.reverse() =~= seq![t] + reversed@.reverse());
                assert(listed + before.reverse() =~= r@ + reversed@.reverse());
            },
            None => {},
        }
    }
    assert(r@ + reversed@.reverse() =~= r@);
    proof {
        assert forall|i: int|
            0 <= i < total.len() && (#[trigger] total[i]).enabled && (
            match total[i].last_crawled_at {
                Some(last) => last + total[i].target.recrawl_interval_secs <= now_unix,
                None => true,
            }) implies r@.contains(total[i].target) by {
            every_due_target_is_listed(total, now_unix, i);
        }
    }
    r
}

/// What the pages of a target are crawled for.
pub fn page_context(target: &DueTarget) -> (r: PageContext)
    ensures
        r.collection_id@ == target.collection_id@,
        r.crawl_target_id@ == target.id@,
        r.url_prefix@ == target.url_prefix@,
        r.collection_name@ == target.collection_name@,
{
    PageContext {
        collection_id: target.collection_id.clone(),
        crawl_target_id: target.id.clone(),
        url_prefix: target.url_prefix.clone(),
        collection_name: target.collection_name.clone(),
    }
}

/// The wait between the pages of a target, given its own in seconds and the one
/// that is configured.
pub open spec fn own_delay(own: Option<i64>, configured: nat) -> nat {
    match own {
        Some(secs) => if secs > 0 {
            seconds(secs as nat)
        } else {
            configured
        },
        None => configured,
    }
}

/// How a target is crawled: with its own wait between pages, where it has a
/// positive one, else as configured.
pub fn config_for(target: &DueTarget, default: &DriverConfig) -> (r: DriverConfig)
    ensures
        r.max_pages_per_run == default.max_pages_per_run,
        match target.crawl_delay_secs {
            Some(secs) => if secs > 0 {
                r.politeness_delay@ == seconds(secs as nat)
            } else {
                r.politeness_delay == default.politeness_delay
            },
            None => r.politeness_delay == default.politeness_delay,
        },
        r.politeness_delay@ == own_delay(target.crawl_delay_secs, default.politeness_delay@),
{
    match target.crawl_delay_secs {
        Some(secs) => if secs > 0 {
            DriverConfig {
                politeness_delay: Duration::from_secs(secs as u64),
                max_pages_per_run: default.max_pages_per_run,
            }
        } else {
            *default
        },
        None => *default,
    }
}

// ---------------------------------------------------------------------------
// Ticks
// ---------------------------------------------------------------------------

/// The targets whose crawl is in progress.
pub struct RunningTargets {
    ids: Vec<String>,
}

impl View for RunningTargets {
    type V = Seq<Seq<char>>;

    closed spec fn view(&self) -> Seq<Seq<char>> {
        self.ids.deep_view()
    }
}

/// `ids` without `id`.
pub open spec fn without_id(ids: Seq<Seq<char>>, id: Seq<char>) -> Seq<Seq<char>>
    decreases ids.len(),
{
    if ids.len() == 0 {
        ids
    } else if ids.last() == id {
        without_id(ids.drop_last(), id)
    } else {
        without_id(ids.drop_last(), id).push(ids.last())
    }
}

impl RunningTargets {
    pub fn new() -> (r: RunningTargets)
        ensures
            r@ == Seq::<Seq<char>>::empty(),
    {
        let r = RunningTargets { ids: Vec::new() };
        assert(r@ =~= Seq::<Seq<char>>::empty());
        r
    }

    fn contains(&self, id: &str) -> (r: bool)
        ensures
            r == self@.contains(id@),
    {
        let ghost all = self.ids.deep_view();
        let mut i: usize = 0;
        while i < self.ids.len()
            invariant
                i <= self.ids.len(),
                all == self.ids.deep_view(),
                forall|j: int| 0 <= j < i ==> #[trigger] all[j] != id@,
            decreases self.ids.len() - i,
        {
            assert(all[i as int] == self.ids@[i as int]@);
            if crate::text::same_text(self.ids[i].as_str(), id) {
                return true;
            }
            i = i + 1;
        }
        false
    }

    /// Notes that the crawl of a target starts, unless one is in progress.
    /// Says whether it is to start.
    pub fn begin(&mut self, id: &str) -> (r: bool)
        ensures
            r == !old(self)@.contains(id@),
            final(self)@ == if r {
                old(self)@.push(id@)
            } else {
                old(self)@
            },
    {
        if self.contains(id) {
            return false;
        }
        let ghost before = self@;
        self.ids.push(id.to_owned());
        assert(self@ =~= before.push(id@));
        true
    }

    /// Notes that the crawl of a target has ended, however it did.
    pub fn end(&mut self, id: &str)
        ensures
            final(self)@ == without_id(old(self)@, id@),
    {
        let ghost all = self.ids.deep_view();
        let mut kept: Vec<String> = Vec::new();
        let mut i: usize = 0;
        assert(all.take(0) =~= Seq::<Seq<char>>::empty());
        assert(kept.deep_view() =~= Seq::<Seq<char>>::empty());
        while i < self.ids.len()
            invariant
                i <= self.ids.len(),
                all == self.ids.deep_view(),
                kept.deep_view() == without_id(all.take(i as int), id@),
            decreases self.ids.len() - i,
        {
            let ghost before = kept.deep_view();
            proof {
                assert(all[i as int] == self.ids@[i as int]@);
                assert(all.take(i + 1).drop_last() =~= all.take(i as int));
            }
            if !crate::text::same_text(self.ids[i].as_str(), id) {
                kept.push(self.ids[i].clone());
                assert(kept.deep_view() =~= before.push(all[i as int]));
            }
            i = i + 1;
        }
        assert(all.take(all.len() as int) =~= all);
        self.ids = kept;
    }
}

/// Whether a tick may start crawls at all: not while the scheduler is paused,
/// and not once the index is full.
pub fn may_dispatch(paused: bool, used: u64, max: u64) -> (r: bool)
    ensures
        r == (!paused && used < max),
{
    !paused && check_capacity(used, max).is_ok()
}

/// The message of a panic: the text it came with, as a string or as a literal,
/// or a note that there was none.
pub fn panic_message(string: Option<&str>, literal: Option<&str>) -> (r: String)
    ensures
        r@ == (match (string, literal) {
            (Some(s), _) => s@,
            (None, Some(l)) => l@,
            (None, None) => "non-string panic payload"@,
        }),
{
    match string {
        Some(s) => s.to_owned(),
        None => match literal {
            Some(l) => l.to_owned(),
            None => "non-string panic payload".to_owned(),
        },
    }
}

// ---------------------------------------------------------------------------
// Laws
// ---------------------------------------------------------------------------

/// A disabled target is never due.
pub proof fn disabled_targets_are_never_due(t: TargetSchedule, now: i64)
    requires
        !t.enabled,
    ensures
        !is_due(t, now),
{
}

/// A target that is due stays due until it is crawled.
pub proof fn due_targets_stay_due(t: TargetSchedule, now: i64, later: i64)
    requires
        is_due(t, now),
        now <= later,
    ensures
        is_due(t, later),
{
}

/// A target that was just crawled is not due again before its interval is
/// over.
pub proof fn crawled_targets_rest(t: TargetSchedule, crawled: i64, now: i64)
    requires
        t.last_crawled_at == Some(crawled),
        now < crawled + t.target.recrawl_interval_secs,
    ensures
        !is_due(t, now),
{
}

proof fn lemma_without_id(ids: Seq<Seq<char>>, id: Seq<char>)
    ensures
        !without_id(ids, id).contains(id),
        forall|x: Seq<char>| x != id && ids.contains(x) ==> #[trigger] without_id(ids, id).contains(
            x,
        ),
    decreases ids.len(),
{
    if ids.len() > 0 {
        let front = ids.drop_last();
        lemma_without_id(front, id);
        let rest = without_id(front, id);
        let all = without_id(ids, id);
        if all.contains(id) {
            let k = choose|k: int| 0 <= k < all.len() && all[k] == id;
            assert(rest[k] == id);
            assert(rest.contains(id));
        }
        assert forall|x: Seq<char>| x != id && ids.contains(x) implies #[trigger] all.contains(
            x,
        ) by {
            let k = choose|k: int| 0 <= k < ids.len() && ids[k] == x;
            if k < front.len() {
                assert(front[k] == x);
                assert(front.contains(x));
                assert(rest.contains(x));
                let m = choose|m: int| 0 <= m < rest.len() && rest[m] == x;
                assert(all[m] == x);
            } else {
                assert(all[rest.len() as int] == x);
            }
        }
    }
}

/// A target is crawled by one task at a time: while it runs it is not started
/// again, once it has ended it may be, and other targets are not affected.
pub proof fn one_crawl_per_target(ids: Seq<Seq<char>>, id: Seq<char>, other: Seq<char>)
    ensures
        ids.push(id).contains(id),
        !without_id(ids, id).contains(id),
        other != id && ids.contains(other) ==> without_id(ids, id).contains(other),
{
    assert(ids.push(id)[ids.len() as int] == id);
    lemma_without_id(ids, id);
}

/// An enabled target that was last crawled its own interval ago or longer is
/// due, and so is one that was never crawled.
pub proof fn targets_are_due_after_their_interval(t: TargetSchedule, now: i64)
    requires
        t.enabled,
        match t.last_crawled_at {
            Some(last) => now - last >= t.target.recrawl_interval_secs,
            None => true,
        },
    ensures
        is_due(t, now),
{
}

/// Every target that is enabled and was not crawled within its interval is
/// listed.
pub proof fn every_due_target_is_listed(all: Seq<TargetSchedule>, now: i64, i: int)
    requires
        0 <= i < all.len(),
        all[i].enabled,
        match all[i].last_crawled_at {
            Some(last) => now - last >= all[i].target.recrawl_interval_secs,
            None => true,
        },
    ensures
        due_targets(all, now).contains(all[i].target),
    decreases all.len(),
{
    let front = due_targets(all.drop_last(), now);
    let listed = due_targets(all, now);
    if i < all.len() - 1 {
        every_due_target_is_listed(all.drop_last(), now, i);
        let k = choose|k: int| 0 <= k < front.len() && front[k] == all[i].target;
        assert(listed[k] == all[i].target);
    } else {
        assert(listed[front.len() as int] == all[i].target);
    }
}

/// Only a target that is enabled and was not crawled within its interval is
/// listed. What is listed of two lists is what is listed of the first and then
/// what is listed of the second.
pub proof fn due_targets_are_listed_in_order(
    t: TargetSchedule,
    a: Seq<TargetSchedule>,
    b: Seq<TargetSchedule>,
    now: i64,
)
    ensures
        due_targets(seq![t], now) == (if t.enabled && (match t.last_crawled_at {
            Some(last) => now - last >= t.target.recrawl_interval_secs,
            None => true,
        }) {
            seq![t.target]
        } else {
            Seq::empty()
        }),
        due_targets(a + b, now) == due_targets(a, now) + due_targets(b, now),
    decreases b.len(),
{
    let one = seq![t];
    assert(one.drop_last() =~= Seq::<TargetSchedule>::empty());
    assert(one.last() == t);
    assert(due_targets(one.drop_last(), now) =~= Seq::<DueTarget>::empty());
    if b.len() == 0 {
        assert(a + b =~= a);
        assert(due_targets(a, now) + due_targets(b, now) =~= due_targets(a, now));
    } else {
        due_targets_are_listed_in_order(t, a, b.drop_last(), now);
        assert((a + b).drop_last() =~= a + b.drop_last());
        assert((a + b).last() == b.last());
        assert(due_targets(a + b, now) =~= due_targets(a, now) + due_targets(b, now));
    }
}

/// Ending a crawl ends no other: nothing else leaves the running targets, and
/// nothing joins them.
pub proof fn ended_crawls_leave_the_others(ids: Seq<Seq<char>>, id: Seq<char>)
    ensures
        forall|x: Seq<char>| #[trigger]
            without_id(ids, id).contains(x) <==> x != id && ids.contains(x),
        !ids.contains(id) ==> without_id(ids, id) == ids,
        without_id(ids.push(id), id) == without_id(ids, id),
    decreases ids.len(),
{
    lemma_without_id(ids, id);
    let all = without_id(ids, id);
    assert(ids.push(id).drop_last() =~= ids);
    if ids.len() > 0 {
        let front = ids.drop_last();
        ended_crawls_leave_the_others(front, id);
        let rest = without_id(front, id);
        assert(ids.last() == ids[ids.len() - 1]);
        assert forall|x: Seq<char>| #[trigger] all.contains(x) implies x != id && ids.contains(
            x,
        ) by {
            let k = choose|k: int| 0 <= k < all.len() && all[k] == x;
            if k < rest.len() {
                assert(rest[k] == x);
                assert(rest.contains(x));
                assert(front.contains(x));
                let m = choose|m: int| 0 <= m < front.len() && front[m] == x;
                assert(ids[m] == x);
            }
        }
        if !ids.contains(id) {
            if front.contains(id) {
                let m = choose|m: int| 0 <= m < front.len() && front[m] == id;
                assert(ids[m] == id);
            }
            assert(all =~= ids);
        }
    }
}

/// A run of a target fetches up to a thousand pages.
pub proof fn runs_fetch_up_to_a_thousand_pages()
    ensures
        MAX_PAGES_PER_RUN == 1_000,
{
}

/// A target with a wait of its own is crawled with that; any other with the one
/// that is configured.
pub proof fn targets_have_their_own_wait(own: i64, configured: nat)
    ensures
        own > 0 ==> own_delay(Some(own), configured) == own * 1_000_000_000,
        own <= 0 ==> own_delay(Some(own), configured) == configured,
        own_delay(None, configured) == configured,
{
}

} // verus!
