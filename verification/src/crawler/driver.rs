//! A crawl run: breadth first from a seed, one page after the other.
//!
//! The run decides; fetching, waiting and storing are done between its steps.

use std::collections::VecDeque;
use vstd::prelude::*;
use crate::crawler::error::{CrawlError, CrawlResult};
use crate::crawler::page::PageResult;
use crate::crawler::url_class::{normalize_url, normalized};
use crate::text::concat;
use crate::time::{seconds, Duration};

verus! {

/// How many URLs a run takes from sitemaps.
pub const MAX_SITEMAP_SEEDS: usize = 10_000;

/// How many refusals in a row end a run.
pub const MAX_CONSECUTIVE_429S: u32 = 5;

/// The longest wait after a refusal, in seconds.
pub const MAX_BACKOFF_SECS: u64 = 120;

/// How a run is to behave.
#[derive(Debug, Clone, Copy)]
pub struct DriverConfig {
    /// The least wait between two pages.
    pub politeness_delay: Duration,
    /// The most pages to fetch in one run.
    pub max_pages_per_run: usize,
}

/// What a run has done.
#[derive(Debug, Clone, Copy, PartialEq, Eq, Structural)]
pub struct DriverStats {
    /// Pages that were answered.
    pub pages_fetched: usize,
    /// Pages whose content was sent to the index.
    pub pages_indexed: usize,
    /// Pages that had not changed.
    pub pages_not_modified: usize,
    /// Pages that failed.
    pub pages_errored: usize,
}

/// The counts of a run as numbers without bounds.
pub struct StatsModel {
    pub pages_fetched: nat,
    pub pages_indexed: nat,
    pub pages_not_modified: nat,
    pub pages_errored: nat,
}

impl View for DriverStats {
    type V = StatsModel;

    open spec fn view(&self) -> StatsModel {
        StatsModel {
            pages_fetched: self.pages_fetched as nat,
            pages_indexed: self.pages_indexed as nat,
            pages_not_modified: self.pages_not_modified as nat,
            pages_errored: self.pages_errored as nat,
        }
    }
}

impl Default for DriverStats {
    fn default() -> (r: DriverStats)
        ensures
            r == (DriverStats {
                pages_fetched: 0,
                pages_indexed: 0,
                pages_not_modified: 0,
                pages_errored: 0,
            }),
    {
        DriverStats { pages_fetched: 0, pages_indexed: 0, pages_not_modified: 0, pages_errored: 0 }
    }
}

// ---------------------------------------------------------------------------
// Delays
// ---------------------------------------------------------------------------

/// The wait between pages, given what is configured and what the site's robots
/// rules ask for.
pub open spec fn run_delay(configured: nat, asked: Option<nat>) -> nat {
    match asked {
        Some(d) => if d < configured {
            configured
        } else {
            d
        },
        None => configured,
    }
}

/// The wait between pages: the longer of what is configured and what the
/// site's robots rules ask for.
pub fn effective_delay_for_run(configured: Duration, robots_crawl_delay: Option<Duration>) -> (r:
    Duration)
    ensures
        r@ == (match robots_crawl_delay {
            Some(d) => if d@ < configured@ {
                configured@
            } else {
                d@
            },
            None => configured@,
        }),
        r@ == run_delay(
            configured@,
            match robots_crawl_delay {
                Some(d) => Some(d@),
                None => None,
            },
        ),
{
    match robots_crawl_delay {
        Some(d) => d.max(configured),
        None => configured,
    }
}

/// The seconds to wait after the `n`-th refusal in a row: 1, 2, 4, 8.
pub open spec fn backoff_secs(n: nat) -> nat
    decreases n,
{
    if n <= 1 {
        1
    } else {
        2 * backoff_secs((n - 1) as nat)
    }
}

/// The wait after the `consecutive`-th refusal in a row. `None` from the fifth
/// on: the run is to be given up.
pub fn rate_limit_backoff(consecutive: u32) -> (r: Option<Duration>)
    requires
        consecutive >= 1,
    ensures
        r is None <==> consecutive >= MAX_CONSECUTIVE_429S,
        r matches Some(d) ==> d@ == seconds(backoff_secs(consecutive as nat)),
{
    if consecutive >= MAX_CONSECUTIVE_429S {
        return None;
    }
    proof {
        reveal_with_fuel(backoff_secs, 5);
    }
    let secs: u64 = if consecutive == 1 {
        1
    } else if consecutive == 2 {
        2
    } else if consecutive == 3 {
        4
    } else {
        8
    };
    Some(Duration::from_secs(secs))
}

/// The wait after a refusal: what the server asks for, or the wait for the
/// `n`-th refusal in a row, and never more than the cap.
pub open spec fn refusal_wait(n: nat, retry_after: Option<Duration>) -> nat {
    let asked = match retry_after {
        Some(d) => d@,
        None => seconds(backoff_secs(n)),
    };
    let cap = seconds(MAX_BACKOFF_SECS as nat);
    if cap < asked {
        cap
    } else {
        asked
    }
}

fn wait_after_refusal(consecutive: u32, retry_after: Option<Duration>) -> (r: Duration)
    requires
        1 <= consecutive < MAX_CONSECUTIVE_429S,
    ensures
        r@ == refusal_wait(consecutive as nat, retry_after),
{
    let asked = match retry_after {
        Some(d) => d,
        None => match rate_limit_backoff(consecutive) {
            Some(d) => d,
            None => Duration::from_secs(32),
        },
    };
    asked.min(Duration::from_secs(MAX_BACKOFF_SECS))
}

// ---------------------------------------------------------------------------
// The run
// ---------------------------------------------------------------------------

/// The texts of some strings.
pub open spec fn texts(s: Seq<String>) -> Seq<Seq<char>> {
    Seq::new(s.len(), |i: int| s[i]@)
}

/// A run in progress.
pub struct CrawlRun {
    max_pages: usize,
    delay: Duration,
    visited: Vec<String>,
    queue: VecDeque<String>,
    current: Option<String>,
    consecutive_429s: u32,
    aborted: bool,
    stats: DriverStats,
}

/// A run as its laws speak of it.
pub struct RunModel {
    /// The most pages to fetch.
    pub max_pages: nat,
    /// The wait between two pages, in nanoseconds.
    pub delay: nat,
    /// Every URL that was ever queued.
    pub visited: Seq<Seq<char>>,
    /// The URLs still to crawl, the next one first.
    pub queue: Seq<Seq<char>>,
    /// The URL that is being crawled.
    pub current: Option<Seq<char>>,
    /// Refusals since the last answer.
    pub consecutive_429s: nat,
    /// The run was given up.
    pub aborted: bool,
    pub stats: StatsModel,
}

/// What to do after a page.
#[derive(Debug, Clone, Copy)]
pub enum NextStep {
    /// Wait, then ask for the next URL.
    Wait(Duration),
    /// Ask for the next URL at once.
    Proceed,
    /// The run was given up.
    Abort,
}

/// What to do after a page, with the wait in nanoseconds.
pub enum StepModel {
    Wait(nat),
    Proceed,
    Abort,
}

impl View for NextStep {
    type V = StepModel;

    open spec fn view(&self) -> StepModel {
        match self {
            NextStep::Wait(d) => StepModel::Wait(d@),
            NextStep::Proceed => StepModel::Proceed,
            NextStep::Abort => StepModel::Abort,
        }
    }
}

/// How crawling a page ended.
pub enum PageOutcome {
    Crawled(PageResult),
    RateLimited(Option<Duration>),
    Failed,
}

/// Sorts the result of crawling a page by what it means for the run.
pub fn outcome_of(result: CrawlResult<PageResult>) -> (r: PageOutcome)
    ensures
        match result {
            Ok(p) => r == PageOutcome::Crawled(p),
            Err(CrawlError::RateLimited { retry_after }) => r == PageOutcome::RateLimited(
                retry_after,
            ),
            Err(_) => r == PageOutcome::Failed,
        },
{
    match result {
        Ok(p) => PageOutcome::Crawled(p),
        Err(e) => match e {
            CrawlError::RateLimited { retry_after } => PageOutcome::RateLimited(retry_after),
            _ => PageOutcome::Failed,
        },
    }
}

/// `visited` after `links` were found: each new one once, in their order.
pub open spec fn visited_after(visited: Seq<Seq<char>>, links: Seq<Seq<char>>) -> Seq<Seq<char>>
    decreases links.len(),
{
    if links.len() == 0 {
        visited
    } else {
        let before = visited_after(visited, links.drop_last());
        if before.contains(links.last()) {
            before
        } else {
            before.push(links.last())
        }
    }
}

impl RunModel {
    /// What holds of every run.
    pub open spec fn valid(self) -> bool {
        &&& self.visited.no_duplicates()
        &&& self.queue.no_duplicates()
        &&& forall|i: int|
            0 <= i < self.queue.len() ==> self.visited.contains(#[trigger] self.queue[i])
        &&& self.current matches Some(u) ==> self.visited.contains(u) && !self.queue.contains(u)
            && self.stats.pages_fetched < self.max_pages && !self.aborted
        &&& self.stats.pages_fetched <= self.max_pages
        &&& self.stats.pages_indexed <= self.stats.pages_fetched
        &&& self.stats.pages_not_modified <= self.stats.pages_fetched
        &&& self.stats.pages_fetched + self.stats.pages_errored + self.queue.len() + (
        if self.current is Some || self.aborted {
            1int
        } else {
            0int
        }) == self.visited.len()
        &&& self.consecutive_429s <= MAX_CONSECUTIVE_429S
        &&& self.aborted <==> self.consecutive_429s == MAX_CONSECUTIVE_429S
    }

    /// There is a page to fetch and room for it.
    pub open spec fn goes_on(self) -> bool {
        self.queue.len() > 0 && self.stats.pages_fetched < self.max_pages
    }

    /// The run at its start: only the seed is known.
    pub open spec fn started(seed: Seq<char>, max_pages: nat, delay: nat) -> RunModel {
        RunModel {
            max_pages,
            delay,
            visited: seq![seed],
            queue: seq![seed],
            current: None,
            consecutive_429s: 0,
            aborted: false,
            stats: StatsModel {
                pages_fetched: 0,
                pages_indexed: 0,
                pages_not_modified: 0,
                pages_errored: 0,
            },
        }
    }

    /// The run after `links` were found: those never seen before are queued.
    pub open spec fn with_links(self, links: Seq<Seq<char>>) -> RunModel {
        let visited = visited_after(self.visited, links);
        RunModel { visited, queue: self.queue + visited.skip(self.visited.len() as int), ..self }
    }

    /// The run after its next URL was taken.
    pub open spec fn popped(self) -> RunModel {
        RunModel { current: Some(self.queue[0]), queue: self.queue.drop_first(), ..self }
    }

    /// The run after the current page was crawled.
    pub open spec fn after_page(
        self,
        links: Seq<Seq<char>>,
        indexed: bool,
        not_modified: bool,
    ) -> RunModel {
        RunModel {
            current: None,
            consecutive_429s: 0,
            stats: StatsModel {
                pages_fetched: self.stats.pages_fetched + 1,
                pages_indexed: if indexed {
                    self.stats.pages_indexed + 1
                } else {
                    self.stats.pages_indexed
                },
                pages_not_modified: if not_modified {
                    self.stats.pages_not_modified + 1
                } else {
                    self.stats.pages_not_modified
                },
                pages_errored: self.stats.pages_errored,
            },
            ..self.with_links(links)
        }
    }

    /// The run after the current page was refused for too many requests: the
    /// page is the next one again, unless the run is given up.
    pub open spec fn after_refusal(self) -> RunModel {
        if self.consecutive_429s + 1 >= MAX_CONSECUTIVE_429S {
            RunModel {
                current: None,
                consecutive_429s: self.consecutive_429s + 1,
                aborted: true,
                ..self
            }
        } else {
            RunModel {
                current: None,
                consecutive_429s: self.consecutive_429s + 1,
                queue: seq![self.current->0] + self.queue,
                ..self
            }
        }
    }

    /// The run after the current page failed.
    pub open spec fn after_failure(self) -> RunModel {
        RunModel {
            current: None,
            stats: StatsModel { pages_errored: self.stats.pages_errored + 1, ..self.stats },
            ..self
        }
    }

    /// The run after the current page.
    pub open spec fn after(self, outcome: PageOutcome) -> RunModel {
        match outcome {
            PageOutcome::Crawled(p) => self.after_page(
                p.in_prefix_links.deep_view(),
                p.indexed,
                p.not_modified,
            ),
            PageOutcome::RateLimited(_) => self.after_refusal(),
            PageOutcome::Failed => self.after_failure(),
        }
    }
}

impl RunModel {
    /// What to do next in a run that has just taken in how a page ended.
    pub open spec fn next_step(self, outcome: PageOutcome) -> StepModel {
        match outcome {
            PageOutcome::RateLimited(retry_after) => if self.aborted {
                StepModel::Abort
            } else {
                StepModel::Wait(refusal_wait(self.consecutive_429s, retry_after))
            },
            _ => if self.goes_on() {
                StepModel::Wait(self.delay)
            } else {
                StepModel::Proceed
            },
        }
    }
}

impl View for CrawlRun {
    type V = RunModel;

    closed spec fn view(&self) -> RunModel {
        RunModel {
            max_pages: self.max_pages as nat,
            delay: self.delay@,
            visited: self.visited.deep_view(),
            queue: texts(self.queue@),
            current: self.current.deep_view(),
            consecutive_429s: self.consecutive_429s as nat,
            aborted: self.aborted,
            stats: self.stats@,
        }
    }
}

proof fn lemma_visited_after(visited: Seq<Seq<char>>, links: Seq<Seq<char>>)
    requires
        visited.no_duplicates(),
    ensures
        visited_after(visited, links).no_duplicates(),
        visited.is_prefix_of(visited_after(visited, links)),
        forall|i: int| 0 <= i < links.len() ==> visited_after(visited, links).contains(
            #[trigger] links[i],
        ),
        forall|u: Seq<char>| #[trigger]
            visited_after(visited, links).contains(u) ==> visited.contains(u) || links.contains(u),
    decreases links.len(),
{
    if links.len() > 0 {
        let front = links.drop_last();
        lemma_visited_after(visited, front);
        let before = visited_after(visited, front);
        let all = visited_after(visited, links);
        assert forall|i: int| 0 <= i < links.len() implies all.contains(#[trigger] links[i]) by {
            if i < front.len() {
                assert(front[i] == links[i]);
                let k = choose|k: int| 0 <= k < before.len() && before[k] == links[i];
                assert(all[k] == links[i]);
            } else if !before.contains(links.last()) {
                assert(all[before.len() as int] == links[i]);
            }
        }
        assert forall|u: Seq<char>| #[trigger] all.contains(u) implies visited.contains(u)
            || links.contains(u) by {
            if u != links.last() {
                let k = choose|k: int| 0 <= k < all.len() && all[k] == u;
                assert(before[k] == u);
                assert(before.contains(u));
                if front.contains(u) {
                    let j = choose|j: int| 0 <= j < front.len() && front[j] == u;
                    assert(links[j] == u);
                }
            } else {
                assert(links[links.len() - 1] == u);
            }
        }
        assert(visited.is_prefix_of(all)) by {
            assert(all.subrange(0, visited.len() as int) =~= before.subrange(
                0,
                visited.len() as int,
            ));
        }
    }
}

/// Queueing links keeps a run valid.
proof fn lemma_with_links_valid(m: RunModel, links: Seq<Seq<char>>)
    requires
        m.valid(),
    ensures
        m.with_links(links).valid(),
        m.with_links(links).queue.len() - m.queue.len() == m.with_links(links).visited.len()
            - m.visited.len(),
{
    lemma_visited_after(m.visited, links);
    let r = m.with_links(links);
    let n = m.visited.len() as int;
    assert(r.visited.subrange(0, n) == m.visited);
    assert forall|k: int| 0 <= k < n implies r.visited[k] == m.visited[k] by {
        assert(r.visited.subrange(0, n)[k] == r.visited[k]);
    }
    assert forall|i: int| 0 <= i < r.queue.len() implies r.visited.contains(#[trigger] r.queue[i]) by {
        if i < m.queue.len() {
            assert(m.visited.contains(m.queue[i]));
            let k = choose|k: int| 0 <= k < m.visited.len() && m.visited[k] == m.queue[i];
            assert(r.visited[k] == r.queue[i]);
        } else {
            assert(r.visited[n + (i - m.queue.len())] == r.queue[i]);
        }
    }
    assert forall|i: int, j: int| 0 <= i < j < r.queue.len() implies r.queue[i] != r.queue[j] by {
        if j >= m.queue.len() {
            let b = n + (j - m.queue.len());
            assert(r.queue[j] == r.visited[b]);
            if i < m.queue.len() {
                assert(m.visited.contains(m.queue[i]));
                let k = choose|k: int| 0 <= k < m.visited.len() && m.visited[k] == m.queue[i];
                assert(r.visited[k] == r.queue[i]);
            } else {
                assert(r.queue[i] == r.visited[n + (i - m.queue.len())]);
            }
        }
    }
    if m.current is Some {
        let u = m.current->0;
        let k = choose|k: int| 0 <= k < m.visited.len() && m.visited[k] == u;
        assert(r.visited[k] == u);
        if r.queue.contains(u) {
            let i = choose|i: int| 0 <= i < r.queue.len() && r.queue[i] == u;
            if i < m.queue.len() {
                assert(m.queue[i] == u);
                assert(m.queue.contains(u));
            } else {
                assert(r.visited[n + (i - m.queue.len())] == u);
            }
        }
    }
}

/// Taking the next URL and every outcome of a page keep a run valid.
pub proof fn runs_stay_valid(m: RunModel, outcome: PageOutcome)
    requires
        m.valid(),
    ensures
        m.current is None && !m.aborted && m.goes_on() ==> m.popped().valid(),
        m.current is Some ==> m.after(outcome).valid(),
{
    if m.current is None && !m.aborted && m.goes_on() {
        let r = m.popped();
        assert(m.visited.contains(m.queue[0]));
        assert forall|i: int| 0 <= i < r.queue.len() implies r.visited.contains(
            #[trigger] r.queue[i],
        ) by {
            assert(r.queue[i] == m.queue[i + 1]);
        }
    }
    if m.current is Some {
        match outcome {
            PageOutcome::Crawled(p) => {
                lemma_with_links_valid(m, p.in_prefix_links.deep_view());
            },
            PageOutcome::RateLimited(_) => {
                let r = m.after(outcome);
                if !r.aborted {
                    assert forall|i: int| 0 <= i < r.queue.len() implies r.visited.contains(
                        #[trigger] r.queue[i],
                    ) by {
                        if i > 0 {
                            assert(r.queue[i] == m.queue[i - 1]);
                        }
                    }
                    assert forall|i: int, j: int| 0 <= i < j < r.queue.len() implies r.queue[i]
                        != r.queue[j] by {
                        assert(r.queue[j] == m.queue[j - 1]);
                        if i > 0 {
                            assert(r.queue[i] == m.queue[i - 1]);
                        } else {
                            assert(m.queue.contains(m.queue[j - 1]));
                        }
                    }
                }
            },
            PageOutcome::Failed => {},
        }
    }
}

impl CrawlRun {
    /// What holds of every run between its steps.
    pub open spec fn valid(&self) -> bool {
        self@.valid()
    }

    /// The canonical form of a target's address, from which a run starts.
    pub fn canonical_seed(seed_url: &str) -> (r: CrawlResult<String>)
        ensures
            match r {
                Ok(s) => normalized(seed_url@) == Some(s@),
                Err(e) => normalized(seed_url@) is None && (e matches CrawlError::Other(m) && m@
                    == "seed URL is unparseable: "@ + seed_url@),
            },
    {
        match normalize_url(seed_url) {
            Some(s) => Ok(s),
            None => Err(CrawlError::Other(concat("seed URL is unparseable: ", seed_url))),
        }
    }

    /// A run that starts from the canonical address `seed`. `robots_delay` is
    /// the wait that the site's robots rules ask for.
    pub fn start(seed: String, config: &DriverConfig, robots_delay: Option<Duration>) -> (r: CrawlRun)
        ensures
            r.valid(),
            r@ == RunModel::started(
                seed@,
                config.max_pages_per_run as nat,
                match robots_delay {
                    Some(d) => if d@ < config.politeness_delay@ {
                        config.politeness_delay@
                    } else {
                        d@
                    },
                    None => config.politeness_delay@,
                },
            ),
    {
        let delay = effective_delay_for_run(config.politeness_delay, robots_delay);
        let mut visited: Vec<String> = Vec::new();
        let mut queue: VecDeque<String> = VecDeque::new();
        visited.push(seed.clone());
        queue.push_back(seed);
        let r = CrawlRun {
            max_pages: config.max_pages_per_run,
            delay,
            visited,
            queue,
            current: None,
            consecutive_429s: 0,
            aborted: false,
            stats: DriverStats {
                pages_fetched: 0,
                pages_indexed: 0,
                pages_not_modified: 0,
                pages_errored: 0,
            },
        };
        assert(r@.visited =~= seq![seed@]);
        assert(r@.queue =~= seq![seed@]);
        assert(r@.visited[0] == r@.queue[0]);
        r
    }

    fn has_visited(&self, url: &String) -> (r: bool)
        ensures
            r == self@.visited.contains(url@),
    {
        let ghost seen = self.visited.deep_view();
        let mut i: usize = 0;
        while i < self.visited.len()
            invariant
                i <= self.visited.len(),
                seen == self.visited.deep_view(),
                forall|j: int| 0 <= j < i ==> #[trigger] seen[j] != url@,
            decreases self.visited.len() - i,
        {
            assert(seen[i as int] == self.visited@[i as int]@);
            if self.visited[i] == *url {
                return true;
            }
            i = i + 1;
        }
        false
    }

    /// Queues the URLs that were not seen before.
    pub fn add_links(&mut self, links: &Vec<String>)
        requires
            old(self).valid(),
        ensures
            final(self).valid(),
            final(self)@ == old(self)@.with_links(links.deep_view()),
    {
        let ghost start = self@;
        let ghost all = links.deep_view();
        let ghost n = start.visited.len() as int;
        let mut i: usize = 0;
        assert(all.take(0) =~= Seq::<Seq<char>>::empty());
        assert(start.queue + start.visited.skip(n) =~= start.queue);
        assert(self@ == start.with_links(all.take(0)));
        while i < links.len()
            invariant
                i <= links.len(),
                all == links.deep_view(),
                start.valid(),
                n == start.visited.len(),
                self@ == start.with_links(all.take(i as int)),
            decreases links.len() - i,
        {
            let ghost before = self@;
            proof {
                assert(all[i as int] == links@[i as int]@);
                assert(all.take(i + 1).drop_last() =~= all.take(i as int));
                lemma_visited_after(start.visited, all.take(i as int));
            }
            if !self.has_visited(&links[i]) {
                self.visited.push(links[i].clone());
                self.queue.push_back(links[i].clone());
                proof {
                    assert(self@.visited =~= before.visited.push(all[i as int]));
                    assert(self@.queue =~= before.queue.push(all[i as int]));
                    assert(before.visited.push(all[i as int]).skip(n) =~= before.visited.skip(
                        n,
                    ).push(all[i as int]));
                    assert(self@.queue =~= start.queue + self@.visited.skip(n));
                }
            }
            i = i + 1;
        }
        proof {
            assert(all.take(all.len() as int) =~= all);
            lemma_with_links_valid(start, all);
        }
    }

    /// The next URL to crawl. `None` when the run is over: nothing is queued,
    /// the most pages were fetched, or the run was given up.
    pub fn next_url(&mut self) -> (r: Option<String>)
        requires
            old(self).valid(),
            old(self)@.current is None,
        ensures
            final(self).valid(),
            if !old(self)@.aborted && old(self)@.goes_on() {
                r is Some && final(self)@ == old(self)@.popped() && final(self)@.current == Some(
                    r->0@,
                )
            } else {
                r is None && final(self)@ == old(self)@
            },
    {
        let ghost before = self@;
        if self.aborted || self.queue.len() == 0 || self.stats.pages_fetched >= self.max_pages {
            return None;
        }
        proof {
            runs_stay_valid(before, PageOutcome::Failed);
        }
        match self.queue.pop_front() {
            Some(url) => {
                self.current = Some(url.clone());
                assert(self@.queue =~= before.queue.drop_first());
                assert(self@ == before.popped());
                Some(url)
            },
            None => None,
        }
    }

    /// Takes in how crawling the current page ended, and says what to do next.
    /// Between two pages the run waits; after a refusal it waits as long as
    /// the server asks or longer each time, and after the fifth in a row it is
    /// given up.
    pub fn finish_page(&mut self, outcome: PageOutcome) -> (r: NextStep)
        requires
            old(self).valid(),
            old(self)@.current is Some,
        ensures
            final(self).valid(),
            final(self)@ == old(self)@.after(outcome),
            r@ == final(self)@.next_step(outcome),
            match outcome {
                PageOutcome::RateLimited(retry_after) => if final(self)@.aborted {
                    r is Abort
                } else {
                    r matches NextStep::Wait(d) && d@ == refusal_wait(
                        final(self)@.consecutive_429s,
                        retry_after,
                    )
                },
                _ => if final(self)@.goes_on() {
                    r matches NextStep::Wait(d) && d@ == final(self)@.delay
                } else {
                    r is Proceed
                },
            },
    {
        let ghost before = self@;
        proof {
            runs_stay_valid(before, outcome);
            assert(before.visited.len() == self.visited.len());
        }
        let visited_count: usize = self.visited.len();
        let mut taken: Option<String> = None;
        std::mem::swap(&mut taken, &mut self.current);
        match outcome {
            PageOutcome::Crawled(p) => {
                self.current = taken;
                assert(self@ == before);
                self.add_links(&p.in_prefix_links);
                self.current = None;
                self.consecutive_429s = 0;
                self.stats.pages_fetched = self.stats.pages_fetched + 1;
                if p.indexed {
                    self.stats.pages_indexed = self.stats.pages_indexed + 1;
                }
                if p.not_modified {
                    self.stats.pages_not_modified = self.stats.pages_not_modified + 1;
                }
                self.between_pages()
            },
            PageOutcome::RateLimited(retry_after) => {
                self.consecutive_429s = self.consecutive_429s + 1;
                if self.consecutive_429s >= MAX_CONSECUTIVE_429S {
                    self.aborted = true;
                    NextStep::Abort
                } else {
                    match taken {
                        Some(url) => {
                            self.queue.push_front(url);
                        },
                        None => {},
                    }
                    assert(self@.queue =~= seq![before.current->0] + before.queue);
                    NextStep::Wait(wait_after_refusal(self.consecutive_429s, retry_after))
                }
            },
            PageOutcome::Failed => {
                self.stats.pages_errored = self.stats.pages_errored + 1;
                self.between_pages()
            },
        }
    }

    fn between_pages(&self) -> (r: NextStep)
        ensures
            if self@.goes_on() {
                r matches NextStep::Wait(d) && d@ == self@.delay
            } else {
                r is Proceed
            },
    {
        if self.queue.len() > 0 && self.stats.pages_fetched < self.max_pages {
            NextStep::Wait(self.delay)
        } else {
            NextStep::Proceed
        }
    }

    /// What the run has done so far.
    pub fn stats(&self) -> (r: DriverStats)
        ensures
            r@ == self@.stats,
    {
        self.stats
    }
}

// ---------------------------------------------------------------------------
// Laws
// ---------------------------------------------------------------------------

/// A run never fetches more pages than it may.
pub proof fn page_limit_holds(m: RunModel)
    requires
        m.valid(),
    ensures
        m.stats.pages_fetched <= m.max_pages,
{
}

/// Pages that were indexed and pages that had not changed are different pages.
pub open spec fn counted_apart(m: RunModel) -> bool {
    m.stats.pages_indexed + m.stats.pages_not_modified <= m.stats.pages_fetched
}

/// As long as no page is both indexed and unchanged, the two counts together
/// never exceed the pages that were answered.
pub proof fn counts_add_up(
    seed: Seq<char>,
    max_pages: nat,
    delay: nat,
    m: RunModel,
    links: Seq<Seq<char>>,
    outcome: PageOutcome,
)
    requires
        counted_apart(m),
        outcome matches PageOutcome::Crawled(p) ==> !(p.indexed && p.not_modified),
    ensures
        counted_apart(RunModel::started(seed, max_pages, delay)),
        counted_apart(m.with_links(links)),
        counted_apart(m.popped()),
        counted_apart(m.after(outcome)),
{
}

/// A URL that was queued once is never queued again by being found again.
pub proof fn known_links_are_not_queued(m: RunModel, links: Seq<Seq<char>>)
    requires
        m.valid(),
        forall|i: int| 0 <= i < links.len() ==> m.visited.contains(#[trigger] links[i]),
    ensures
        m.with_links(links).queue == m.queue,
        m.with_links(links).visited == m.visited,
    decreases links.len(),
{
    if links.len() > 0 {
        let front = links.drop_last();
        assert forall|i: int| 0 <= i < front.len() implies m.visited.contains(
            #[trigger] front[i],
        ) by {
            assert(front[i] == links[i]);
        }
        known_links_are_not_queued(m, front);
        assert(links[links.len() - 1] == links.last());
    }
    assert(m.visited.skip(m.visited.len() as int) =~= Seq::<Seq<char>>::empty());
    assert(m.queue + m.visited.skip(m.visited.len() as int) =~= m.queue);
}

/// Every link of a crawled page is known to the run afterwards.
pub proof fn found_links_are_visited(m: RunModel, links: Seq<Seq<char>>)
    requires
        m.valid(),
    ensures
        forall|i: int| 0 <= i < links.len() ==> m.with_links(links).visited.contains(
            #[trigger] links[i],
        ),
{
    lemma_visited_after(m.visited, links);
}

/// A refusal does not count as an error, costs no page, and the refused page
/// is the next one to be tried.
pub proof fn refusals_are_retried(m: RunModel, retry_after: Option<Duration>)
    requires
        m.valid(),
        m.current is Some,
        m.consecutive_429s + 1 < MAX_CONSECUTIVE_429S,
    ensures
        m.after(PageOutcome::RateLimited(retry_after)).stats == m.stats,
        m.after(PageOutcome::RateLimited(retry_after)).goes_on(),
        m.after(PageOutcome::RateLimited(retry_after)).popped().current == m.current,
        m.after(PageOutcome::RateLimited(retry_after)).popped().queue == m.queue,
{
    let r = m.after(PageOutcome::RateLimited(retry_after));
    assert(r.popped().queue =~= m.queue);
}

/// The fifth refusal in a row gives the run up; after that there is no next
/// URL.
pub proof fn five_refusals_abort(m: RunModel, retry_after: Option<Duration>)
    requires
        m.valid(),
        m.current is Some,
    ensures
        m.after(PageOutcome::RateLimited(retry_after)).aborted <==> m.consecutive_429s == 4,
{
}

/// A page that is answered clears the count of refusals.
pub proof fn answers_clear_refusals(m: RunModel, p: PageResult)
    ensures
        m.after(PageOutcome::Crawled(p)).consecutive_429s == 0,
{
}

/// No wait after a refusal is longer than two minutes.
pub proof fn backoff_is_capped(n: nat, retry_after: Option<Duration>)
    ensures
        refusal_wait(n, retry_after) <= seconds(MAX_BACKOFF_SECS as nat),
{
}

/// A link that was not seen before is queued behind everything that is queued;
/// one that was seen is not. Links are taken one after the other.
pub proof fn new_links_are_queued_behind(
    m: RunModel,
    link: Seq<char>,
    a: Seq<Seq<char>>,
    b: Seq<Seq<char>>,
)
    requires
        m.valid(),
    ensures
        !m.visited.contains(link) ==> m.with_links(seq![link]).queue == m.queue.push(link)
            && m.with_links(seq![link]).visited == m.visited.push(link),
        m.visited.contains(link) ==> m.with_links(seq![link]) == m,
        m.with_links(a + b) == m.with_links(a).with_links(b),
        m.with_links(Seq::empty()) == m,
        m.with_links(a).stats == m.stats,
        m.with_links(a).current == m.current,
        m.with_links(a).max_pages == m.max_pages,
        m.with_links(a).delay == m.delay,
        m.with_links(a).consecutive_429s == m.consecutive_429s,
        m.with_links(a).aborted == m.aborted,
{
    let one = seq![link];
    let n = m.visited.len() as int;
    assert(one.drop_last() =~= Seq::<Seq<char>>::empty());
    assert(one.last() == link);
    assert(visited_after(m.visited, one.drop_last()) == m.visited);
    assert(m.visited.skip(n) =~= Seq::<Seq<char>>::empty());
    assert(m.queue + m.visited.skip(n) =~= m.queue);
    assert(m.visited.push(link).skip(n) =~= seq![link]);
    assert(m.queue + seq![link] =~= m.queue.push(link));
    lemma_visited_after_split(m.visited, a, b);
    lemma_visited_after(m.visited, a);
    let va = visited_after(m.visited, a);
    lemma_visited_after(va, b);
    let vb = visited_after(va, b);
    let k = va.len() as int;
    assert(vb.subrange(0, k) == va);
    assert forall|i: int| 0 <= i < k implies vb[i] == va[i] by {
        assert(vb.subrange(0, k)[i] == vb[i]);
    }
    assert(va.subrange(0, n) == m.visited);
    assert(vb.skip(n) =~= va.skip(n) + vb.skip(k));
    assert((m.queue + va.skip(n)) + vb.skip(k) =~= m.queue + vb.skip(n));
}

proof fn lemma_visited_after_split(
    visited: Seq<Seq<char>>,
    a: Seq<Seq<char>>,
    b: Seq<Seq<char>>,
)
    ensures
        visited_after(visited, a + b) == visited_after(visited_after(visited, a), b),
    decreases b.len(),
{
    if b.len() == 0 {
        assert(a + b =~= a);
    } else {
        lemma_visited_after_split(visited, a, b.drop_last());
        assert((a + b).drop_last() =~= a + b.drop_last());
        assert((a + b).last() == b.last());
    }
}

/// Every link that a crawled page hands on is queued, unless it was queued
/// before.
pub proof fn found_links_are_queued(m: RunModel, p: PageResult, i: int)
    requires
        m.valid(),
        m.current is Some,
        0 <= i < p.in_prefix_links.len(),
        !m.visited.contains(p.in_prefix_links@[i]@),
    ensures
        m.after(PageOutcome::Crawled(p)).queue.contains(p.in_prefix_links@[i]@),
{
    let links = p.in_prefix_links.deep_view();
    let u = links[i];
    let n = m.visited.len() as int;
    lemma_visited_after(m.visited, links);
    let all = visited_after(m.visited, links);
    assert(u == p.in_prefix_links@[i]@);
    let k = choose|k: int| 0 <= k < all.len() && all[k] == u;
    assert(all.subrange(0, n) == m.visited);
    if k < n {
        assert(all.subrange(0, n)[k] == all[k]);
        assert(m.visited[k] == u);
    }
    let queue = m.with_links(links).queue;
    assert(queue[m.queue.len() + (k - n)] == all.skip(n)[k - n]);
    assert(queue[m.queue.len() + (k - n)] == u);
}

/// The URL that was queued first is crawled first, and taking it changes
/// nothing else.
pub proof fn urls_are_crawled_in_their_order(m: RunModel)
    requires
        m.queue.len() > 0,
    ensures
        m.popped().current == Some(m.queue[0]),
        m.popped().queue == m.queue.skip(1),
        m.popped().visited == m.visited,
        m.popped().stats == m.stats,
        m.popped().delay == m.delay,
        m.popped().max_pages == m.max_pages,
        m.popped().consecutive_429s == m.consecutive_429s,
        m.popped().aborted == m.aborted,
{
    assert(m.queue.drop_first() =~= m.queue.skip(1));
}

/// A run goes on as long as a URL is queued and fewer pages were answered than
/// it may fetch.
pub proof fn runs_go_on_while_there_is_work(m: RunModel)
    ensures
        m.goes_on() <==> m.queue.len() > 0 && m.stats.pages_fetched < m.max_pages,
{
}

/// A page that was answered counts as fetched, once, and as indexed or unchanged
/// where it was; it changes neither the errors nor the limits of the run.
pub proof fn answered_pages_are_counted(m: RunModel, p: PageResult)
    ensures
        ({
            let r = m.after(PageOutcome::Crawled(p));
            &&& r.stats.pages_fetched == m.stats.pages_fetched + 1
            &&& r.stats.pages_indexed - m.stats.pages_indexed == if p.indexed {
                1int
            } else {
                0int
            }
            &&& r.stats.pages_not_modified - m.stats.pages_not_modified == if p.not_modified {
                1int
            } else {
                0int
            }
            &&& r.stats.pages_errored == m.stats.pages_errored
            &&& r.current is None
            &&& r.aborted == m.aborted
            &&& r.delay == m.delay && r.max_pages == m.max_pages
            &&& r.queue == m.with_links(p.in_prefix_links.deep_view()).queue
            &&& r.visited == m.with_links(p.in_prefix_links.deep_view()).visited
        }),
{
}

/// A page that failed counts as an error, once, and is not tried again; nothing
/// else changes.
pub proof fn failed_pages_are_counted(m: RunModel)
    ensures
        ({
            let r = m.after(PageOutcome::Failed);
            &&& r.stats.pages_errored == m.stats.pages_errored + 1
            &&& r.stats.pages_fetched == m.stats.pages_fetched
            &&& r.stats.pages_indexed == m.stats.pages_indexed
            &&& r.stats.pages_not_modified == m.stats.pages_not_modified
            &&& r.queue == m.queue && r.visited == m.visited
            &&& r.current is None
            &&& r.consecutive_429s == m.consecutive_429s && r.aborted == m.aborted
            &&& r.delay == m.delay && r.max_pages == m.max_pages
        }),
{
}

/// A refusal counts towards giving up, and changes what is known, what was
/// counted and the limits of the run in nothing.
pub proof fn refusals_are_counted(m: RunModel, retry_after: Option<Duration>)
    requires
        m.valid(),
        m.current is Some,
    ensures
        ({
            let r = m.after(PageOutcome::RateLimited(retry_after));
            &&& r.consecutive_429s == m.consecutive_429s + 1
            &&& r.visited == m.visited && r.stats == m.stats
            &&& r.delay == m.delay && r.max_pages == m.max_pages
            &&& r.current is None
            &&& !r.aborted ==> r.queue.len() == m.queue.len() + 1 && r.queue[0] == m.current->0
        }),
{
}

/// After a refusal the run waits as long as the server asks, two minutes at the
/// most; where it asks for nothing, one second, and twice as long each time.
pub proof fn waits_are_as_asked_or_double(n: nat, d: Duration)
    ensures
        d@ <= seconds(120) ==> refusal_wait(n, Some(d)) == d@,
        d@ > seconds(120) ==> refusal_wait(n, Some(d)) == seconds(120),
        refusal_wait(1, None) == seconds(1),
        1 <= n < MAX_CONSECUTIVE_429S - 1 ==> refusal_wait(n + 1, None) == 2 * refusal_wait(n, None),
{
    reveal_with_fuel(backoff_secs, 5);
}

/// A run starts with its seed, and with nothing done.
pub proof fn runs_start_at_their_seed(seed: Seq<char>, max_pages: nat, delay: nat)
    ensures
        ({
            let m = RunModel::started(seed, max_pages, delay);
            &&& m.queue.len() == 1 && m.queue[0] == seed
            &&& m.visited.len() == 1 && m.visited[0] == seed
            &&& m.current is None && !m.aborted && m.consecutive_429s == 0
            &&& m.stats.pages_fetched == 0 && m.stats.pages_indexed == 0
            &&& m.stats.pages_not_modified == 0 && m.stats.pages_errored == 0
            &&& m.max_pages == max_pages && m.delay == delay
        }),
{
}

/// The fifth refusal in a row gives a run up, no wait is longer than two minutes,
/// and no more than ten thousand pages come from sitemaps.
pub proof fn runs_are_bounded(m: RunModel, retry_after: Option<Duration>, n: nat)
    requires
        m.valid(),
        m.current is Some,
    ensures
        m.consecutive_429s + 1 >= 5 ==> m.after(PageOutcome::RateLimited(retry_after)).aborted,
        m.consecutive_429s + 1 < 5 ==> !m.after(PageOutcome::RateLimited(retry_after)).aborted,
        refusal_wait(n, retry_after) <= seconds(120),
        MAX_SITEMAP_SEEDS == 10_000,
{
}

/// The wait between pages is never shorter than what is configured or than what
/// the site asks for, and never longer than the longer of the two.
pub proof fn waits_respect_both_sides(configured: nat, asked: nat)
    ensures
        run_delay(configured, Some(asked)) >= configured,
        run_delay(configured, Some(asked)) >= asked,
        run_delay(configured, Some(asked)) == configured || run_delay(configured, Some(asked))
            == asked,
        run_delay(configured, None) == configured,
{
}

/// Before every further page a run waits: the whole delay after a page that was
/// answered or failed, and as long as a refusal calls for after a refusal. Only a
/// run that is given up aborts.
pub proof fn runs_wait_before_every_page(m: RunModel, outcome: PageOutcome)
    requires
        m.valid(),
        m.current is Some,
    ensures
        ({
            let after = m.after(outcome);
            let step = after.next_step(outcome);
            &&& !(outcome is RateLimited) && after.queue.len() > 0 && after.stats.pages_fetched
                < after.max_pages ==> step == StepModel::Wait(m.delay)
            &&& step is Abort <==> outcome is RateLimited && m.consecutive_429s + 1 >= 5
            &&& outcome matches PageOutcome::RateLimited(retry_after) ==> (m.consecutive_429s + 1
                < 5 ==> step == StepModel::Wait(
                refusal_wait(m.consecutive_429s + 1, retry_after),
            ))
            &&& step is Proceed ==> !(outcome is RateLimited) && (after.queue.len() == 0
                || after.stats.pages_fetched >= after.max_pages)
        }),
{
}

} // verus!
