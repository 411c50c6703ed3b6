//! Rate limiting: a sliding window for each client, with a wait that grows
//! with every violation.

use vstd::prelude::*;
use crate::api::reply::{Reply, ReplyModel};
use crate::crawler::url_parts::{parse_url, url_host, url_text};
use crate::text::{concat, joined, parts_are_joined_in_order, same_text, signed_decimal};

verus! {

// ---------------------------------------------------------------------------
// Hosts of peers
// ---------------------------------------------------------------------------

/// How long the hosts of peers are remembered, in milliseconds.
pub const PEER_IP_CACHE_TTL_MS: u64 = 300_000;

/// The hosts of the enabled peers, read again every five minutes. Times are
/// milliseconds of a clock that never goes back.
pub struct PeerIpCache {
    hosts: Vec<String>,
    last_refreshed_at: Option<u64>,
}

/// A cache as its contracts speak of it.
pub struct PeerCacheModel {
    pub hosts: Set<Seq<char>>,
    pub last_refreshed_at: Option<u64>,
}

impl View for PeerIpCache {
    type V = PeerCacheModel;

    closed spec fn view(&self) -> PeerCacheModel {
        PeerCacheModel {
            hosts: self.hosts.deep_view().to_set(),
            last_refreshed_at: self.last_refreshed_at,
        }
    }
}

/// The hosts that some URLs name; those without a host name none.
pub open spec fn hosts_of(urls: Seq<Seq<char>>) -> Set<Seq<char>> {
    Set::new(
        |h: Seq<char>|
            exists|i: int|
                0 <= i < urls.len() && url_text(#[trigger] urls[i]) is Some && url_host(urls[i])
                    == Some(h),
    )
}

impl Default for PeerIpCache {
    fn default() -> (r: PeerIpCache)
        ensures
            r@ == (PeerCacheModel { hosts: Set::empty(), last_refreshed_at: None }),
    {
        PeerIpCache::new()
    }
}

impl PeerIpCache {
    /// An empty cache, to be filled before it is used.
    pub fn new() -> (r: PeerIpCache)
        ensures
            r@ == (PeerCacheModel { hosts: Set::empty(), last_refreshed_at: None }),
    {
        let r = PeerIpCache { hosts: Vec::new(), last_refreshed_at: None };
        assert(r@.hosts =~= Set::empty());
        r
    }

    /// Whether the cache has to be filled again before it is used at `now`.
    pub fn is_stale(&self, now: u64) -> (r: bool)
        ensures
            r == (match self@.last_refreshed_at {
                None => true,
                Some(t) => now - t > PEER_IP_CACHE_TTL_MS,
            }),
    {
        match self.last_refreshed_at {
            None => true,
            Some(t) => now > t && now - t > PEER_IP_CACHE_TTL_MS,
        }
    }

    /// Fills the cache with the hosts of the enabled peers at `urls`.
    pub fn refresh(&mut self, urls: &Vec<String>, now: u64)
        ensures
            final(self)@ == (PeerCacheModel {
                hosts: hosts_of(urls.deep_view()),
                last_refreshed_at: Some(now),
            }),
    {
        let ghost all = urls.deep_view();
        let mut hosts: Vec<String> = Vec::new();
        let mut i: usize = 0;
        while i < urls.len()
            invariant
                i <= urls.len(),
                all == urls.deep_view(),
                forall|j: int|
                    0 <= j < i && url_text(#[trigger] all[j]) is Some && url_host(all[j]) is Some
                        ==> hosts.deep_view().contains(url_host(all[j])->0),
                forall|k: int|
                    0 <= k < hosts.len() ==> exists|j: int|
                        0 <= j < i && url_text(#[trigger] all[j]) is Some && url_host(all[j])
                            == Some((#[trigger] hosts@[k])@),
            decreases urls.len() - i,
        {
            let ghost before = hosts@;
            let ghost before_texts = hosts.deep_view();
            assert(all[i as int] == urls@[i as int]@);
            match parse_url(urls[i].as_str()) {
                Some(u) => match u.host {
                    Some(h) => {
                        hosts.push(h);
                        proof {
                            assert(hosts.deep_view() =~= before_texts.push(h@));
                            assert forall|j: int|
                                0 <= j < i + 1 && url_text(#[trigger] all[j]) is Some && url_host(
                                    all[j],
                                ) is Some implies hosts.deep_view().contains(
                                url_host(all[j])->0,
                            ) by {
                                if j < i {
                                    let x = url_host(all[j])->0;
                                    let k = choose|k: int|
                                        0 <= k < before_texts.len() && before_texts[k] == x;
                                    assert(hosts.deep_view()[k] == x);
                                } else {
                                    assert(hosts.deep_view()[before_texts.len() as int] == h@);
                                }
                            }
                            assert forall|k: int| 0 <= k < hosts.len() implies exists|j: int|
                                0 <= j < i + 1 && url_text(#[trigger] all[j]) is Some && url_host(
                                    all[j],
                                ) == Some((#[trigger] hosts@[k])@) by {
                                if k < before.len() {
                                    assert(hosts@[k] == before[k]);
                                } else {
                                    assert(url_host(all[i as int]) == Some(hosts@[k]@));
                                }
                            }
                        }
                    },
                    None => {},
                },
                None => {},
            }
            i = i + 1;
        }
        self.hosts = hosts;
        self.last_refreshed_at = Some(now);
        proof {
            let model = hosts_of(all);
            let texts = hosts.deep_view();
            assert forall|h: Seq<char>| #[trigger] texts.to_set().contains(h) <==> model.contains(
                h,
            ) by {
                if texts.contains(h) {
                    let k = choose|k: int| 0 <= k < texts.len() && texts[k] == h;
                    assert(hosts@[k]@ == h);
                }
                if model.contains(h) {
                    let j = choose|j: int|
                        0 <= j < all.len() && url_text(#[trigger] all[j]) is Some && url_host(
                            all[j],
                        ) == Some(h);
                    assert(texts.contains(url_host(all[j])->0));
                }
            }
            assert(self@.hosts =~= model);
        }
    }

    /// Whether `ip` is the host of a peer.
    pub fn contains(&self, ip: &str) -> (r: bool)
        ensures
            r == self@.hosts.contains(ip@),
    {
        let ghost all = self.hosts.deep_view();
        let mut i: usize = 0;
        while i < self.hosts.len()
            invariant
                i <= self.hosts.len(),
                all == self.hosts.deep_view(),
                forall|j: int| 0 <= j < i ==> #[trigger] all[j] != ip@,
            decreases self.hosts.len() - i,
        {
            assert(all[i as int] == self.hosts@[i as int]@);
            if same_text(self.hosts[i].as_str(), ip) {
                return true;
            }
            i = i + 1;
        }
        false
    }
}

// ---------------------------------------------------------------------------
// Keys
// ---------------------------------------------------------------------------

/// Whose requests are counted together.
pub enum RateLimitKey {
    /// Those of an address.
    Ip(String),
    /// Those of a peer.
    Peer(String),
}

impl RateLimitKey {
    /// The text under which the state of the key is stored.
    pub open spec fn key_text(self) -> Seq<char> {
        match self {
            RateLimitKey::Ip(s) => "ip:"@ + s@,
            RateLimitKey::Peer(s) => "peer:"@ + s@,
        }
    }

    /// The text under which the state of the key is stored.
    pub fn storage_key(&self) -> (r: String)
        ensures
            r@ == self.key_text(),
    {
        match self {
            RateLimitKey::Ip(s) => concat("ip:", s.as_str()),
            RateLimitKey::Peer(s) => concat("peer:", s.as_str()),
        }
    }
}

/// Two keys are stored under one text only where they are the same kind of key
/// for the same name: an address and a peer never share a window.
pub proof fn keys_never_collide(a: RateLimitKey, b: RateLimitKey)
    requires
        a.key_text() == b.key_text(),
    ensures
        match (a, b) {
            (RateLimitKey::Ip(x), RateLimitKey::Ip(y)) => x@ == y@,
            (RateLimitKey::Peer(x), RateLimitKey::Peer(y)) => x@ == y@,
            _ => false,
        },
{
    reveal_strlit("ip:");
    reveal_strlit("peer:");
    let s = a.key_text();
    let t = b.key_text();
    assert(s[0] == t[0]);
    match (a, b) {
        (RateLimitKey::Ip(x), RateLimitKey::Ip(y)) => {
            assert(s.skip(3) =~= x@);
            assert(t.skip(3) =~= y@);
        },
        (RateLimitKey::Peer(x), RateLimitKey::Peer(y)) => {
            assert(s.skip(5) =~= x@);
            assert(t.skip(5) =~= y@);
        },
        _ => {},
    }
}

// ---------------------------------------------------------------------------
// Configuration and state
// ---------------------------------------------------------------------------

/// How requests are limited.
#[derive(Debug, Clone)]
pub struct RateLimitConfig {
    /// The most requests within a window.
    pub limit: u32,
    /// The length of the window in seconds.
    pub window_seconds: i64,
    /// The waits for the first violation, the second, and so on, in seconds.
    pub cooloff_ladder: Vec<i64>,
    /// After how many seconds without a violation the count starts again.
    pub clean_period_seconds: i64,
}

impl Default for RateLimitConfig {
    fn default() -> (r: RateLimitConfig)
        ensures
            r.limit == 30,
            r.window_seconds == 60,
            r.cooloff_ladder@ == seq![60i64, 300, 3600],
            r.clean_period_seconds == 3600,
    {
        let cooloff_ladder: Vec<i64> = vec![60i64, 300, 3600];
        assert(cooloff_ladder@ =~= seq![60i64, 300, 3600]);
        RateLimitConfig { limit: 30, window_seconds: 60, cooloff_ladder, clean_period_seconds: 3600 }
    }
}

/// What becomes of a request.
#[derive(Debug, Clone, Copy, PartialEq, Eq, Structural)]
pub enum Decision {
    /// It may proceed.
    Allow,
    /// It is rejected; the client has to wait.
    Cooloff {
        /// How long, in seconds.
        seconds_remaining: i64,
    },
}

/// What is remembered of a client.
#[derive(Debug, Clone)]
pub struct RateLimitState {
    /// The times of its requests that were let through.
    pub request_log: Vec<i64>,
    /// Its violations so far.
    pub violations: i64,
    /// The time until which it has to wait.
    pub cooloff_until: i64,
    /// The time of its last violation; 0 where there was none.
    pub last_violation_at: i64,
}

/// The state of a client as numbers without bounds.
pub struct LimitModel {
    pub log: Seq<i64>,
    pub violations: int,
    pub cooloff_until: int,
    pub last_violation_at: int,
}

impl View for RateLimitState {
    type V = LimitModel;

    open spec fn view(&self) -> LimitModel {
        LimitModel {
            log: self.request_log@,
            violations: self.violations as int,
            cooloff_until: self.cooloff_until as int,
            last_violation_at: self.last_violation_at as int,
        }
    }
}

impl RateLimitState {
    /// A client of which nothing is remembered.
    pub fn new() -> (r: RateLimitState)
        ensures
            r@ == fresh_client(),
    {
        let r = RateLimitState {
            request_log: Vec::new(),
            violations: 0,
            cooloff_until: 0,
            last_violation_at: 0,
        };
        assert(r@.log =~= Seq::<i64>::empty());
        r
    }
}

/// A client of which nothing is remembered.
pub open spec fn fresh_client() -> LimitModel {
    LimitModel { log: Seq::empty(), violations: 0, cooloff_until: 0, last_violation_at: 0 }
}

// ---------------------------------------------------------------------------
// Storage of the log
// ---------------------------------------------------------------------------

/// The times that a JSON text lists; `None` where it is not a list of whole
/// numbers.
pub uninterp spec fn json_times(json: Seq<char>) -> Option<Seq<i64>>;

/// `serde_json::from_str` to a list of `i64`.
#[verifier::external_body]
fn parse_times(json: &str) -> (r: Option<Vec<i64>>)
    ensures
        match r {
            Some(v) => json_times(json@) == Some(v@),
            None => json_times(json@) is None,
        },
{
    serde_json::from_str(json).ok()
}

/// A list of times as JSON: the numbers in brackets, with commas between.
pub open spec fn times_text(times: Seq<i64>) -> Seq<char> {
    "["@ + joined(times.map_values(|t: i64| signed_decimal(t as int)), ","@) + "]"@
}

/// `serde_json::to_string` of a list of `i64`, which never fails. It writes
/// the numbers in decimal, in brackets and with commas between, and
/// `serde_json::from_str` reads the same list back.
#[verifier::external_body]
fn print_times(times: &Vec<i64>) -> (r: String)
    ensures
        r@ == times_text(times@),
        json_times(r@) == Some(times@),
{
    serde_json::to_string(times).unwrap_or_default()
}

/// The log that a stored text holds; an empty one where it cannot be read.
pub fn decode_log(json: &str) -> (r: Vec<i64>)
    ensures
        r@ == (match json_times(json@) {
            Some(t) => t,
            None => Seq::empty(),
        }),
{
    match parse_times(json) {
        Some(v) => v,
        None => {
            let r: Vec<i64> = Vec::new();
            assert(r@ =~= Seq::<i64>::empty());
            r
        },
    }
}

/// The text under which a log is stored: reading it back gives the log.
pub fn encode_log(log: &Vec<i64>) -> (r: String)
    ensures
        r@ == times_text(log@),
        json_times(r@) == Some(log@),
{
    print_times(log)
}

// ---------------------------------------------------------------------------
// The rule
// ---------------------------------------------------------------------------

/// A configuration that the limiter can work with.
pub open spec fn config_valid(cfg: RateLimitConfig) -> bool {
    cfg.cooloff_ladder.len() > 0 && cfg.limit * 2 <= u32::MAX
}

/// The violations that still count at `now`: none after a clean period, once
/// the wait is over.
pub open spec fn counted_violations(s: LimitModel, now: int, cfg: RateLimitConfig) -> int {
    if s.last_violation_at > 0 && now - s.last_violation_at > cfg.clean_period_seconds
        && s.cooloff_until <= now {
        0
    } else {
        s.violations
    }
}

/// The requests that still fall in the window at `now`.
pub open spec fn in_window(log: Seq<i64>, now: int, cfg: RateLimitConfig) -> Seq<i64> {
    log.filter(|t: i64| t > now - cfg.window_seconds)
}

/// The wait for one more violation after `violations`: further violations
/// climb the ladder, whose last rung is for all that follow.
pub open spec fn cooloff(violations: int, ladder: Seq<i64>) -> i64 {
    if 0 <= violations < ladder.len() {
        ladder[violations]
    } else {
        ladder.last()
    }
}

/// The last `cap` entries of a log.
pub open spec fn capped_log(log: Seq<i64>, cap: nat) -> Seq<i64> {
    if log.len() > cap {
        log.skip(log.len() - cap)
    } else {
        log
    }
}

/// The decision on a request at `now`, and the state after it. A client that
/// has to wait is rejected. A client whose window is full has committed a
/// violation and has to wait. Any other request is let through and logged.
pub open spec fn limit_step(s: LimitModel, now: i64, cfg: RateLimitConfig) -> (
    Decision,
    LimitModel,
) {
    let violations = counted_violations(s, now as int, cfg);
    if s.cooloff_until > now {
        (
            Decision::Cooloff { seconds_remaining: (s.cooloff_until - now) as i64 },
            LimitModel { violations, ..s },
        )
    } else {
        let log = in_window(s.log, now as int, cfg);
        if log.len() >= cfg.limit {
            let wait = cooloff(violations, cfg.cooloff_ladder@);
            (
                Decision::Cooloff { seconds_remaining: wait },
                LimitModel {
                    log,
                    violations: violations + 1,
                    cooloff_until: now + wait,
                    last_violation_at: now as int,
                },
            )
        } else {
            (
                Decision::Allow,
                LimitModel {
                    log: capped_log(log.push(now), (cfg.limit * 2) as nat),
                    violations,
                    ..s
                },
            )
        }
    }
}

/// The numbers of a step fit the machine.
pub open spec fn step_fits(s: LimitModel, now: i64, cfg: RateLimitConfig) -> bool {
    &&& s.violations < i64::MAX
    &&& s.cooloff_until - now <= i64::MAX
    &&& forall|i: int|
        0 <= i < cfg.cooloff_ladder.len() ==> i64::MIN <= now + #[trigger] cfg.cooloff_ladder@[i]
            <= i64::MAX
}

fn prune(log: &Vec<i64>, now: i64, cfg: &RateLimitConfig) -> (r: Vec<i64>)
    ensures
        r@ == in_window(log@, now as int, *cfg),
{
    let ghost recent = |t: i64| t > now - cfg.window_seconds;
    let mut r: Vec<i64> = Vec::new();
    let mut i: usize = 0;
    let start: i128 = now as i128 - cfg.window_seconds as i128;
    assert(log@.take(0) =~= Seq::<i64>::empty());
    assert(r@ =~= log@.take(0).filter(recent)) by {
        log@.take(0).lemma_filter_len(recent);
    }
    while i < log.len()
        invariant
            i <= log.len(),
            recent == (|t: i64| t > now - cfg.window_seconds),
            start == now - cfg.window_seconds,
            r@ == log@.take(i as int).filter(recent),
        decreases log.len() - i,
    {
        proof {
            assert(log@.take(i + 1) =~= log@.take(i as int).push(log@[i as int]));
            log@.take(i as int).lemma_filter_push(log@[i as int], recent);
        }
        if log[i] as i128 > start {
            r.push(log[i]);
        }
        i = i + 1;
    }
    assert(log@.take(log@.len() as int) =~= log@);
    r
}

/// Decides on a request of the client whose state is `state`, and brings the
/// state up to date.
pub fn check_and_record_key(state: &mut RateLimitState, now: i64, cfg: &RateLimitConfig) -> (r:
    Decision)
    requires
        config_valid(*cfg),
        step_fits(old(state)@, now, *cfg),
    ensures
        r == limit_step(old(state)@, now, *cfg).0,
        final(state)@ == limit_step(old(state)@, now, *cfg).1,
{
    let ghost before = state@;
    if state.last_violation_at > 0 && now as i128 - state.last_violation_at as i128
        > cfg.clean_period_seconds as i128 && state.cooloff_until <= now {
        state.violations = 0;
    }
    if state.cooloff_until > now {
        let seconds_remaining: i64 = state.cooloff_until - now;
        return Decision::Cooloff { seconds_remaining };
    }
    let mut log = prune(&state.request_log, now, cfg);
    if log.len() >= cfg.limit as usize {
        let rungs: usize = cfg.cooloff_ladder.len();
        let rung: usize = if state.violations >= 0 && (state.violations as u64) < rungs as u64 {
            state.violations as usize
        } else {
            rungs - 1
        };
        let wait: i64 = cfg.cooloff_ladder[rung];
        assert(wait == cooloff(state.violations as int, cfg.cooloff_ladder@));
        state.request_log = log;
        state.violations = state.violations + 1;
        state.cooloff_until = now + wait;
        state.last_violation_at = now;
        Decision::Cooloff { seconds_remaining: wait }
    } else {
        log.push(now);
        let cap: usize = (cfg.limit * 2) as usize;
        let ghost full = log@;
        if log.len() > cap {
            let excess: usize = log.len() - cap;
            log = log.split_off(excess);
            assert(log@ =~= full.skip(full.len() - cap));
        }
        state.request_log = log;
        Decision::Allow
    }
}

/// The bucket that a request falls in: peers have their own.
pub fn bucket<'a>(
    is_peer: bool,
    peers: &'a RateLimitConfig,
    others: &'a RateLimitConfig,
) -> (r: &'a RateLimitConfig)
    ensures
        r == if is_peer {
            peers
        } else {
            others
        },
{
    if is_peer {
        peers
    } else {
        others
    }
}

/// The answer to a request that is rejected; `None` where it may proceed.
pub fn rejection(decision: Decision) -> (r: Option<Reply>)
    ensures
        r.deep_view() == (match decision {
            Decision::Allow => None,
            Decision::Cooloff { seconds_remaining } => Some(
                ReplyModel {
                    status: 429,
                    body: "rate limited"@,
                    header: Some(
                        ("retry-after"@, signed_decimal(seconds_remaining as int)),
                    ),
                },
            ),
        }),
{
    match decision {
        Decision::Allow => None,
        Decision::Cooloff { seconds_remaining } => {
            let wait = crate::text::show_signed(seconds_remaining);
            Some(Reply::with_header(429, "rate limited", "retry-after", wait.as_str()))
        },
    }
}

// ---------------------------------------------------------------------------
// Laws
// ---------------------------------------------------------------------------

/// What holds of the state of every client: no more requests are logged than
/// twice the limit.
pub open spec fn state_valid(s: LimitModel, cfg: RateLimitConfig) -> bool {
    s.log.len() <= cfg.limit * 2 && s.violations >= 0
}

/// Every step keeps the state valid.
pub proof fn steps_keep_states_valid(s: LimitModel, now: i64, cfg: RateLimitConfig)
    requires
        state_valid(s, cfg),
    ensures
        state_valid(limit_step(s, now, cfg).1, cfg),
{
    s.log.lemma_filter_len(|t: i64| t > now - cfg.window_seconds);
}

/// The number of requests that were let through in the window that ends at
/// `now`, as far as they are logged.
pub open spec fn recent_requests(s: LimitModel, now: int, cfg: RateLimitConfig) -> nat {
    in_window(s.log, now, cfg).len()
}

/// A request is let through only where the window holds fewer requests than
/// the limit, and no wait is running.
pub proof fn the_limit_holds(s: LimitModel, now: i64, cfg: RateLimitConfig)
    ensures
        limit_step(s, now, cfg).0 is Allow <==> s.cooloff_until <= now && recent_requests(
            s,
            now as int,
            cfg,
        ) < cfg.limit,
{
}

/// A client that has to wait is rejected until the wait is over, and being
/// rejected does not lengthen the wait.
pub proof fn waiting_is_not_punished(s: LimitModel, now: i64, cfg: RateLimitConfig)
    requires
        s.cooloff_until > now,
        s.cooloff_until - now <= i64::MAX,
    ensures
        limit_step(s, now, cfg).0 == (Decision::Cooloff {
            seconds_remaining: (s.cooloff_until - now) as i64,
        }),
        limit_step(s, now, cfg).1.cooloff_until == s.cooloff_until,
        limit_step(s, now, cfg).1.log == s.log,
{
}

/// On a ladder that never goes down, a further violation never means a shorter
/// wait.
pub proof fn waits_escalate(a: int, b: int, ladder: Seq<i64>)
    requires
        0 <= a <= b,
        ladder.len() > 0,
        forall|i: int, j: int| 0 <= i <= j < ladder.len() ==> ladder[i] <= ladder[j],
    ensures
        cooloff(a, ladder) <= cooloff(b, ladder),
{
    assert(ladder.last() == ladder[ladder.len() - 1]);
}

/// After a violation the client has to wait for the rung it reached, and has
/// one more violation to its name.
pub proof fn violations_climb_the_ladder(s: LimitModel, now: i64, cfg: RateLimitConfig)
    requires
        s.cooloff_until <= now,
        recent_requests(s, now as int, cfg) >= cfg.limit,
    ensures
        ({
            let v = counted_violations(s, now as int, cfg);
            let r = limit_step(s, now, cfg);
            &&& r.1.violations == v + 1
            &&& r.1.cooloff_until == now + cooloff(v, cfg.cooloff_ladder@)
            &&& r.1.last_violation_at == now
        }),
{
}

/// A clean period forgets the violations.
pub proof fn clean_periods_reset(s: LimitModel, now: i64, cfg: RateLimitConfig)
    requires
        s.last_violation_at > 0,
        now - s.last_violation_at > cfg.clean_period_seconds,
        s.cooloff_until <= now,
        recent_requests(s, now as int, cfg) < cfg.limit,
    ensures
        limit_step(s, now, cfg).0 is Allow,
        limit_step(s, now, cfg).1.violations == 0,
{
}

/// Every logged request that falls out of the window stops counting: with an
/// old log a client that need not wait is let through.
pub proof fn old_requests_do_not_count(s: LimitModel, now: i64, cfg: RateLimitConfig)
    requires
        cfg.limit > 0,
        s.cooloff_until <= now,
        forall|i: int| 0 <= i < s.log.len() ==> #[trigger] s.log[i] <= now - cfg.window_seconds,
    ensures
        limit_step(s, now, cfg).0 is Allow,
{
    let recent = |t: i64| t > now - cfg.window_seconds;
    s.log.lemma_all_neg_filter_empty(recent);
}

/// The state of a client after requests at the given times.
pub open spec fn state_after(s: LimitModel, times: Seq<i64>, cfg: RateLimitConfig) -> LimitModel
    decreases times.len(),
{
    if times.len() == 0 {
        s
    } else {
        limit_step(state_after(s, times.drop_last(), cfg), times.last(), cfg).1
    }
}

/// The times of those requests that are let through.
pub open spec fn let_through(s: LimitModel, times: Seq<i64>, cfg: RateLimitConfig) -> Seq<i64>
    decreases times.len(),
{
    if times.len() == 0 {
        Seq::empty()
    } else {
        let front = times.drop_last();
        if limit_step(state_after(s, front, cfg), times.last(), cfg).0 is Allow {
            let_through(s, front, cfg).push(times.last())
        } else {
            let_through(s, front, cfg)
        }
    }
}

/// Time does not go back.
pub open spec fn in_time(times: Seq<i64>) -> bool {
    forall|i: int, j: int| 0 <= i <= j < times.len() ==> times[i] <= times[j]
}

proof fn lemma_narrower_window(log: Seq<i64>, now: int, later: int, cfg: RateLimitConfig)
    requires
        now <= later,
    ensures
        in_window(in_window(log, now, cfg), later, cfg) == in_window(log, later, cfg),
        in_window(log, later, cfg).len() <= in_window(log, now, cfg).len(),
    decreases log.len(),
{
    let wide = |t: i64| t > now - cfg.window_seconds;
    let narrow = |t: i64| t > later - cfg.window_seconds;
    if log.len() == 0 {
        log.lemma_filter_len(wide);
        log.lemma_filter_len(narrow);
        assert(log.filter(wide) =~= log);
        assert(log.filter(narrow) =~= log);
    } else {
        let front = log.drop_last();
        lemma_narrower_window(front, now, later, cfg);
        assert(log =~= front.push(log.last()));
        front.lemma_filter_push(log.last(), wide);
        front.lemma_filter_push(log.last(), narrow);
        front.filter(wide).lemma_filter_push(log.last(), narrow);
    }
}

proof fn lemma_log_holds_what_was_let_through(
    s: LimitModel,
    times: Seq<i64>,
    cfg: RateLimitConfig,
    later: int,
)
    requires
        s.log.len() == 0,
        in_time(times),
        times.len() > 0 ==> times.last() <= later,
    ensures
        in_window(state_after(s, times, cfg).log, later, cfg) == in_window(
            let_through(s, times, cfg),
            later,
            cfg,
        ),
        in_window(let_through(s, times, cfg), later, cfg).len() <= cfg.limit,
    decreases times.len(),
{
    let recent = |t: i64| t > later - cfg.window_seconds;
    if times.len() == 0 {
        s.log.lemma_filter_len(recent);
        assert(s.log =~= Seq::<i64>::empty());
    } else {
        let front = times.drop_last();
        let now = times.last();
        let before = state_after(s, front, cfg);
        let passed = let_through(s, front, cfg);
        assert(in_time(front));
        assert(front.len() > 0 ==> front.last() <= now) by {
            if front.len() > 0 {
                assert(times[front.len() - 1] <= times[front.len() as int]);
            }
        }
        lemma_log_holds_what_was_let_through(s, front, cfg, later);
        lemma_log_holds_what_was_let_through(s, front, cfg, now as int);
        lemma_narrower_window(before.log, now as int, later, cfg);
        lemma_narrower_window(passed, now as int, later, cfg);
        if limit_step(before, now, cfg).0 is Allow {
            let log = in_window(before.log, now as int, cfg);
            assert(capped_log(log.push(now), (cfg.limit * 2) as nat) == log.push(now));
            log.lemma_filter_push(now, recent);
            passed.lemma_filter_push(now, recent);
        }
    }
}

/// The promise of the limiter: as long as time does not go back, whenever a
/// request of a client has been decided on, no more of its requests than the
/// limit were let through in the window that ends there.
pub proof fn no_window_is_overfull(s: LimitModel, times: Seq<i64>, cfg: RateLimitConfig)
    requires
        s.log.len() == 0,
        in_time(times),
        times.len() > 0,
    ensures
        in_window(let_through(s, times, cfg), times.last() as int, cfg).len() <= cfg.limit,
{
    lemma_log_holds_what_was_let_through(s, times, cfg, times.last() as int);
}

/// A logged request counts exactly as long as it is younger than the window;
/// what counts of two logs is what counts of the first and of the second.
pub proof fn requests_count_while_they_are_young(
    t: i64,
    a: Seq<i64>,
    b: Seq<i64>,
    now: int,
    cfg: RateLimitConfig,
)
    ensures
        in_window(seq![t], now, cfg) == (if now - t < cfg.window_seconds {
            seq![t]
        } else {
            Seq::empty()
        }),
        in_window(a + b, now, cfg) == in_window(a, now, cfg) + in_window(b, now, cfg),
        in_window(Seq::empty(), now, cfg).len() == 0,
{
    let recent = |t: i64| t > now - cfg.window_seconds;
    let none = Seq::<i64>::empty();
    none.lemma_filter_len(recent);
    none.lemma_filter_push(t, recent);
    assert(none.push(t) =~= seq![t]);
    assert(none.filter(recent) =~= none);
    assert(none.filter(recent).push(t) =~= seq![t]);
    Seq::filter_distributes_over_add(a, b, recent);
}

/// A request that is let through is logged behind those of the window, and is
/// not held against the client.
pub proof fn requests_that_pass_are_logged(s: LimitModel, now: i64, cfg: RateLimitConfig)
    requires
        limit_step(s, now, cfg).0 is Allow,
    ensures
        ({
            let r = limit_step(s, now, cfg).1;
            &&& r.log == in_window(s.log, now as int, cfg).push(now)
            &&& r.cooloff_until == s.cooloff_until
            &&& r.last_violation_at == s.last_violation_at
            &&& r.violations <= s.violations || s.violations < 0
        }),
{
}

/// A client whose window is full has to wait for the rung of its violations, and
/// is told how long; the requests in its window stay logged.
pub proof fn full_windows_mean_a_wait(s: LimitModel, now: i64, cfg: RateLimitConfig)
    requires
        s.cooloff_until <= now,
        in_window(s.log, now as int, cfg).len() >= cfg.limit,
    ensures
        ({
            let v = counted_violations(s, now as int, cfg);
            let r = limit_step(s, now, cfg);
            &&& r.0 == (Decision::Cooloff { seconds_remaining: cooloff(v, cfg.cooloff_ladder@) })
            &&& r.1.log == in_window(s.log, now as int, cfg)
            &&& r.1.cooloff_until == now + cooloff(v, cfg.cooloff_ladder@)
        }),
{
}

/// The first violation means the first wait of the ladder, the next the second,
/// and so on; from the last on it is always the last.
pub proof fn each_violation_has_its_rung(violations: int, ladder: Seq<i64>)
    requires
        ladder.len() > 0,
        violations >= 0,
    ensures
        violations < ladder.len() ==> cooloff(violations, ladder) == ladder[violations],
        violations >= ladder.len() ==> cooloff(violations, ladder) == ladder[ladder.len() - 1],
{
}

/// Violations are forgotten after a clean period without a wait, and not before.
pub proof fn violations_are_remembered(s: LimitModel, now: int, cfg: RateLimitConfig)
    ensures
        s.last_violation_at > 0 && now - s.last_violation_at > cfg.clean_period_seconds
            && s.cooloff_until <= now ==> counted_violations(s, now, cfg) == 0,
        now - s.last_violation_at <= cfg.clean_period_seconds ==> counted_violations(s, now, cfg)
            == s.violations,
        s.cooloff_until > now ==> counted_violations(s, now, cfg) == s.violations,
{
}

/// A client without requests in its window and without a wait is let through as
/// often as the limit says.
pub proof fn clients_may_use_the_limit(s: LimitModel, now: i64, cfg: RateLimitConfig)
    requires
        s.cooloff_until <= now,
        s.log.len() < cfg.limit,
    ensures
        limit_step(s, now, cfg).0 is Allow,
{
    s.log.lemma_filter_len(|t: i64| t > now - cfg.window_seconds);
}

/// The hosts of peers are those of their URLs, all of them and no others.
pub proof fn every_peer_host_is_known(urls: Seq<Seq<char>>, i: int, host: Seq<char>)
    ensures
        0 <= i < urls.len() && url_text(urls[i]) is Some && url_host(urls[i]) == Some(host)
            ==> hosts_of(urls).contains(host),
        hosts_of(urls).contains(host) ==> exists|k: int|
            0 <= k < urls.len() && url_text(#[trigger] urls[k]) is Some && url_host(urls[k])
                == Some(host),
{
}

/// A log is stored as its numbers in brackets, with commas between.
pub proof fn logs_are_stored_whole(a: Seq<i64>, b: Seq<i64>, t: i64)
    requires
        a.len() > 0,
        b.len() > 0,
    ensures
        times_text(seq![t]) == "["@ + signed_decimal(t as int) + "]"@,
        ({
            let inner = |s: Seq<i64>| joined(s.map_values(|t: i64| signed_decimal(t as int)), ","@);
            times_text(a + b) == "["@ + (inner(a) + ","@ + inner(b)) + "]"@
        }),
{
    let f = |t: i64| signed_decimal(t as int);
    assert((a + b).map_values(f) =~= a.map_values(f) + b.map_values(f));
    parts_are_joined_in_order(a.map_values(f), b.map_values(f), ","@);
    assert(seq![t].map_values(f) =~= seq![signed_decimal(t as int)]);
}

/// While a client has to wait nothing is forgotten or held against it.
pub proof fn waits_change_nothing(s: LimitModel, now: i64, cfg: RateLimitConfig)
    requires
        s.cooloff_until > now,
    ensures
        limit_step(s, now, cfg).1 == s,
        PEER_IP_CACHE_TTL_MS == 300_000,
{
}

/// Keys are stored under their sort and their name.
pub proof fn keys_are_stored_by_sort(key: RateLimitKey)
    ensures
        match key {
            RateLimitKey::Ip(s) => key.key_text() == "ip:"@ + s@,
            RateLimitKey::Peer(s) => key.key_text() == "peer:"@ + s@,
        },
{
}

/// A client of which nothing is known has no requests, no violations and no wait.
pub proof fn new_clients_are_clean()
    ensures
        fresh_client().log.len() == 0,
        fresh_client().violations == 0,
        fresh_client().cooloff_until == 0,
        fresh_client().last_violation_at == 0,
{
}

} // verus!
