//! Robots rules: what a site allows, how long it asks to wait, and which
//! sitemaps it names.

use texting_robots::Robot;
use vstd::prelude::*;
use crate::crawler::error::{CrawlError, CrawlResult};
use crate::crawler::fetcher::{is_success, success};
use crate::crawler::url_parts::{
    parse_url, read_url_error, url_error, url_host, url_port, url_scheme, url_text,
};
use crate::text::{decimal, show_unsigned};
use crate::time::{seconds, Duration};

verus! {

// ---------------------------------------------------------------------------
// Reading robots.txt
// ---------------------------------------------------------------------------

/// Whether the rules in `body` allow `url` to `agent`; `None` where the rules
/// cannot be read.
pub uninterp spec fn robots_verdict(
    agent: Seq<char>,
    body: Seq<u8>,
    url: Seq<char>,
) -> Option<bool>;

/// The wait between requests that the rules in `body` ask of `agent`: seconds,
/// as the bits of a single-precision number. `None` where they ask for none or
/// cannot be read.
pub uninterp spec fn robots_delay_bits(agent: Seq<char>, body: Seq<u8>) -> Option<u32>;

/// The sitemaps that the rules in `body` name; `None` where they cannot be
/// read.
pub uninterp spec fn robots_sitemaps(agent: Seq<char>, body: Seq<u8>) -> Option<Seq<Seq<char>>>;

/// `texting_robots::Robot::new` and `Robot::allowed`.
#[verifier::external_body]
fn read_verdict(agent: &str, body: &Vec<u8>, url: &str) -> (r: Option<bool>)
    ensures
        r == robots_verdict(agent@, body@, url@),
{
    Some(Robot::new(agent, body).ok()?.allowed(url))
}

/// `texting_robots::Robot::new` and the bits of its field `delay`, which holds
/// seconds as a single-precision number.
#[verifier::external_body]
fn read_delay(agent: &str, body: &Vec<u8>) -> (r: Option<u32>)
    ensures
        r == robots_delay_bits(agent@, body@),
{
    Some(Robot::new(agent, body).ok()?.delay?.to_bits())
}

/// `texting_robots::Robot::new` and its field `sitemaps`.
#[verifier::external_body]
fn read_sitemaps(agent: &str, body: &Vec<u8>) -> (r: Option<Vec<String>>)
    ensures
        r.deep_view() == robots_sitemaps(agent@, body@),
{
    Some(Robot::new(agent, body).ok()?.sitemaps)
}

// ---------------------------------------------------------------------------
// Whole seconds
// ---------------------------------------------------------------------------

/// `2` to the power of `n`.
pub open spec fn two_to(n: nat) -> nat
    decreases n,
{
    if n == 0 {
        1
    } else {
        2 * two_to((n - 1) as nat)
    }
}

/// The bits of a single-precision number below the sign: the exponent.
pub open spec fn exponent_of(bits: u32) -> nat {
    ((bits / 0x80_0000) % 0x100) as nat
}

/// The significant digits of a finite single-precision number, as a whole
/// number: the number is this times two to the power of the larger of the
/// exponent and 1, less 150.
pub open spec fn significand_of(bits: u32) -> nat {
    let fraction = (bits % 0x80_0000) as nat;
    if exponent_of(bits) == 0 {
        fraction
    } else {
        fraction + 0x80_0000
    }
}

/// The whole number nearest to a non-negative finite single-precision number;
/// the larger one where two are equally near.
pub open spec fn nearest_whole(bits: u32) -> nat {
    let e = exponent_of(bits);
    let m = significand_of(bits);
    if e >= 150 {
        m * two_to((e - 150) as nat)
    } else {
        let unit = two_to((150 - if e == 0 {
            1
        } else {
            e as int
        }) as nat);
        (2 * m + unit) / (2 * unit)
    }
}

/// The whole seconds for the bits of a single-precision number of seconds: the
/// nearest whole number as far as the type holds it. Negative numbers and what
/// is no number count as zero, and infinity as the largest number.
pub open spec fn whole_seconds(bits: u32) -> u64 {
    if bits >= 0x8000_0000 || bits > 0x7f80_0000 {
        0
    } else if bits == 0x7f80_0000 || nearest_whole(bits) > u64::MAX {
        u64::MAX
    } else {
        nearest_whole(bits) as u64
    }
}

proof fn lemma_two_to_grows(a: nat, b: nat)
    requires
        a <= b,
    ensures
        1 <= two_to(a) <= two_to(b),
    decreases b,
{
    if a < b {
        lemma_two_to_grows(a, (b - 1) as nat);
    } else if a > 0 {
        lemma_two_to_grows((a - 1) as nat, (a - 1) as nat);
    }
}

proof fn lemma_some_powers()
    ensures
        two_to(25) == 0x200_0000,
        two_to(26) == 0x400_0000,
        two_to(40) == 0x100_0000_0000,
        two_to(41) == 0x200_0000_0000,
{
    reveal_with_fuel(two_to, 42);
}

fn power_of_two(n: u32) -> (r: u64)
    requires
        n <= 41,
    ensures
        r == two_to(n as nat),
        1 <= r <= 0x200_0000_0000,
{
    let mut r: u64 = 1;
    let mut i: u32 = 0;
    proof {
        lemma_some_powers();
    }
    while i < n
        invariant
            i <= n <= 41,
            r == two_to(i as nat),
            two_to(41) == 0x200_0000_0000,
        decreases n - i,
    {
        proof {
            lemma_two_to_grows((i + 1) as nat, 41);
        }
        r = r * 2;
        i = i + 1;
    }
    proof {
        lemma_two_to_grows(n as nat, 41);
    }
    r
}

/// Rounds a number of seconds, given by the bits of a single-precision number,
/// to whole seconds.
#[verifier::spinoff_prover]
#[verifier::rlimit(60)]
pub fn round_seconds(bits: u32) -> (r: u64)
    ensures
        r == whole_seconds(bits),
{
    if bits >= 0x8000_0000 || bits > 0x7f80_0000 {
        return 0;
    }
    if bits == 0x7f80_0000 {
        return 18_446_744_073_709_551_615;
    }
    let e: u32 = (bits / 0x80_0000) % 0x100;
    let fraction: u32 = bits % 0x80_0000;
    let m: u64 = if e == 0 {
        fraction as u64
    } else {
        fraction as u64 + 0x80_0000
    };
    proof {
        lemma_some_powers();
    }
    assert(m == significand_of(bits) && e == exponent_of(bits));
    assert(m < 0x100_0000);
    if e >= 191 {
        proof {
            lemma_two_to_grows(41, (e - 150) as nat);
            let unit = two_to((e - 150) as nat);
            assert(m * unit >= 0x80_0000 * 0x200_0000_0000) by (nonlinear_arith)
                requires
                    m >= 0x80_0000,
                    unit >= 0x200_0000_0000,
            ;
        }
        return 18_446_744_073_709_551_615;
    }
    if e >= 150 {
        let unit: u64 = power_of_two(e - 150);
        proof {
            lemma_two_to_grows((e - 150) as nat, 40);
            assert(m * unit <= 0xff_ffff * 0x100_0000_0000) by (nonlinear_arith)
                requires
                    m <= 0xff_ffff,
                    unit <= 0x100_0000_0000,
            ;
        }
        return m * unit;
    }
    let k: u32 = if e == 0 {
        149
    } else {
        150 - e
    };
    if k > 25 {
        proof {
            lemma_two_to_grows(26, k as nat);
            let unit = two_to(k as nat);
            let digits = m as nat;
            assert((2 * digits + unit) / (2 * unit) == 0) by (nonlinear_arith)
                requires
                    digits < 0x100_0000,
                    unit >= 0x400_0000,
            ;
        }
        return 0;
    }
    let unit: u64 = power_of_two(k);
    proof {
        lemma_two_to_grows(k as nat, 25);
        assert((2 * m + unit) / (2 * unit) <= 2 * m + unit) by (nonlinear_arith)
            requires
                unit >= 1,
        ;
    }
    (2 * m + unit) / (2 * unit)
}

/// Rounding misses a number by half a second at most: of a number with a
/// fraction, taken as whole numbers of the same small unit, the rounded one
/// lies within half of what makes a second.
pub proof fn rounding_misses_by_half_at_most(bits: u32)
    requires
        bits < 0x7f80_0000,
        exponent_of(bits) < 150,
    ensures
        ({
            let e = exponent_of(bits);
            let unit = two_to((150 - if e == 0 {
                1
            } else {
                e as int
            }) as nat);
            let r = nearest_whole(bits);
            &&& 2 * (r * unit) <= 2 * significand_of(bits) + unit
            &&& 2 * significand_of(bits) + unit < 2 * (r * unit) + 2 * unit
        }),
{
    let e = exponent_of(bits);
    let unit = two_to((150 - if e == 0 {
        1
    } else {
        e as int
    }) as nat);
    lemma_two_to_grows(0, (150 - if e == 0 {
        1
    } else {
        e as int
    }) as nat);
    let x = 2 * significand_of(bits) + unit;
    let r = x / (2 * unit);
    assert(r * (2 * unit) <= x < r * (2 * unit) + 2 * unit) by (nonlinear_arith)
        requires
            r == x / (2 * unit),
            unit >= 1,
    ;
    assert(r * (2 * unit) == 2 * (r * unit)) by (nonlinear_arith);
}

// ---------------------------------------------------------------------------
// Origins
// ---------------------------------------------------------------------------

/// The port as it stands behind a host.
pub open spec fn port_text(port: Option<u16>) -> Seq<char> {
    match port {
        Some(p) => seq![':'] + decimal(p as nat),
        None => Seq::empty(),
    }
}

/// Scheme, host and port of `url`, where it is a URL with a host.
pub open spec fn url_origin(url: Seq<char>) -> Option<Seq<char>> {
    match (url_text(url), url_host(url)) {
        (Some(_), Some(host)) => Some(
            url_scheme(url) + "://"@ + host + port_text(url_port(url)),
        ),
        _ => None,
    }
}

/// `e` says why `url` has no origin: it is not a URL, or it has no host.
pub open spec fn is_origin_error(url: Seq<char>, e: CrawlError) -> bool {
    match e {
        CrawlError::UrlParse(m) => url_text(url) is None && m@ == url_error(url),
        CrawlError::Other(m) => url_text(url) is Some && url_host(url) is None && m@
            == "URL has no host"@,
        _ => false,
    }
}

/// The origin of `url`. An error where it is not a URL or has no host.
pub fn origin_of(url: &str) -> (r: CrawlResult<String>)
    ensures
        match r {
            Ok(o) => url_origin(url@) == Some(o@),
            Err(e) => is_origin_error(url@, e),
        },
{
    match parse_url(url) {
        None => Err(CrawlError::UrlParse(read_url_error(url))),
        Some(u) => match u.host {
            None => Err(CrawlError::Other("URL has no host".to_owned())),
            Some(host) => {
                let mut r: String = u.scheme;
                r.push_str("://");
                r.push_str(host.as_str());
                match u.port {
                    Some(p) => {
                        let digits = show_unsigned(p as u64);
                        r.push(':');
                        r.push_str(digits.as_str());
                    },
                    None => {},
                }
                assert(r@ =~= url_scheme(url@) + "://"@ + host@ + port_text(url_port(url@)));
                Ok(r)
            },
        },
    }
}

// ---------------------------------------------------------------------------
// The checker
// ---------------------------------------------------------------------------

/// The rules of one origin: the body of its robots.txt, where it has one.
struct OriginRules {
    origin: String,
    body: Option<Vec<u8>>,
}

/// Remembers the robots rules of every origin that was asked for, so that each
/// is fetched once.
pub struct RobotsChecker {
    user_agent: String,
    cache: Vec<OriginRules>,
}

/// A robots.txt that has to be fetched first.
#[derive(Debug)]
pub struct RobotsFetch {
    pub origin: String,
    pub robots_url: String,
}

/// A checker as its contracts speak of it.
pub struct RobotsModel {
    pub user_agent: Seq<char>,
    /// For each origin that was fetched, the rules it has.
    pub rules: Map<Seq<char>, Option<Seq<u8>>>,
}

impl RobotsModel {
    /// The rules that apply to `url`, where its origin has any.
    pub open spec fn rules_for(self, url: Seq<char>) -> Option<Seq<u8>> {
        let origin = url_origin(url)->0;
        if self.rules.dom().contains(origin) {
            self.rules[origin]
        } else {
            None
        }
    }

    /// `url` may be fetched. Without readable rules everything may.
    pub open spec fn allows(self, url: Seq<char>) -> bool {
        match self.rules_for(url) {
            Some(body) => match robots_verdict(self.user_agent, body, url) {
                Some(v) => v,
                None => true,
            },
            None => true,
        }
    }

    /// The wait that the site of `url` asks for, in seconds.
    pub open spec fn delay_secs(self, url: Seq<char>) -> Option<u64> {
        match self.rules_for(url) {
            Some(body) => match robots_delay_bits(self.user_agent, body) {
                Some(bits) => Some(whole_seconds(bits)),
                None => None,
            },
            None => None,
        }
    }

    /// The sitemaps that the site of `url` names.
    pub open spec fn sitemaps(self, url: Seq<char>) -> Seq<Seq<char>> {
        match self.rules_for(url) {
            Some(body) => match robots_sitemaps(self.user_agent, body) {
                Some(s) => s,
                None => Seq::empty(),
            },
            None => Seq::empty(),
        }
    }

    /// The checker after the robots.txt of `origin` was asked for.
    pub open spec fn with_rules(self, origin: Seq<char>, body: Option<Seq<u8>>) -> RobotsModel {
        RobotsModel { rules: self.rules.insert(origin, body), ..self }
    }
}

spec fn cached_origin(cache: Seq<OriginRules>, origin: Seq<char>) -> bool {
    exists|i: int| 0 <= i < cache.len() && (#[trigger] cache[i]).origin@ == origin
}

spec fn body_view(body: Option<Vec<u8>>) -> Option<Seq<u8>> {
    match body {
        Some(b) => Some(b@),
        None => None,
    }
}

spec fn cached_rules(cache: Seq<OriginRules>, origin: Seq<char>) -> Option<Seq<u8>> {
    let i = choose|i: int| 0 <= i < cache.len() && (#[trigger] cache[i]).origin@ == origin;
    body_view(cache[i].body)
}

impl View for RobotsChecker {
    type V = RobotsModel;

    closed spec fn view(&self) -> RobotsModel {
        RobotsModel {
            user_agent: self.user_agent@,
            rules: Map::new(
                |o: Seq<char>| cached_origin(self.cache@, o),
                |o: Seq<char>| cached_rules(self.cache@, o),
            ),
        }
    }
}

impl RobotsChecker {
    /// No origin is remembered twice.
    pub closed spec fn valid(&self) -> bool {
        forall|i: int, j: int|
            0 <= i < j < self.cache.len() ==> (#[trigger] self.cache@[i]).origin@ != (
            #[trigger] self.cache@[j]).origin@
    }

    pub fn new(user_agent: &str) -> (r: RobotsChecker)
        ensures
            r.valid(),
            r@ == (RobotsModel { user_agent: user_agent@, rules: Map::empty() }),
    {
        let r = RobotsChecker { user_agent: user_agent.to_owned(), cache: Vec::new() };
        assert(r@.rules =~= Map::empty());
        r
    }

    fn find(&self, origin: &str) -> (r: Option<usize>)
        requires
            self.valid(),
        ensures
            match r {
                Some(i) => i < self.cache.len() && self.cache@[i as int].origin@ == origin@
                    && self@.rules.dom().contains(origin@) && self@.rules[origin@] == body_view(
                    self.cache@[i as int].body,
                ),
                None => !self@.rules.dom().contains(origin@),
            },
    {
        let mut i: usize = 0;
        while i < self.cache.len()
            invariant
                i <= self.cache.len(),
                self.valid(),
                forall|j: int| 0 <= j < i ==> (#[trigger] self.cache@[j]).origin@ != origin@,
            decreases self.cache.len() - i,
        {
            if crate::text::same_text(self.cache[i].origin.as_str(), origin) {
                return Some(i);
            }
            i = i + 1;
        }
        None
    }

    /// The robots.txt to fetch before `url` can be judged; `None` where the
    /// rules of its origin are known. An error where `url` has no origin.
    pub fn missing_rules(&self, url: &str) -> (r: CrawlResult<Option<RobotsFetch>>)
        requires
            self.valid(),
        ensures
            match r {
                Ok(Some(f)) => url_origin(url@) == Some(f.origin@) && !self@.rules.dom().contains(
                    f.origin@,
                ) && f.robots_url@ == f.origin@ + "/robots.txt"@,
                Ok(None) => url_origin(url@) is Some && self@.rules.dom().contains(
                    url_origin(url@)->0,
                ),
                Err(e) => is_origin_error(url@, e),
            },
    {
        match origin_of(url) {
            Err(e) => Err(e),
            Ok(origin) => match self.find(origin.as_str()) {
                Some(_) => Ok(None),
                None => {
                    let robots_url = crate::text::concat(origin.as_str(), "/robots.txt");
                    Ok(Some(RobotsFetch { origin, robots_url }))
                },
            },
        }
    }

    /// Takes in the answer to the request for an origin's robots.txt: its
    /// status and body, or nothing where the request failed. Anything but a
    /// success means that the origin has no rules.
    pub fn store(&mut self, origin: String, answer: Option<(u16, Vec<u8>)>)
        requires
            old(self).valid(),
        ensures
            final(self).valid(),
            final(self)@ == old(self)@.with_rules(
                origin@,
                match answer {
                    Some(a) => if is_success(a.0) {
                        Some(a.1@)
                    } else {
                        None
                    },
                    None => None,
                },
            ),
    {
        let body = match answer {
            Some((status, bytes)) => if success(status) {
                Some(bytes)
            } else {
                None
            },
            None => None,
        };
        let ghost before = self@;
        let ghost o = origin@;
        let ghost b = body_view(body);
        let found = self.find(origin.as_str());
        let ghost start = self.cache@;
        let rules = OriginRules { origin, body };
        match found {
            Some(i) => {
                self.cache.set(i, rules);
                proof {
                    lemma_store(start, self.cache@, i as int, o, b);
                }
            },
            None => {
                self.cache.push(rules);
                proof {
                    lemma_store(start, self.cache@, start.len() as int, o, b);
                }
            },
        }
        assert(self@.rules =~= before.rules.insert(o, b));
    }

    fn rules_of(&self, url: &str) -> (r: CrawlResult<Option<&Vec<u8>>>)
        requires
            self.valid(),
        ensures
            match r {
                Ok(Some(b)) => url_origin(url@) is Some && self@.rules_for(url@) == Some(b@),
                Ok(None) => url_origin(url@) is Some && self@.rules_for(url@) is None,
                Err(e) => is_origin_error(url@, e),
            },
    {
        match origin_of(url) {
            Err(e) => Err(e),
            Ok(origin) => match self.find(origin.as_str()) {
                Some(i) => match &self.cache[i].body {
                    Some(b) => Ok(Some(b)),
                    None => Ok(None),
                },
                None => Ok(None),
            },
        }
    }

    /// Whether the rules of its origin allow `url`. Without rules, or with
    /// rules that cannot be read, everything is allowed. An error where `url`
    /// has no origin.
    pub fn is_allowed(&self, url: &str) -> (r: CrawlResult<bool>)
        requires
            self.valid(),
        ensures
            match r {
                Ok(v) => url_origin(url@) is Some && v == self@.allows(url@),
                Err(e) => is_origin_error(url@, e),
            },
    {
        match self.rules_of(url) {
            Err(e) => Err(e),
            Ok(None) => Ok(true),
            Ok(Some(body)) => match read_verdict(self.user_agent.as_str(), body, url) {
                Some(v) => Ok(v),
                None => Ok(true),
            },
        }
    }

    /// The wait that the site of `url` asks for between requests, if any. An
    /// error where `url` has no origin.
    pub fn crawl_delay_for(&self, url: &str) -> (r: CrawlResult<Option<Duration>>)
        requires
            self.valid(),
        ensures
            match r {
                Ok(Some(d)) => url_origin(url@) is Some && self@.delay_secs(url@) is Some && d@
                    == seconds(self@.delay_secs(url@)->0 as nat),
                Ok(None) => url_origin(url@) is Some && self@.delay_secs(url@) is None,
                Err(e) => is_origin_error(url@, e),
            },
    {
        match self.rules_of(url) {
            Err(e) => Err(e),
            Ok(None) => Ok(None),
            Ok(Some(body)) => match read_delay(self.user_agent.as_str(), body) {
                Some(bits) => Ok(Some(Duration::from_secs(round_seconds(bits)))),
                None => Ok(None),
            },
        }
    }

    /// The sitemaps that the site of `url` names. An error where `url` has no
    /// origin.
    pub fn sitemaps_for(&self, url: &str) -> (r: CrawlResult<Vec<String>>)
        requires
            self.valid(),
        ensures
            match r {
                Ok(s) => url_origin(url@) is Some && s.deep_view() == self@.sitemaps(url@),
                Err(e) => is_origin_error(url@, e),
            },
    {
        let none: Vec<String> = Vec::new();
        assert(none.deep_view() =~= Seq::<Seq<char>>::empty());
        match self.rules_of(url) {
            Err(e) => Err(e),
            Ok(None) => Ok(none),
            Ok(Some(body)) => match read_sitemaps(self.user_agent.as_str(), body) {
                Some(s) => Ok(s),
                None => Ok(none),
            },
        }
    }
}

proof fn lemma_store(
    before: Seq<OriginRules>,
    after: Seq<OriginRules>,
    i: int,
    origin: Seq<char>,
    body: Option<Seq<u8>>,
)
    requires
        0 <= i <= before.len(),
        i < before.len() ==> after.len() == before.len() && before[i].origin@ == origin,
        i == before.len() ==> after.len() == before.len() + 1 && !cached_origin(before, origin),
        after[i].origin@ == origin,
        body_view(after[i].body) == body,
        forall|k: int| 0 <= k < before.len() && k != i ==> after[k] == before[k],
        forall|a: int, b: int|
            0 <= a < b < before.len() ==> (#[trigger] before[a]).origin@ != (
            #[trigger] before[b]).origin@,
    ensures
        forall|a: int, b: int|
            0 <= a < b < after.len() ==> (#[trigger] after[a]).origin@ != (
            #[trigger] after[b]).origin@,
        forall|o: Seq<char>|
            #![trigger cached_origin(after, o)]
            cached_origin(after, o) <==> (o == origin || cached_origin(before, o)),
        forall|o: Seq<char>|
            #![trigger cached_rules(after, o)]
            cached_origin(after, o) ==> cached_rules(after, o) == (if o == origin {
                body
            } else {
                cached_rules(before, o)
            }),
{
    assert forall|a: int, b: int| 0 <= a < b < after.len() implies (#[trigger] after[a]).origin@
        != (#[trigger] after[b]).origin@ by {
        if a != i && b != i {
            assert(before[a].origin@ != before[b].origin@);
        } else if i < before.len() {
            if a == i {
                assert(before[i].origin@ != before[b].origin@);
            } else {
                assert(before[a].origin@ != before[i].origin@);
            }
        } else {
            assert(before[a].origin@ != origin);
        }
    }
    assert forall|o: Seq<char>|
        #![trigger cached_origin(after, o)]
        cached_origin(after, o) <==> (o == origin || cached_origin(before, o)) by {
        if cached_origin(after, o) {
            let k = choose|k: int| 0 <= k < after.len() && (#[trigger] after[k]).origin@ == o;
            if k != i {
                assert(before[k].origin@ == o);
            }
        }
        if o == origin {
            assert(after[i].origin@ == o);
        } else if cached_origin(before, o) {
            let k = choose|k: int| 0 <= k < before.len() && (#[trigger] before[k]).origin@ == o;
            assert(after[k].origin@ == o);
        }
    }
    assert forall|o: Seq<char>|
        #![trigger cached_rules(after, o)]
        cached_origin(after, o) implies cached_rules(after, o) == (if o == origin {
        body
    } else {
        cached_rules(before, o)
    }) by {
        let k = choose|k: int| 0 <= k < after.len() && (#[trigger] after[k]).origin@ == o;
        if o == origin {
            if k != i {
                assert(after[k].origin@ == after[i].origin@);
                if k < i {
                    assert(after[k].origin@ != after[i].origin@);
                } else {
                    assert(after[i].origin@ != after[k].origin@);
                }
            }
        } else {
            assert(k != i);
            assert(before[k].origin@ == o);
            let m = choose|m: int| 0 <= m < before.len() && (#[trigger] before[m]).origin@ == o;
            if m < k {
                assert(before[m].origin@ != before[k].origin@);
            } else if k < m {
                assert(before[k].origin@ != before[m].origin@);
            }
        }
    }
}

/// Without rules for its origin every URL is allowed, no wait is asked for and
/// no sitemap is named.
pub proof fn no_rules_allow_everything(m: RobotsModel, url: Seq<char>)
    requires
        m.rules_for(url) is None,
    ensures
        m.allows(url),
        m.delay_secs(url) is None,
        m.sitemaps(url).len() == 0,
{
}

/// Once an origin was asked for, its rules are known and those of the others
/// have not changed.
pub proof fn rules_are_fetched_once(
    m: RobotsModel,
    origin: Seq<char>,
    body: Option<Seq<u8>>,
    other: Seq<char>,
)
    ensures
        m.with_rules(origin, body).rules.dom().contains(origin),
        m.with_rules(origin, body).rules[origin] == body,
        other != origin ==> (m.with_rules(origin, body).rules.dom().contains(other)
            <==> m.rules.dom().contains(other)),
        other != origin && m.rules.dom().contains(other) ==> m.with_rules(
            origin,
            body,
        ).rules[other] == m.rules[other],
{
}

/// The rules of its origin decide on a URL: whether it may be fetched, how long
/// to wait, and which sitemaps there are.
pub proof fn rules_decide(
    m: RobotsModel,
    url: Seq<char>,
    origin: Seq<char>,
    body: Seq<u8>,
    verdict: bool,
    bits: u32,
    named: Seq<Seq<char>>,
)
    requires
        url_origin(url) == Some(origin),
    ensures
        ({
            let after = m.with_rules(origin, Some(body));
            &&& after.user_agent == m.user_agent
            &&& after.rules_for(url) == Some(body)
            &&& robots_verdict(m.user_agent, body, url) == Some(verdict) ==> after.allows(url)
                == verdict
            &&& robots_verdict(m.user_agent, body, url) is None ==> after.allows(url)
            &&& robots_delay_bits(m.user_agent, body) == Some(bits) ==> after.delay_secs(url)
                == Some(whole_seconds(bits))
            &&& robots_delay_bits(m.user_agent, body) is None ==> after.delay_secs(url) is None
            &&& robots_sitemaps(m.user_agent, body) == Some(named) ==> after.sitemaps(url) == named
        }),
        m.with_rules(origin, None).allows(url),
{
}

/// URLs of one scheme, host and port have one origin.
pub proof fn origins_are_scheme_host_and_port(a: Seq<char>, b: Seq<char>)
    requires
        url_text(a) is Some,
        url_text(b) is Some,
        url_host(a) is Some,
        url_host(a) == url_host(b),
        url_scheme(a) == url_scheme(b),
        url_port(a) == url_port(b),
    ensures
        url_origin(a) is Some,
        url_origin(a) == url_origin(b),
        url_port(a) is None ==> url_origin(a) == Some(url_scheme(a) + "://"@ + url_host(a)->0),
{
    if url_port(a) is None {
        let o = url_scheme(a) + "://"@ + url_host(a)->0;
        assert(o + Seq::<char>::empty() =~= o);
    }
}

/// A number without a fraction is its own whole number of seconds; negative
/// numbers and what is no number count as none.
pub proof fn whole_numbers_stay(bits: u32)
    ensures
        bits < 0x7f80_0000 && exponent_of(bits) >= 150 && significand_of(bits) * two_to(
            (exponent_of(bits) - 150) as nat,
        ) <= u64::MAX ==> whole_seconds(bits) == significand_of(bits) * two_to(
            (exponent_of(bits) - 150) as nat,
        ),
        bits >= 0x8000_0000 ==> whole_seconds(bits) == 0,
        0x7f80_0000 < bits < 0x8000_0000 ==> whole_seconds(bits) == 0,
        bits == 0x7f80_0000 ==> whole_seconds(bits) == u64::MAX,
        two_to(0) == 1,
{
}

/// A port that is given stands behind the host, with a colon and its digits.
pub proof fn ports_stand_behind_the_host(port: u16)
    ensures
        port_text(Some(port)) == seq![':'] + decimal(port as nat),
        port_text(None).len() == 0,
{
}

/// An address has no origin exactly where it is not a URL or has no host, and
/// the error says which of the two it is.
pub proof fn origin_errors_say_why(url: Seq<char>, e: CrawlError)
    requires
        is_origin_error(url, e),
    ensures
        url_origin(url) is None,
        match e {
            CrawlError::UrlParse(m) => url_text(url) is None && m@ == url_error(url),
            CrawlError::Other(m) => {
                &&& url_text(url) is Some
                &&& url_host(url) is None
                &&& m@ == "URL has no host"@
            },
            _ => false,
        },
{
}

proof fn lemma_two_to_splits(a: nat, b: nat)
    ensures
        two_to(a + b) == two_to(a) * two_to(b),
    decreases a,
{
    if a == 0 {
        assert(two_to(0) * two_to(b) == two_to(b)) by (nonlinear_arith)
            requires
                two_to(0) == 1,
        ;
    } else {
        lemma_two_to_splits((a - 1) as nat, b);
        assert(two_to(a) == 2 * two_to((a - 1) as nat));
        assert(a + b - 1 == (a - 1) + b);
        assert(two_to(a + b) == 2 * two_to((a - 1 + b) as nat));
        let p = two_to((a - 1) as nat);
        let q = two_to(b);
        assert(2 * (p * q) == (2 * p) * q) by (nonlinear_arith);
    }
}

/// A whole number of seconds below two to the power of 24 is read as it is: the
/// number `n` between two to the power of `k` and of `k + 1` has the exponent
/// 127 more than `k`, and behind it the digits of `n` below the first.
pub proof fn whole_seconds_are_read(k: nat, n: nat, bits: u32)
    requires
        k <= 23,
        two_to(k) <= n < 2 * two_to(k),
        bits == (127 + k) * 0x80_0000 + (n - two_to(k)) * two_to((23 - k) as nat),
    ensures
        whole_seconds(bits) == n,
{
    let u = two_to((23 - k) as nat);
    let p = two_to(k);
    lemma_two_to_splits(k, (23 - k) as nat);
    lemma_two_to_grows(0, (23 - k) as nat);
    assert(two_to(23) == 0x80_0000) by {
        reveal_with_fuel(two_to, 24);
    }
    let f = (n - p) * u;
    assert(0 <= f < p * u) by (nonlinear_arith)
        requires
            p <= n < 2 * p,
            u >= 1,
            f == (n - p) * u,
    ;
    assert(f + p * u == n * u) by (nonlinear_arith)
        requires
            f == (n - p) * u,
    ;
    assert(bits as int == (127 + k) * 0x80_0000 + f);
    assert(bits as int / 0x80_0000 == 127 + k);
    assert(bits as int % 0x80_0000 == f);
    assert(exponent_of(bits) == 127 + k);
    assert(significand_of(bits) == n * u);
    assert(bits < 0x7f80_0000);
    if k == 23 {
        assert(u == 1);
        assert(n * u == n) by (nonlinear_arith)
            requires
                u == 1,
        ;
        assert(two_to(0) == 1);
        assert((n * u) * two_to(0) == n);
    } else {
        assert((2 * (n * u) + u) / (2 * u) == n as int) by (nonlinear_arith)
            requires
                u >= 1,
                n >= 0,
        ;
    }
    lemma_two_to_grows(k, 23);
    assert(n < 0x100_0000);
}

/// Less than half a second counts as none, and half a second as one.
pub proof fn less_than_half_a_second_is_none(bits: u32)
    ensures
        bits < 0x3f00_0000 ==> whole_seconds(bits) == 0,
        bits == 0x3f00_0000 ==> whole_seconds(bits) == 1,
{
    lemma_some_powers();
    let e = exponent_of(bits);
    let m = significand_of(bits);
    assert(two_to(24) == 0x100_0000) by {
        reveal_with_fuel(two_to, 25);
    }
    if bits < 0x3f00_0000 {
        let unit = two_to((150 - if e == 0 {
            1
        } else {
            e as int
        }) as nat);
        assert(e <= 125);
        lemma_two_to_grows(25, (150 - if e == 0 {
            1
        } else {
            e as int
        }) as nat);
        assert(m < 0x100_0000);
        assert((2 * m + unit) / (2 * unit) == 0) by (nonlinear_arith)
            requires
                m < 0x100_0000,
                unit >= 0x200_0000,
        ;
    } else if bits == 0x3f00_0000 {
        assert(e == 126);
        assert(m == 0x80_0000);
        let unit = two_to((150 - e) as nat);
        assert(unit == 0x100_0000);
        assert((2 * m + unit) / (2 * unit) == 1) by (nonlinear_arith)
            requires
                m == 0x80_0000,
                unit == 0x100_0000,
        ;
    }
}

} // verus!
