//! Sitemaps: pages that a site lists for crawlers.
//!
//! Discovery never fails: what cannot be fetched or read is passed over, and
//! the crawl goes on with what was found.

use quick_xml::events::Event;
use quick_xml::reader::Reader;
use vstd::prelude::*;
use vstd::slice::slice_subrange;
use crate::crawler::robots::port_text;
use crate::crawler::url_class::{
    all_settled, in_prefix, is_in_prefix, is_settled, normalize_url, normalized,
};
use crate::crawler::url_parts::{parse_url, url_host, url_port, url_scheme, url_text};
use crate::text::{show_unsigned, trim, trimmed};

verus! {

/// The most bytes of one sitemap that are read.
pub const MAX_SITEMAP_BYTES: usize = 10_485_760;

/// The most sitemaps that are fetched for one target.
pub const MAX_SITEMAPS_PER_TARGET: usize = 20;

// ---------------------------------------------------------------------------
// XML
// ---------------------------------------------------------------------------

/// A piece of an XML document. A text that does not unescape is `None`.
#[derive(Debug)]
pub enum XmlEvent {
    Start(Vec<u8>),
    Text(Option<String>),
    End(Vec<u8>),
    Other,
}

pub enum EventModel {
    Start(Seq<u8>),
    Text(Option<Seq<char>>),
    End(Seq<u8>),
    Other,
}

impl DeepView for XmlEvent {
    type V = EventModel;

    open spec fn deep_view(&self) -> EventModel {
        match self {
            XmlEvent::Start(n) => EventModel::Start(n@),
            XmlEvent::Text(t) => EventModel::Text(t.deep_view()),
            XmlEvent::End(n) => EventModel::End(n@),
            XmlEvent::Other => EventModel::Other,
        }
    }
}

/// The pieces of the XML document `body`; `None` where it is not well formed.
pub uninterp spec fn xml_events(body: Seq<char>, trim_text: bool) -> Option<Seq<EventModel>>;

/// `quick_xml::Reader::read_event` on `body`, from its start to its end, with
/// `Config::trim_text` set. Start and end tags keep their qualified names,
/// texts are unescaped, and nothing is kept of the other events. `None` as
/// soon as an event cannot be read.
#[verifier::external_body]
fn read_xml(body: &str, trim_text: bool) -> (r: Option<Vec<XmlEvent>>)
    ensures
        r.deep_view() == xml_events(body@, trim_text),
{
    let mut reader = Reader::from_str(body);
    reader.config_mut().trim_text(trim_text);
    let mut events = Vec::new();
    loop {
        events.push(match reader.read_event().ok()? {
            Event::Start(e) => XmlEvent::Start(e.name().as_ref().to_vec()),
            Event::Text(e) => XmlEvent::Text(e.unescape().ok().map(|t| t.into_owned())),
            Event::End(e) => XmlEvent::End(e.name().as_ref().to_vec()),
            Event::Eof => return Some(events),
            _ => XmlEvent::Other,
        });
    }
}

/// The position of the first colon at or behind `i`.
pub open spec fn colon_at(qname: Seq<u8>, i: int) -> Option<int>
    decreases qname.len() - i,
{
    if i < 0 || i >= qname.len() {
        None
    } else if qname[i] == 58 {
        Some(i)
    } else {
        colon_at(qname, i + 1)
    }
}

/// A qualified name without its namespace prefix.
pub open spec fn local_part(qname: Seq<u8>) -> Seq<u8> {
    match colon_at(qname, 0) {
        Some(i) => qname.skip(i + 1),
        None => qname,
    }
}

/// Strips the namespace prefix from a qualified name.
pub fn local_name(qname: &[u8]) -> (r: &[u8])
    ensures
        r@ == local_part(qname@),
{
    let mut i: usize = 0;
    while i < qname.len()
        invariant
            i <= qname.len(),
            colon_at(qname@, 0) == colon_at(qname@, i as int),
        decreases qname.len() - i,
    {
        if qname[i] == 58 {
            let r = slice_subrange(qname, i + 1, qname.len());
            assert(r@ =~= qname@.skip(i + 1));
            return r;
        }
        i = i + 1;
    }
    qname
}

/// `loc`
pub open spec fn loc_name() -> Seq<u8> {
    seq![0x6cu8, 0x6f, 0x63]
}

/// `sitemapindex`
pub open spec fn sitemapindex_name() -> Seq<u8> {
    seq![0x73u8, 0x69, 0x74, 0x65, 0x6d, 0x61, 0x70, 0x69, 0x6e, 0x64, 0x65, 0x78]
}

fn same_bytes(a: &[u8], b: &Vec<u8>) -> (r: bool)
    ensures
        r == (a@ == b@),
{
    if a.len() != b.len() {
        return false;
    }
    let mut i: usize = 0;
    while i < a.len()
        invariant
            i <= a.len(),
            a@.len() == b@.len(),
            forall|j: int| 0 <= j < i ==> a@[j] == b@[j],
        decreases a.len() - i,
    {
        if a[i] != b[i] {
            return false;
        }
        i = i + 1;
    }
    assert(a@ =~= b@);
    true
}

fn is_loc(qname: &Vec<u8>) -> (r: bool)
    ensures
        r == (local_part(qname@) == loc_name()),
{
    let loc: Vec<u8> = vec![0x6cu8, 0x6f, 0x63];
    assert(loc@ =~= loc_name());
    same_bytes(local_name(qname.as_slice()), &loc)
}

fn is_sitemapindex(qname: &Vec<u8>) -> (r: bool)
    ensures
        r == (local_part(qname@) == sitemapindex_name()),
{
    let name: Vec<u8> = vec![
        0x73u8, 0x69, 0x74, 0x65, 0x6d, 0x61, 0x70, 0x69, 0x6e, 0x64, 0x65, 0x78,
    ];
    assert(name@ =~= sitemapindex_name());
    same_bytes(local_name(qname.as_slice()), &name)
}

// ---------------------------------------------------------------------------
// One sitemap
// ---------------------------------------------------------------------------

/// What a sitemap lists.
#[derive(Debug, PartialEq, Eq)]
pub enum ParsedSitemap {
    /// Pages.
    Urls(Vec<String>),
    /// Further sitemaps.
    Index(Vec<String>),
}

/// A sitemap that is not well-formed XML.
#[derive(Debug, PartialEq, Eq)]
pub struct MalformedSitemap;

/// The local name of the first element that starts at or behind `i`.
pub open spec fn root_name(events: Seq<EventModel>, i: int) -> Option<Seq<u8>>
    decreases events.len() - i,
{
    if i < 0 || i >= events.len() {
        None
    } else {
        match events[i] {
            EventModel::Start(n) => Some(local_part(n)),
            _ => root_name(events, i + 1),
        }
    }
}

/// What follows the events stands inside of a `loc` element.
pub open spec fn inside_loc(events: Seq<EventModel>) -> bool
    decreases events.len(),
{
    if events.len() == 0 {
        false
    } else {
        match events.last() {
            EventModel::Start(n) => local_part(n) == loc_name() || inside_loc(events.drop_last()),
            EventModel::End(n) => local_part(n) != loc_name() && inside_loc(events.drop_last()),
            _ => inside_loc(events.drop_last()),
        }
    }
}

/// The texts of the `loc` elements, trimmed, without the empty ones.
pub open spec fn loc_texts(events: Seq<EventModel>) -> Seq<Seq<char>>
    decreases events.len(),
{
    if events.len() == 0 {
        Seq::empty()
    } else {
        let front = loc_texts(events.drop_last());
        match events.last() {
            EventModel::Text(Some(t)) => if inside_loc(events.drop_last()) && trimmed(t).len()
                > 0 {
                front.push(trimmed(t))
            } else {
                front
            },
            _ => front,
        }
    }
}

/// The result is an index exactly where the root element is `sitemapindex`,
/// and lists the texts of the `loc` elements.
pub open spec fn sitemap_of_events(events: Seq<EventModel>, r: ParsedSitemap) -> bool {
    match r {
        ParsedSitemap::Index(l) => root_name(events, 0) == Some(sitemapindex_name())
            && l.deep_view() == loc_texts(events),
        ParsedSitemap::Urls(l) => root_name(events, 0) != Some(sitemapindex_name())
            && l.deep_view() == loc_texts(events),
    }
}

/// Reads a sitemap from the pieces of its document.
pub fn sitemap_from_events(events: &Vec<XmlEvent>) -> (r: ParsedSitemap)
    ensures
        sitemap_of_events(events.deep_view(), r),
{
    let ghost all = events.deep_view();
    let mut is_index = false;
    let mut root_seen = false;
    let mut in_loc = false;
    let mut locs: Vec<String> = Vec::new();
    let mut i: usize = 0;
    assert(all.take(0) =~= Seq::<EventModel>::empty());
    assert(locs.deep_view() =~= Seq::<Seq<char>>::empty());
    while i < events.len()
        invariant
            i <= events.len(),
            all == events.deep_view(),
            in_loc == inside_loc(all.take(i as int)),
            locs.deep_view() == loc_texts(all.take(i as int)),
            !root_seen ==> !is_index && root_name(all, 0) == root_name(all, i as int),
            root_seen ==> is_index == (root_name(all, 0) == Some(sitemapindex_name())),
        decreases events.len() - i,
    {
        let ghost before = locs.deep_view();
        proof {
            assert(all[i as int] == events@[i as int].deep_view());
            assert(all.take(i + 1).drop_last() =~= all.take(i as int));
        }
        match &events[i] {
            XmlEvent::Start(n) => {
                if !root_seen {
                    is_index = is_sitemapindex(n);
                    root_seen = true;
                }
                if is_loc(n) {
                    in_loc = true;
                }
            },
            XmlEvent::Text(t) => {
                if in_loc {
                    match t {
                        Some(s) => {
                            let text = trim(s.as_str());
                            if !text.as_str().is_empty() {
                                locs.push(text);
                                assert(locs.deep_view() =~= before.push(text@));
                            }
                        },
                        None => {},
                    }
                }
            },
            XmlEvent::End(n) => {
                if is_loc(n) {
                    in_loc = false;
                }
            },
            XmlEvent::Other => {},
        }
        i = i + 1;
    }
    assert(all.take(all.len() as int) =~= all);
    if is_index {
        ParsedSitemap::Index(locs)
    } else {
        ParsedSitemap::Urls(locs)
    }
}

/// Reads a sitemap: the texts of its `loc` elements, whatever their namespace
/// prefix, as pages or, under the root element `sitemapindex`, as further
/// sitemaps. An error where the document is not well-formed XML.
pub fn parse_sitemap(body: &str) -> (r: Result<ParsedSitemap, MalformedSitemap>)
    ensures
        match r {
            Ok(p) => xml_events(body@, true) is Some && sitemap_of_events(
                xml_events(body@, true)->0,
                p,
            ),
            Err(_) => xml_events(body@, true) is None,
        },
{
    match read_xml(body, true) {
        Some(events) => Ok(sitemap_from_events(&events)),
        None => Err(MalformedSitemap),
    }
}

// ---------------------------------------------------------------------------
// Where to look
// ---------------------------------------------------------------------------

/// The conventional sitemap of the site of `seed`.
pub open spec fn site_sitemap(seed: Seq<char>) -> Option<Seq<char>> {
    match (url_text(seed), url_host(seed)) {
        (Some(_), Some(host)) => Some(
            url_scheme(seed) + "://"@ + host + port_text(url_port(seed)) + "/sitemap.xml"@,
        ),
        _ => None,
    }
}

/// The conventional sitemap of the site that `seed_url` belongs to.
pub fn default_sitemap_url(seed_url: &str) -> (r: Option<String>)
    ensures
        r.deep_view() == site_sitemap(seed_url@),
{
    match parse_url(seed_url) {
        None => None,
        Some(u) => match u.host {
            None => None,
            Some(host) => {
                let mut r: String = u.scheme;
                r.push_str("://");
                r.push_str(host.as_str());
                match u.port {
                    Some(p) => {
                        let digits = show_unsigned(p as u64);
                        r.push(':');
                        r.push_str(digits.as_str());
                    },
                    None => {},
                }
                assert(r@ =~= url_scheme(seed_url@) + "://"@ + host@ + port_text(
                    url_port(seed_url@),
                ));
                r.push_str("/sitemap.xml");
                Some(r)
            },
        },
    }
}

fn lists(urls: &Vec<String>, url: &String) -> (r: bool)
    ensures
        r == urls.deep_view().contains(url@),
{
    let ghost all = urls.deep_view();
    let mut i: usize = 0;
    while i < urls.len()
        invariant
            i <= urls.len(),
            all == urls.deep_view(),
            forall|j: int| 0 <= j < i ==> #[trigger] all[j] != url@,
        decreases urls.len() - i,
    {
        assert(all[i as int] == urls@[i as int]@);
        if urls[i] == *url {
            return true;
        }
        i = i + 1;
    }
    false
}

/// The sitemaps to look at: those that the robots rules name, and the
/// conventional one of the site where it is not among them.
pub open spec fn candidates(named: Seq<Seq<char>>, seed: Seq<char>) -> Seq<Seq<char>> {
    match site_sitemap(seed) {
        Some(d) => if named.contains(d) {
            named
        } else {
            named.push(d)
        },
        None => named,
    }
}

/// The sitemaps to look at for the site of `seed_url`, whose robots rules name
/// `named`.
pub fn collect_sitemap_candidates(named: Vec<String>, seed_url: &str) -> (r: Vec<String>)
    ensures
        r.deep_view() == candidates(named.deep_view(), seed_url@),
{
    let mut r = named;
    match default_sitemap_url(seed_url) {
        Some(d) => {
            if !lists(&r, &d) {
                r.push(d);
                assert(r.deep_view() =~= named.deep_view().push(d@));
            }
        },
        None => {},
    }
    r
}

// ---------------------------------------------------------------------------
// The walk
// ---------------------------------------------------------------------------

/// A walk through the sitemaps of a site.
pub struct SitemapWalk {
    prefix: String,
    max_urls: usize,
    to_visit: Vec<String>,
    next_round: Vec<String>,
    visited: Vec<String>,
    fetched: usize,
    may_descend: bool,
    found: Vec<String>,
}

/// A walk as its laws speak of it.
pub struct WalkModel {
    pub prefix: Seq<char>,
    /// The most pages to find.
    pub max_urls: nat,
    /// The sitemaps of this round, the next one first.
    pub to_visit: Seq<Seq<char>>,
    /// The sitemaps of the next round.
    pub next_round: Seq<Seq<char>>,
    /// The sitemaps that had their turn.
    pub visited: Seq<Seq<char>>,
    /// How many sitemaps were fetched.
    pub fetched: nat,
    /// There may be a next round.
    pub may_descend: bool,
    /// The pages found.
    pub found: Seq<Seq<char>>,
}

/// The first of `urls` that is not in `visited`, by position.
pub open spec fn first_unvisited(urls: Seq<Seq<char>>, visited: Seq<Seq<char>>) -> Option<int>
    decreases urls.len(),
{
    if urls.len() == 0 {
        None
    } else if !visited.contains(urls[0]) {
        Some(0)
    } else {
        match first_unvisited(urls.drop_first(), visited) {
            Some(i) => Some(i + 1),
            None => None,
        }
    }
}

/// `page` is the canonical form of some URL.
pub open spec fn is_canonical(page: Seq<char>) -> bool {
    exists|u: Seq<char>| #[trigger] normalized(u) == Some(page)
}

/// `page` may be crawled: it is in canonical form, and under `prefix`.
pub open spec fn is_usable(page: Seq<char>, prefix: Seq<char>) -> bool {
    is_canonical(page) && in_prefix(page, prefix)
}

/// The pages among `urls` that may be crawled: canonical, and under `prefix`.
pub open spec fn pages_in_prefix(urls: Seq<Seq<char>>, prefix: Seq<char>) -> Seq<Seq<char>>
    decreases urls.len(),
{
    if urls.len() == 0 {
        Seq::empty()
    } else {
        let front = pages_in_prefix(urls.drop_last(), prefix);
        match normalized(urls.last()) {
            Some(n) => if in_prefix(n, prefix) {
                front.push(n)
            } else {
                front
            },
            None => front,
        }
    }
}

/// Where the canonical form of the URL falls under the prefix, it is among the
/// pages that are handed on.
pub open spec fn is_handed_on(url: Seq<char>, prefix: Seq<char>, pages: Seq<Seq<char>>) -> bool {
    match normalized(url) {
        Some(n) => in_prefix(n, prefix) ==> pages.contains(n),
        None => true,
    }
}

/// The next round after `children` were listed: those that had no turn yet, as
/// long as there is room for them.
pub open spec fn round_after(
    next_round: Seq<Seq<char>>,
    visited: Seq<Seq<char>>,
    children: Seq<Seq<char>>,
) -> Seq<Seq<char>>
    decreases children.len(),
{
    if children.len() == 0 {
        next_round
    } else {
        let before = round_after(next_round, visited, children.drop_last());
        if !visited.contains(children.last()) && before.len() + visited.len()
            < MAX_SITEMAPS_PER_TARGET {
            before.push(children.last())
        } else {
            before
        }
    }
}

impl WalkModel {
    /// What holds of every walk.
    pub open spec fn valid(self) -> bool {
        &&& self.visited.no_duplicates()
        &&& self.found.no_duplicates()
        &&& self.found.len() <= self.max_urls
        &&& self.fetched <= MAX_SITEMAPS_PER_TARGET
        &&& forall|i: int|
            0 <= i < self.found.len() ==> is_usable(#[trigger] self.found[i], self.prefix)
        &&& all_settled(self.found)
    }

    /// The walk found as many pages as it may.
    pub open spec fn full(self) -> bool {
        self.found.len() >= self.max_urls
    }

    /// The walk at its start.
    pub open spec fn started(
        sitemaps: Seq<Seq<char>>,
        prefix: Seq<char>,
        max_urls: nat,
    ) -> WalkModel {
        WalkModel {
            prefix,
            max_urls,
            to_visit: if sitemaps.len() > MAX_SITEMAPS_PER_TARGET {
                sitemaps.take(MAX_SITEMAPS_PER_TARGET as int)
            } else {
                sitemaps
            },
            next_round: Seq::empty(),
            visited: Seq::empty(),
            fetched: 0,
            may_descend: true,
            found: Seq::empty(),
        }
    }

    /// The walk after the sitemap at `i` of this round had its turn.
    pub open spec fn turned(self, i: int) -> WalkModel {
        WalkModel {
            to_visit: self.to_visit.skip(i + 1),
            visited: self.visited.push(self.to_visit[i]),
            ..self
        }
    }

    /// The walk in its next round, where there may be one.
    pub open spec fn descended(self) -> WalkModel {
        WalkModel {
            to_visit: self.next_round,
            next_round: Seq::empty(),
            may_descend: false,
            ..self
        }
    }

    /// The next sitemap, and the walk after it had its turn.
    pub open spec fn next(self) -> Option<(Seq<char>, WalkModel)> {
        if self.full() {
            None
        } else {
            match first_unvisited(self.to_visit, self.visited) {
                Some(i) => Some((self.to_visit[i], self.turned(i))),
                None => if self.may_descend {
                    let d = self.descended();
                    match first_unvisited(d.to_visit, d.visited) {
                        Some(i) => Some((d.to_visit[i], d.turned(i))),
                        None => None,
                    }
                } else {
                    None
                },
            }
        }
    }

    /// The walk when it is over: a full walk stays as it is, and of any other
    /// nothing is left to visit.
    pub open spec fn over(self) -> WalkModel {
        if self.full() {
            self
        } else if self.may_descend {
            WalkModel {
                to_visit: Seq::empty(),
                next_round: Seq::empty(),
                may_descend: false,
                ..self
            }
        } else {
            WalkModel { to_visit: Seq::empty(), ..self }
        }
    }

    /// The walk after a page was found that may be fetched.
    pub open spec fn with_page(self, url: Seq<char>) -> WalkModel {
        if self.full() || self.found.contains(url) {
            self
        } else {
            WalkModel { found: self.found.push(url), ..self }
        }
    }
}

impl View for SitemapWalk {
    type V = WalkModel;

    closed spec fn view(&self) -> WalkModel {
        WalkModel {
            prefix: self.prefix@,
            max_urls: self.max_urls as nat,
            to_visit: self.to_visit.deep_view(),
            next_round: self.next_round.deep_view(),
            visited: self.visited.deep_view(),
            fetched: self.fetched as nat,
            may_descend: self.may_descend,
            found: self.found.deep_view(),
        }
    }
}

proof fn lemma_first_unvisited(urls: Seq<Seq<char>>, visited: Seq<Seq<char>>, k: int)
    requires
        0 <= k <= urls.len(),
        forall|j: int| 0 <= j < k ==> visited.contains(#[trigger] urls[j]),
    ensures
        k < urls.len() && !visited.contains(urls[k]) ==> first_unvisited(urls, visited) == Some(k),
        k == urls.len() ==> first_unvisited(urls, visited) is None,
    decreases urls.len(),
{
    if k > 0 {
        let rest = urls.drop_first();
        assert(visited.contains(urls[0]));
        assert forall|j: int| 0 <= j < k - 1 implies visited.contains(#[trigger] rest[j]) by {
            assert(rest[j] == urls[j + 1]);
        }
        lemma_first_unvisited(rest, visited, k - 1);
        if k < urls.len() {
            assert(rest[k - 1] == urls[k]);
        }
    }
}

proof fn lemma_first_unvisited_range(urls: Seq<Seq<char>>, visited: Seq<Seq<char>>)
    ensures
        first_unvisited(urls, visited) matches Some(i) ==> 0 <= i < urls.len()
            && !visited.contains(urls[i]),
    decreases urls.len(),
{
    if urls.len() > 0 && visited.contains(urls[0]) {
        lemma_first_unvisited_range(urls.drop_first(), visited);
    }
}

/// Every step keeps a walk valid.
pub proof fn walks_stay_valid(m: WalkModel, url: Seq<char>)
    requires
        m.valid(),
    ensures
        m.next() matches Some(n) ==> n.1.valid(),
        is_usable(url, m.prefix) && is_settled(url) ==> m.with_page(url).valid(),
{
    lemma_first_unvisited_range(m.to_visit, m.visited);
    lemma_first_unvisited_range(m.next_round, m.visited);
}

impl SitemapWalk {
    pub open spec fn valid(&self) -> bool {
        self@.valid()
    }

    /// A walk through `sitemaps` for pages under `prefix`, `max_urls` at the
    /// most.
    pub fn start(sitemaps: Vec<String>, prefix: &str, max_urls: usize) -> (r: SitemapWalk)
        ensures
            r.valid(),
            r@ == WalkModel::started(sitemaps.deep_view(), prefix@, max_urls as nat),
    {
        let ghost all = sitemaps.deep_view();
        let mut to_visit = sitemaps;
        if to_visit.len() > MAX_SITEMAPS_PER_TARGET {
            to_visit.truncate(MAX_SITEMAPS_PER_TARGET);
            assert(to_visit.deep_view() =~= all.take(MAX_SITEMAPS_PER_TARGET as int));
        }
        let r = SitemapWalk {
            prefix: prefix.to_owned(),
            max_urls,
            to_visit,
            next_round: Vec::new(),
            visited: Vec::new(),
            fetched: 0,
            may_descend: true,
            found: Vec::new(),
        };
        assert(r@.next_round =~= Seq::<Seq<char>>::empty());
        assert(r@.visited =~= Seq::<Seq<char>>::empty());
        assert(r@.found =~= Seq::<Seq<char>>::empty());
        r
    }

    fn turn(&mut self) -> (r: Option<String>)
        ensures
            match first_unvisited(old(self)@.to_visit, old(self)@.visited) {
                Some(i) => r is Some && r->0@ == old(self)@.to_visit[i] && final(self)@ == old(self)@.turned(i),
                None => r is None && final(self)@ == (WalkModel {
                    to_visit: Seq::empty(),
                    ..old(self)@
                }),
            },
    {
        let ghost before = self@;
        let mut k: usize = 0;
        while k < self.to_visit.len()
            invariant
                k <= self.to_visit.len(),
                self@ == before,
                before == old(self)@,
                forall|j: int|
                    0 <= j < k ==> before.visited.contains(#[trigger] before.to_visit[j]),
            decreases self.to_visit.len() - k,
        {
            assert(before.to_visit[k as int] == self.to_visit@[k as int]@);
            if !lists(&self.visited, &self.to_visit[k]) {
                let url = self.to_visit[k].clone();
                proof {
                    lemma_first_unvisited(before.to_visit, before.visited, k as int);
                }
                self.visited.push(url.clone());
                assert(self@.visited =~= before.visited.push(url@));
                let rest = self.to_visit.split_off(k + 1);
                self.to_visit = rest;
                assert(self@.to_visit =~= before.to_visit.skip(k + 1));
                return Some(url);
            }
            k = k + 1;
        }
        proof {
            lemma_first_unvisited(before.to_visit, before.visited, k as int);
        }
        self.to_visit = Vec::new();
        assert(self@.to_visit =~= Seq::<Seq<char>>::empty());
        None
    }

    /// The next sitemap to look at: those that were named first, then, once,
    /// those that they listed. `None` when the walk is over.
    pub fn next_sitemap(&mut self) -> (r: Option<String>)
        requires
            old(self).valid(),
        ensures
            final(self).valid(),
            match old(self)@.next() {
                Some(n) => r is Some && r->0@ == n.0 && final(self)@ == n.1,
                None => r is None && final(self)@ == old(self)@.over(),
            },
    {
        let ghost before = self@;
        proof {
            walks_stay_valid(before, Seq::empty());
        }
        if self.found.len() >= self.max_urls {
            return None;
        }
        match self.turn() {
            Some(url) => {
                return Some(url);
            },
            None => {},
        }
        if !self.may_descend {
            return None;
        }
        let mut round: Vec<String> = Vec::new();
        std::mem::swap(&mut round, &mut self.next_round);
        self.to_visit = round;
        self.may_descend = false;
        assert(self@.next_round =~= Seq::<Seq<char>>::empty());
        assert(self@ == before.descended());
        self.turn()
    }

    /// Whether the sitemap that has its turn is to be fetched: the robots
    /// rules must allow it, and no more than the most sitemaps are fetched.
    pub fn may_fetch(&mut self, allowed: bool) -> (r: bool)
        requires
            old(self).valid(),
        ensures
            final(self).valid(),
            r == (allowed && old(self)@.fetched < MAX_SITEMAPS_PER_TARGET),
            final(self)@ == (WalkModel {
                fetched: if r {
                    old(self)@.fetched + 1
                } else {
                    old(self)@.fetched
                },
                ..old(self)@
            }),
    {
        if allowed && self.fetched < MAX_SITEMAPS_PER_TARGET {
            self.fetched = self.fetched + 1;
            true
        } else {
            false
        }
    }

    fn add_children(&mut self, children: &Vec<String>)
        requires
            old(self).valid(),
        ensures
            final(self).valid(),
            final(self)@ == (WalkModel {
                next_round: round_after(
                    old(self)@.next_round,
                    old(self)@.visited,
                    children.deep_view(),
                ),
                ..old(self)@
            }),
    {
        let ghost before = self@;
        let ghost all = children.deep_view();
        let mut i: usize = 0;
        assert(all.take(0) =~= Seq::<Seq<char>>::empty());
        while i < children.len()
            invariant
                i <= children.len(),
                all == children.deep_view(),
                before.valid(),
                self@ == (WalkModel {
                    next_round: round_after(before.next_round, before.visited, all.take(i as int)),
                    ..before
                }),
            decreases children.len() - i,
        {
            let ghost round = self@.next_round;
            proof {
                assert(all[i as int] == children@[i as int]@);
                assert(all.take(i + 1).drop_last() =~= all.take(i as int));
                assert(round.len() == self.next_round.len());
                assert(before.visited.len() == self.visited.len());
            }
            if !lists(&self.visited, &children[i]) && self.visited.len() < MAX_SITEMAPS_PER_TARGET
                && self.next_round.len() < MAX_SITEMAPS_PER_TARGET - self.visited.len() {
                self.next_round.push(children[i].clone());
                assert(self@.next_round =~= round.push(all[i as int]));
            }
            i = i + 1;
        }
        assert(all.take(all.len() as int) =~= all);
    }

    fn usable_pages(&self, urls: &Vec<String>) -> (r: Vec<String>)
        ensures
            r.deep_view() == pages_in_prefix(urls.deep_view(), self@.prefix),
            all_settled(r.deep_view()),
            forall|i: int|
                0 <= i < urls.len() ==> is_handed_on(
                    (#[trigger] urls@[i])@,
                    self@.prefix,
                    r.deep_view(),
                ),
    {
        let ghost all = urls.deep_view();
        let mut r: Vec<String> = Vec::new();
        let mut i: usize = 0;
        assert(all.take(0) =~= Seq::<Seq<char>>::empty());
        assert(r.deep_view() =~= Seq::<Seq<char>>::empty());
        while i < urls.len()
            invariant
                i <= urls.len(),
                all == urls.deep_view(),
                all_settled(r.deep_view()),
                r.deep_view() == pages_in_prefix(all.take(i as int), self@.prefix),
            decreases urls.len() - i,
        {
            let ghost before = r.deep_view();
            proof {
                assert(all[i as int] == urls@[i as int]@);
                assert(all.take(i + 1).drop_last() =~= all.take(i as int));
            }
            match normalize_url(urls[i].as_str()) {
                Some(n) => {
                    if is_in_prefix(n.as_str(), self.prefix.as_str()) {
                        r.push(n);
                        assert(r.deep_view() =~= before.push(n@));
                    }
                },
                None => {},
            }
            i = i + 1;
        }
        assert(all.take(all.len() as int) =~= all);
        proof {
            assert forall|j: int| 0 <= j < urls.len() implies is_handed_on(
                (#[trigger] urls@[j])@,
                self@.prefix,
                r.deep_view(),
            ) by {
                assert(all[j] == urls@[j]@);
                every_listed_page_is_handed_on(all, self@.prefix, j);
            }
        }
        r
    }

    /// Takes in what a sitemap lists. Of pages, those that may be crawled are
    /// handed back to be held against the robots rules; further sitemaps are
    /// kept for the next round.
    pub fn take_listing(&mut self, listing: ParsedSitemap) -> (r: Vec<String>)
        requires
            old(self).valid(),
        ensures
            final(self).valid(),
            all_settled(r.deep_view()),
            match listing {
                ParsedSitemap::Urls(urls) => r.deep_view() == pages_in_prefix(
                    urls.deep_view(),
                    old(self)@.prefix,
                ) && final(self)@ == old(self)@ && forall|i: int|
                    0 <= i < urls.len() ==> is_handed_on(
                        (#[trigger] urls@[i])@,
                        old(self)@.prefix,
                        r.deep_view(),
                    ),
                ParsedSitemap::Index(children) => r.deep_view() == Seq::<Seq<char>>::empty()
                    && final(self)@ == (WalkModel {
                    next_round: round_after(
                        old(self)@.next_round,
                        old(self)@.visited,
                        children.deep_view(),
                    ),
                    ..old(self)@
                }),
            },
    {
        match listing {
            ParsedSitemap::Urls(urls) => self.usable_pages(&urls),
            ParsedSitemap::Index(children) => {
                self.add_children(&children);
                let r: Vec<String> = Vec::new();
                assert(r.deep_view() =~= Seq::<Seq<char>>::empty());
                r
            },
        }
    }

    /// Takes in the body of a sitemap. A body that is not well-formed XML
    /// lists nothing.
    pub fn take_sitemap(&mut self, body: &str) -> (r: Vec<String>)
        requires
            old(self).valid(),
        ensures
            final(self).valid(),
            all_settled(r.deep_view()),
            match xml_events(body@, true) {
                None => r.deep_view() == Seq::<Seq<char>>::empty() && final(self)@ == old(self)@,
                Some(events) => if root_name(events, 0) == Some(sitemapindex_name()) {
                    r.deep_view() == Seq::<Seq<char>>::empty() && final(self)@ == (WalkModel {
                        next_round: round_after(
                            old(self)@.next_round,
                            old(self)@.visited,
                            loc_texts(events),
                        ),
                        ..old(self)@
                    })
                } else {
                    r.deep_view() == pages_in_prefix(loc_texts(events), old(self)@.prefix)
                        && final(self)@ == old(self)@
                },
            },
    {
        match parse_sitemap(body) {
            Ok(listing) => self.take_listing(listing),
            Err(_) => {
                let r: Vec<String> = Vec::new();
                assert(r.deep_view() =~= Seq::<Seq<char>>::empty());
                r
            },
        }
    }

    /// Adds a page in canonical form and under the prefix to what was found,
    /// where the robots rules allow it, it is new and there is room. Says
    /// whether there is room for another.
    pub fn offer_page(&mut self, url: String, allowed: bool) -> (r: bool)
        requires
            old(self).valid(),
            is_usable(url@, old(self)@.prefix),
            is_settled(url@),
        ensures
            final(self).valid(),
            final(self)@ == if allowed {
                old(self)@.with_page(url@)
            } else {
                old(self)@
            },
            r == !final(self)@.full(),
    {
        let ghost before = self@;
        proof {
            walks_stay_valid(before, url@);
            assert(before.found.len() == self.found.len());
        }
        if allowed && self.found.len() < self.max_urls && !lists(&self.found, &url) {
            self.found.push(url);
            assert(self@.found =~= before.found.push(url@));
        }
        self.found.len() < self.max_urls
    }

    /// The pages found, each once and each its own canonical form.
    pub fn into_found(self) -> (r: Vec<String>)
        requires
            self.valid(),
        ensures
            r.deep_view() == self@.found,
            r.deep_view().no_duplicates(),
            all_settled(r.deep_view()),
    {
        self.found
    }
}

// ---------------------------------------------------------------------------
// Laws
// ---------------------------------------------------------------------------

/// The pages handed back to be held against the robots rules are all in
/// canonical form and fall under the prefix, so each may be offered.
pub proof fn listed_pages_are_usable(urls: Seq<Seq<char>>, prefix: Seq<char>)
    ensures
        forall|i: int|
            0 <= i < pages_in_prefix(urls, prefix).len() ==> is_usable(
                #[trigger] pages_in_prefix(urls, prefix)[i],
                prefix,
            ),
    decreases urls.len(),
{
    if urls.len() > 0 {
        listed_pages_are_usable(urls.drop_last(), prefix);
        let front = pages_in_prefix(urls.drop_last(), prefix);
        let all = pages_in_prefix(urls, prefix);
        assert forall|i: int| 0 <= i < all.len() implies is_usable(#[trigger] all[i], prefix) by {
            if i < front.len() {
                assert(all[i] == front[i]);
            } else {
                assert(normalized(urls.last()) == Some(all[i]));
            }
        }
    }
}

/// A walk that is over stays over, with its prefix, its limit and what it
/// found.
pub proof fn walks_end(m: WalkModel)
    requires
        m.next() is None,
    ensures
        m.over().next() is None,
        m.over().over() == m.over(),
        !m.full() ==> m.over().to_visit.len() == 0 && !m.over().may_descend,
        !m.full() && m.may_descend ==> m.over().next_round.len() == 0,
        m.over().prefix == m.prefix,
        m.over().max_urls == m.max_urls,
        m.over().found == m.found,
{
}

/// No sitemap has its turn twice.
pub proof fn sitemaps_are_visited_once(m: WalkModel)
    requires
        m.valid(),
    ensures
        m.next() matches Some(n) ==> !m.visited.contains(n.0) && n.1.visited.contains(n.0),
{
    lemma_first_unvisited_range(m.to_visit, m.visited);
    lemma_first_unvisited_range(m.next_round, m.visited);
    if m.next() is Some {
        let n = m.next()->0;
        assert(n.1.visited[m.visited.len() as int] == n.0);
    }
}

/// Sitemaps that sitemaps list are followed one level deep: once the walk has
/// gone down, nothing leads further.
pub proof fn walks_descend_once(m: WalkModel)
    requires
        !m.may_descend,
        first_unvisited(m.to_visit, m.visited) is None,
    ensures
        m.next() is None,
{
}

/// What is found is never lost, and never more than the walk may find.
pub proof fn found_pages_are_kept(m: WalkModel, url: Seq<char>)
    requires
        m.valid(),
    ensures
        m.found.is_prefix_of(m.with_page(url).found),
        m.with_page(url).found.len() <= m.max_urls,
        !m.full() ==> m.with_page(url).found.contains(url),
{
    let f = m.with_page(url).found;
    assert(f.subrange(0, m.found.len() as int) =~= m.found);
    if !m.full() && !m.found.contains(url) {
        assert(f[m.found.len() as int] == url);
    }
}

/// Every URL that a sitemap lists and whose canonical form falls under the
/// prefix is handed on in that form.
pub proof fn every_listed_page_is_handed_on(urls: Seq<Seq<char>>, prefix: Seq<char>, i: int)
    requires
        0 <= i < urls.len(),
    ensures
        match normalized(urls[i]) {
            Some(n) => in_prefix(n, prefix) ==> pages_in_prefix(urls, prefix).contains(n),
            None => true,
        },
    decreases urls.len(),
{
    let front = pages_in_prefix(urls.drop_last(), prefix);
    let all = pages_in_prefix(urls, prefix);
    if let Some(n) = normalized(urls[i]) {
        if in_prefix(n, prefix) {
            if i < urls.len() - 1 {
                every_listed_page_is_handed_on(urls.drop_last(), prefix, i);
                let k = choose|k: int| 0 <= k < front.len() && front[k] == n;
                assert(all[k] == n);
            } else {
                assert(all[front.len() as int] == n);
            }
        }
    }
}

/// One URL is handed on where its canonical form falls under the prefix, and
/// nothing else is; of two lists, what the first gives comes before what the
/// second gives.
pub proof fn listed_pages_are_handed_on_in_order(
    url: Seq<char>,
    a: Seq<Seq<char>>,
    b: Seq<Seq<char>>,
    prefix: Seq<char>,
)
    ensures
        pages_in_prefix(seq![url], prefix) == (match normalized(url) {
            Some(n) => if in_prefix(n, prefix) {
                seq![n]
            } else {
                Seq::empty()
            },
            None => Seq::empty(),
        }),
        pages_in_prefix(a + b, prefix) == pages_in_prefix(a, prefix) + pages_in_prefix(b, prefix),
    decreases b.len(),
{
    let one = seq![url];
    assert(one.drop_last() =~= Seq::<Seq<char>>::empty());
    assert(one.last() == url);
    assert(pages_in_prefix(one.drop_last(), prefix) =~= Seq::<Seq<char>>::empty());
    if b.len() == 0 {
        assert(a + b =~= a);
        assert(pages_in_prefix(a, prefix) + pages_in_prefix(b, prefix) =~= pages_in_prefix(
            a,
            prefix,
        ));
    } else {
        listed_pages_are_handed_on_in_order(url, a, b.drop_last(), prefix);
        assert((a + b).drop_last() =~= a + b.drop_last());
        assert((a + b).last() == b.last());
        assert(pages_in_prefix(a + b, prefix) =~= pages_in_prefix(a, prefix) + pages_in_prefix(
            b,
            prefix,
        ));
    }
}

proof fn lemma_colon_at(qname: Seq<u8>, i: int)
    requires
        0 <= i,
    ensures
        match colon_at(qname, i) {
            Some(k) => i <= k < qname.len() && qname[k] == 58 && forall|j: int|
                i <= j < k ==> qname[j] != 58,
            None => forall|j: int| i <= j < qname.len() ==> qname[j] != 58,
        },
    decreases qname.len() - i,
{
    if i < qname.len() && qname[i] != 58 {
        lemma_colon_at(qname, i + 1);
    }
}

/// A namespace prefix, up to the first colon, does not matter to a name.
pub proof fn namespaces_do_not_matter(space: Seq<u8>, name: Seq<u8>)
    requires
        forall|i: int| 0 <= i < space.len() ==> space[i] != 58,
    ensures
        local_part(space.push(58) + name) == name,
        local_part(space) == space,
{
    let all = space.push(58) + name;
    lemma_colon_at(all, 0);
    lemma_colon_at(space, 0);
    assert(all[space.len() as int] == 58);
    let k = colon_at(all, 0)->0;
    if k < space.len() {
        assert(all[k] == space[k]);
    }
    assert(all.skip((space.len() + 1) as int) =~= name);
}

/// The piece at `k` opens a `loc` element that is still open behind `i` pieces.
pub open spec fn opens_loc(events: Seq<EventModel>, k: int, i: int) -> bool {
    &&& 0 <= k < i <= events.len()
    &&& events[k] matches EventModel::Start(n) && local_part(n) == loc_name()
    &&& forall|j: int|
        k < j < i ==> !((#[trigger] events[j]) matches EventModel::End(n) && local_part(n)
            == loc_name())
}

proof fn lemma_inside_loc(events: Seq<EventModel>, i: int)
    requires
        0 <= i <= events.len(),
    ensures
        inside_loc(events.take(i)) <==> exists|k: int| opens_loc(events, k, i),
    decreases i,
{
    if i == 0 {
        assert(events.take(0) =~= Seq::<EventModel>::empty());
    } else {
        let front = events.take(i);
        assert(front.drop_last() =~= events.take(i - 1));
        assert(front.last() == events[i - 1]);
        lemma_inside_loc(events, i - 1);
        let prev: int = i - 1;
        if exists|k: int| opens_loc(events, k, prev) {
            let k = choose|k: int| opens_loc(events, k, prev);
            if !(events[i - 1] matches EventModel::End(n) && local_part(n) == loc_name()) {
                assert(opens_loc(events, k, i));
            }
        }
        if exists|k: int| opens_loc(events, k, i) {
            let k = choose|k: int| opens_loc(events, k, i);
            if k < i - 1 {
                assert(opens_loc(events, k, i - 1));
            }
        }
        if events[i - 1] matches EventModel::Start(n) && local_part(n) == loc_name() {
            assert(opens_loc(events, i - 1, i));
        }
    }
}

/// Every text in a `loc` element is listed, trimmed, unless it is blank.
pub proof fn every_location_is_listed(events: Seq<EventModel>, k: int, i: int)
    requires
        0 <= i < events.len(),
        opens_loc(events, k, i),
        events[i] is Text && events[i]->Text_0 is Some,
        trimmed(events[i]->Text_0->0).len() > 0,
    ensures
        loc_texts(events).contains(trimmed(events[i]->Text_0->0)),
    decreases events.len(),
{
    let t = trimmed(events[i]->Text_0->0);
    let before = events.drop_last();
    let front = loc_texts(before);
    let all = loc_texts(events);
    if i < events.len() - 1 {
        assert(opens_loc(before, k, i)) by {
            assert(before[k] == events[k]);
            assert forall|j: int| k < j < i implies !((#[trigger] before[j]) matches EventModel::End(
                n,
            ) && local_part(n) == loc_name()) by {
                assert(before[j] == events[j]);
            }
        }
        assert(before[i] == events[i]);
        every_location_is_listed(before, k, i);
        let m = choose|m: int| 0 <= m < front.len() && front[m] == t;
        assert(all[m] == t);
    } else {
        lemma_inside_loc(events, i);
        assert(events.take(i) =~= before);
        assert(all[front.len() as int] == t);
    }
}

/// Nothing but the texts in `loc` elements is listed: another piece lists
/// nothing, and a text lists itself, trimmed, behind what was listed before.
pub proof fn only_locations_are_listed(events: Seq<EventModel>, e: EventModel)
    ensures
        loc_texts(Seq::empty()).len() == 0,
        loc_texts(events.push(e)) == (match e {
            EventModel::Text(Some(t)) => if (exists|k: int|
                opens_loc(events, k, events.len() as int)) && trimmed(t).len() > 0 {
                loc_texts(events).push(trimmed(t))
            } else {
                loc_texts(events)
            },
            _ => loc_texts(events),
        }),
{
    assert(events.push(e).drop_last() =~= events);
    lemma_inside_loc(events, events.len() as int);
    assert(events.take(events.len() as int) =~= events);
}

/// The first element that starts decides what a document is.
pub proof fn the_first_element_is_the_root(events: Seq<EventModel>, i: int, from: int)
    requires
        0 <= from <= i < events.len(),
        events[i] is Start,
        forall|j: int| from <= j < i ==> !(#[trigger] events[j] is Start),
    ensures
        root_name(events, from) == Some(local_part(events[i]->Start_0)),
    decreases i - from,
{
    if from < i {
        assert(!(events[from] is Start));
        the_first_element_is_the_root(events, i, from + 1);
    }
}

/// All sitemaps that the robots rules name are looked at, in their order, and
/// so is the conventional one of the site.
pub proof fn named_sitemaps_are_looked_at(named: Seq<Seq<char>>, seed: Seq<char>)
    ensures
        named.is_prefix_of(candidates(named, seed)),
        site_sitemap(seed) matches Some(d) ==> candidates(named, seed).contains(d),
        candidates(named, seed).len() <= named.len() + 1,
        forall|i: int|
            0 <= i < candidates(named, seed).len() ==> named.contains(
                #[trigger] candidates(named, seed)[i],
            ) || site_sitemap(seed) == Some(candidates(named, seed)[i]),
{
    let all = candidates(named, seed);
    assert(all.subrange(0, named.len() as int) =~= named);
    if let Some(d) = site_sitemap(seed) {
        if !named.contains(d) {
            assert(all[named.len() as int] == d);
        }
    }
    assert forall|i: int| 0 <= i < all.len() implies named.contains(#[trigger] all[i])
        || site_sitemap(seed) == Some(all[i]) by {
        if i < named.len() {
            assert(all[i] == named[i]);
        }
    }
}

/// A walk starts with all sitemaps it is given, as many as it may fetch, and
/// with nothing found.
pub proof fn walks_start_with_all_sitemaps(
    sitemaps: Seq<Seq<char>>,
    prefix: Seq<char>,
    max_urls: nat,
)
    ensures
        ({
            let m = WalkModel::started(sitemaps, prefix, max_urls);
            &&& m.to_visit.is_prefix_of(sitemaps)
            &&& sitemaps.len() <= MAX_SITEMAPS_PER_TARGET ==> m.to_visit == sitemaps
            &&& sitemaps.len() > MAX_SITEMAPS_PER_TARGET ==> m.to_visit.len()
                == MAX_SITEMAPS_PER_TARGET
            &&& m.prefix == prefix && m.max_urls == max_urls && m.may_descend
            &&& m.visited.len() == 0 && m.found.len() == 0 && m.next_round.len() == 0 && m.fetched
                == 0
        }),
{
    let m = WalkModel::started(sitemaps, prefix, max_urls);
    assert(sitemaps.subrange(0, m.to_visit.len() as int) =~= m.to_visit);
}

proof fn lemma_none_unvisited(urls: Seq<Seq<char>>, visited: Seq<Seq<char>>)
    requires
        first_unvisited(urls, visited) is None,
    ensures
        forall|i: int| 0 <= i < urls.len() ==> visited.contains(#[trigger] urls[i]),
    decreases urls.len(),
{
    if urls.len() > 0 {
        let rest = urls.drop_first();
        lemma_none_unvisited(rest, visited);
        assert forall|i: int| 0 <= i < urls.len() implies visited.contains(#[trigger] urls[i]) by {
            if i > 0 {
                assert(rest[i - 1] == urls[i]);
            }
        }
    }
}

/// A walk that may find more does not end before every sitemap of the round had
/// its turn, and every one of the next round where there may be one.
pub proof fn every_sitemap_has_its_turn(m: WalkModel, i: int)
    requires
        m.next() is None,
        m.found.len() < m.max_urls,
    ensures
        0 <= i < m.to_visit.len() ==> m.visited.contains(m.to_visit[i]),
        m.may_descend && 0 <= i < m.next_round.len() ==> m.visited.contains(m.next_round[i]),
{
    lemma_none_unvisited(m.to_visit, m.visited);
    if m.may_descend {
        lemma_none_unvisited(m.next_round, m.visited);
    }
}

/// The sitemaps of a round have their turn in their order, and those of the
/// next round only when none of this one is left.
pub proof fn sitemaps_have_their_turn_in_order(m: WalkModel, i: int)
    requires
        m.found.len() < m.max_urls,
        0 <= i < m.to_visit.len(),
        !m.visited.contains(m.to_visit[i]),
        forall|j: int| 0 <= j < i ==> m.visited.contains(#[trigger] m.to_visit[j]),
    ensures
        match m.next() {
            Some(n) => {
                &&& n.0 == m.to_visit[i]
                &&& n.1.to_visit == m.to_visit.skip(i + 1)
                &&& n.1.next_round == m.next_round
                &&& n.1.visited == m.visited.push(m.to_visit[i])
                &&& n.1.found == m.found
                &&& n.1.fetched == m.fetched
            },
            None => false,
        },
{
    lemma_first_unvisited(m.to_visit, m.visited, i);
}

/// A sitemap that another lists is kept for the next round where it had no turn
/// yet and there is room for it; what was kept stays, and of two lists the first
/// comes first.
pub proof fn listed_sitemaps_are_kept(
    round: Seq<Seq<char>>,
    visited: Seq<Seq<char>>,
    child: Seq<char>,
    a: Seq<Seq<char>>,
    b: Seq<Seq<char>>,
)
    ensures
        round_after(round, visited, seq![child]) == (if !visited.contains(child) && round.len()
            + visited.len() < MAX_SITEMAPS_PER_TARGET {
            round.push(child)
        } else {
            round
        }),
        round_after(round, visited, a + b) == round_after(
            round_after(round, visited, a),
            visited,
            b,
        ),
        round.is_prefix_of(round_after(round, visited, b)),
    decreases b.len(),
{
    let one = seq![child];
    assert(one.drop_last() =~= Seq::<Seq<char>>::empty());
    assert(one.last() == child);
    assert(round_after(round, visited, one.drop_last()) == round);
    if b.len() == 0 {
        assert(a + b =~= a);
        assert(round.subrange(0, round.len() as int) =~= round);
    } else {
        listed_sitemaps_are_kept(round, visited, child, a, b.drop_last());
        assert((a + b).drop_last() =~= a + b.drop_last());
        assert((a + b).last() == b.last());
        let before = round_after(round, visited, b.drop_last());
        let after = round_after(round, visited, b);
        assert(after.subrange(0, round.len() as int) =~= before.subrange(0, round.len() as int));
    }
}

/// A page that is offered is found, as long as there is room, once; nothing else
/// is found and nothing is lost.
pub proof fn offered_pages_are_found(m: WalkModel, url: Seq<char>)
    ensures
        m.found.len() < m.max_urls && !m.found.contains(url) ==> m.with_page(url).found
            == m.found.push(url),
        m.found.len() >= m.max_urls || m.found.contains(url) ==> m.with_page(url) == m,
        m.with_page(url).to_visit == m.to_visit,
        m.with_page(url).next_round == m.next_round,
        m.with_page(url).visited == m.visited,
        m.with_page(url).fetched == m.fetched,
{
}

/// When no sitemap of the round is left, those of the next round have their turn
/// in their order, and there is no further round.
pub proof fn the_next_round_follows(m: WalkModel, i: int)
    requires
        m.found.len() < m.max_urls,
        m.may_descend,
        forall|j: int| 0 <= j < m.to_visit.len() ==> m.visited.contains(#[trigger] m.to_visit[j]),
        0 <= i < m.next_round.len(),
        !m.visited.contains(m.next_round[i]),
        forall|j: int| 0 <= j < i ==> m.visited.contains(#[trigger] m.next_round[j]),
    ensures
        match m.next() {
            Some(n) => {
                &&& n.0 == m.next_round[i]
                &&& n.1.to_visit == m.next_round.skip(i + 1)
                &&& n.1.next_round.len() == 0
                &&& !n.1.may_descend
                &&& n.1.visited == m.visited.push(m.next_round[i])
                &&& n.1.found == m.found
                &&& n.1.fetched == m.fetched
            },
            None => false,
        },
{
    lemma_first_unvisited(m.to_visit, m.visited, m.to_visit.len() as int);
    lemma_first_unvisited(m.next_round, m.visited, i);
}

/// No more than twenty sitemaps are fetched for a target, and none is read beyond
/// ten mebibytes.
pub proof fn sitemaps_are_bounded(m: WalkModel)
    requires
        m.valid(),
    ensures
        m.fetched <= 20,
        MAX_SITEMAPS_PER_TARGET == 20,
        MAX_SITEMAP_BYTES == 10 * 1024 * 1024,
{
}

/// A document is an index of sitemaps exactly where its root element is named so,
/// and lists its locations either way.
pub proof fn documents_are_told_by_their_root(events: Seq<EventModel>, r: ParsedSitemap)
    requires
        sitemap_of_events(events, r),
    ensures
        r is Index <==> root_name(events, 0) == Some(
            seq![115u8, 105, 116, 101, 109, 97, 112, 105, 110, 100, 101, 120],
        ),
        match r {
            ParsedSitemap::Index(l) => l.deep_view() == loc_texts(events),
            ParsedSitemap::Urls(l) => l.deep_view() == loc_texts(events),
        },
        loc_name() == seq![108u8, 111, 99],
{
    assert(sitemapindex_name() =~= seq![
        115u8,
        105,
        116,
        101,
        109,
        97,
        112,
        105,
        110,
        100,
        101,
        120,
    ]);
    assert(loc_name() =~= seq![108u8, 111, 99]);
}

/// The conventional sitemap of a site stands at its root.
pub proof fn sites_have_their_sitemap_at_the_root(seed: Seq<char>, host: Seq<char>)
    requires
        url_text(seed) is Some,
        url_host(seed) == Some(host),
        url_port(seed) is None,
    ensures
        site_sitemap(seed) == Some(url_scheme(seed) + "://"@ + host + "/sitemap.xml"@),
{
    let origin = url_scheme(seed) + "://"@ + host;
    assert(origin + Seq::<char>::empty() =~= origin);
}

/// Every page that a walk found is the canonical form of some URL and stands
/// under the prefix of the walk, and none was found twice.
pub proof fn found_pages_stand_under_the_prefix(m: WalkModel, i: int)
    requires
        m.valid(),
        0 <= i < m.found.len(),
    ensures
        in_prefix(m.found[i], m.prefix),
        exists|u: Seq<char>| #[trigger] normalized(u) == Some(m.found[i]),
        forall|j: int| 0 <= j < m.found.len() && j != i ==> #[trigger] m.found[j] != m.found[i],
{
    assert(is_usable(m.found[i], m.prefix));
}

} // verus!
