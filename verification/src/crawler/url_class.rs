//! Classification of URLs: the canonical form under which a page is stored,
//! membership in a crawl target, and hosts that are never worth suggesting.

use vstd::prelude::*;
use crate::text::{
    char_at, chars_of, comes_before, ends_with, find_char, lemma_char_at,
    lemma_text_le_transitive, lemma_text_lt_asymmetric, lemma_text_lt_irreflexive,
    lemma_text_lt_total, lower, same_text, same_text_ignoring_case, slice_text, stands_at,
    stands_at_chars, starts_with, text_le, to_lower,
};
use crate::crawler::url_parts::{
    clear_url, is_web_url, parse_url, url_cleared, url_fragment, url_host, url_password, url_port,
    url_query, url_query_pairs, url_scheme, url_text, url_username, url_with_pairs, write_pairs,
};

verus! {

/// A decoded query pair.
pub type QueryPair = (Seq<char>, Seq<char>);

// ---------------------------------------------------------------------------
// Tracking parameters
// ---------------------------------------------------------------------------

/// Query parameters that carry attribution only and never affect the content
/// that the server returns.
pub open spec fn tracking_params() -> Seq<Seq<char>> {
    seq![
        "utm_source"@,
        "utm_medium"@,
        "utm_campaign"@,
        "utm_term"@,
        "utm_content"@,
        "utm_id"@,
        "utm_name"@,
        "utm_reader"@,
        "utm_referrer"@,
        "gclid"@,
        "dclid"@,
        "_ga"@,
        "fbclid"@,
        "msclkid"@,
        "li_fat_id"@,
        "yclid"@,
        "ttclid"@,
        "mc_cid"@,
        "mc_eid"@,
        "_hsenc"@,
        "_hsmi"@,
        "__hssc"@,
        "__hstc"@,
        "hsCtaTracking"@,
        "ref"@,
        "ref_src"@,
        "ref_url"@,
        "igshid"@,
        "oly_anon_id"@,
        "oly_enc_id"@,
        "wickedid"@,
        "guce_referrer"@,
    ]
}

/// `name` is a tracking parameter, whatever the case of its letters.
pub open spec fn is_tracking(name: Seq<char>) -> bool {
    exists|i: int|
        0 <= i < tracking_params().len() && lower(#[trigger] tracking_params()[i]) == lower(name)
}

fn tracking_param_list() -> (r: Vec<&'static str>)
    ensures
        r.deep_view() == tracking_params(),
{
    let r = vec![
        "utm_source",
        "utm_medium",
        "utm_campaign",
        "utm_term",
        "utm_content",
        "utm_id",
        "utm_name",
        "utm_reader",
        "utm_referrer",
        "gclid",
        "dclid",
        "_ga",
        "fbclid",
        "msclkid",
        "li_fat_id",
        "yclid",
        "ttclid",
        "mc_cid",
        "mc_eid",
        "_hsenc",
        "_hsmi",
        "__hssc",
        "__hstc",
        "hsCtaTracking",
        "ref",
        "ref_src",
        "ref_url",
        "igshid",
        "oly_anon_id",
        "oly_enc_id",
        "wickedid",
        "guce_referrer",
    ];
    assert(r.deep_view() =~= tracking_params());
    r
}

/// Whether `name` is a query parameter that only tracks.
pub fn is_tracking_param(name: &str) -> (r: bool)
    ensures
        r == is_tracking(name@),
{
    let names = tracking_param_list();
    let mut i: usize = 0;
    while i < names.len()
        invariant
            i <= names.len(),
            names.deep_view() == tracking_params(),
            forall|j: int| 0 <= j < i ==> lower(#[trigger] tracking_params()[j]) != lower(name@),
        decreases names.len() - i,
    {
        assert(names.deep_view()[i as int] == names@[i as int]@);
        if same_text_ignoring_case(names[i], name) {
            return true;
        }
        i = i + 1;
    }
    false
}

// ---------------------------------------------------------------------------
// Order of query pairs
// ---------------------------------------------------------------------------

/// `p` put into `sorted` behind every pair whose key does not come after it.
pub open spec fn insert_pair(sorted: Seq<QueryPair>, p: QueryPair) -> Seq<QueryPair>
    decreases sorted.len(),
{
    if sorted.len() == 0 || text_le(sorted.last().0, p.0) {
        sorted.push(p)
    } else {
        insert_pair(sorted.drop_last(), p).push(sorted.last())
    }
}

/// The pairs in the order of their keys; pairs with one key keep their order.
pub open spec fn sort_pairs(pairs: Seq<QueryPair>) -> Seq<QueryPair>
    decreases pairs.len(),
{
    if pairs.len() == 0 {
        pairs
    } else {
        insert_pair(sort_pairs(pairs.drop_last()), pairs.last())
    }
}

/// The keys of `pairs` never go down.
pub open spec fn pairs_sorted(pairs: Seq<QueryPair>) -> bool {
    forall|i: int, j: int| 0 <= i < j < pairs.len() ==> text_le(pairs[i].0, pairs[j].0)
}

/// The pairs that stay in a canonical query, in their order.
pub open spec fn kept_pairs(pairs: Seq<QueryPair>) -> Seq<QueryPair> {
    sort_pairs(pairs.filter(|p: QueryPair| !is_tracking(p.0)))
}

fn insert_sorted(v: &mut Vec<(String, String)>, p: (String, String))
    ensures
        final(v).deep_view() == insert_pair(old(v).deep_view(), p.deep_view()),
{
    let ghost before = v.deep_view();
    let ghost q = p.deep_view();
    let mut k: usize = v.len();
    assert(before.take(k as int) =~= before);
    assert(insert_pair(before.take(k as int), q) + before.skip(k as int) =~= insert_pair(before, q));
    while k > 0 && comes_before(p.0.as_str(), v[k - 1].0.as_str())
        invariant
            k <= v.len(),
            before == v.deep_view(),
            q == p.deep_view(),
            insert_pair(before, q) == insert_pair(before.take(k as int), q) + before.skip(k as int),
        decreases k,
    {
        proof {
            let t = before.take(k as int);
            assert(t.drop_last() =~= before.take(k - 1));
            assert(t.last() == before[k - 1]);
            assert(before[k - 1].0 == v@[k - 1].0@);
            assert(insert_pair(t, q) + before.skip(k as int) =~= insert_pair(
                before.take(k - 1),
                q,
            ) + before.skip(k - 1));
        }
        k = k - 1;
    }
    proof {
        let t = before.take(k as int);
        if k > 0 {
            assert(t.last() == before[k - 1]);
            assert(before[k - 1].0 == v@[k - 1].0@);
        }
        assert(insert_pair(t, q) == t.push(q));
    }
    v.insert(k, p);
    assert(v.deep_view() =~= before.take(k as int).push(q) + before.skip(k as int));
}

fn canonical_pairs(pairs: Vec<(String, String)>) -> (r: Vec<(String, String)>)
    ensures
        r.deep_view() == kept_pairs(pairs.deep_view()),
{
    let ghost all = pairs.deep_view();
    let ghost keep = |p: QueryPair| !is_tracking(p.0);
    let mut r: Vec<(String, String)> = Vec::new();
    let mut i: usize = 0;
    assert(r.deep_view() =~= Seq::<QueryPair>::empty());
    assert(all.take(0) =~= Seq::<QueryPair>::empty());
    while i < pairs.len()
        invariant
            i <= pairs.len(),
            all == pairs.deep_view(),
            keep == (|p: QueryPair| !is_tracking(p.0)),
            r.deep_view() == sort_pairs(all.take(i as int).filter(keep)),
        decreases pairs.len() - i,
    {
        proof {
            assert(all.take(i + 1) =~= all.take(i as int).push(all[i as int]));
            all.take(i as int).lemma_filter_push(all[i as int], keep);
            assert(all[i as int] == (pairs@[i as int].0@, pairs@[i as int].1@));
            let f = all.take(i as int).filter(keep);
            assert(f.push(all[i as int]).drop_last() =~= f);
        }
        if !is_tracking_param(pairs[i].0.as_str()) {
            let p = (pairs[i].0.clone(), pairs[i].1.clone());
            insert_sorted(&mut r, p);
        }
        i = i + 1;
    }
    assert(all.take(all.len() as int) =~= all);
    r
}

// ---------------------------------------------------------------------------
// Canonical form
// ---------------------------------------------------------------------------

/// `port` is the one that `scheme` uses anyway.
pub open spec fn is_default_port(scheme: Seq<char>, port: Option<u16>) -> bool {
    ||| scheme == "http"@ && port == Some(80u16)
    ||| scheme == "https"@ && port == Some(443u16)
}

/// The port of `input`, unless its scheme uses it anyway.
pub open spec fn kept_port(input: Seq<char>) -> Option<u16> {
    if is_default_port(url_scheme(input), url_port(input)) {
        None
    } else {
        url_port(input)
    }
}

/// The canonical form of `input`, where it is a URL: without fragment, user
/// name, password and default port, and with the pairs that stay for a query;
/// without a query where none stays.
pub open spec fn normalized(input: Seq<char>) -> Option<Seq<char>> {
    if url_text(input) is None {
        None
    } else if url_query(input) is None || kept_pairs(url_query_pairs(input)).len() == 0 {
        url_cleared(input, kept_port(input))
    } else {
        url_with_pairs(input, kept_port(input), kept_pairs(url_query_pairs(input)))
    }
}

/// `n` is in canonical form: it is its own canonical form, and has no
/// fragment, no user name, no password and no default port. Its scheme is that
/// of `input`, and its query pairs are those of `input` that stay.
pub open spec fn is_canonical_form(n: Seq<char>, input: Seq<char>) -> bool {
    &&& normalized(n) == Some(n)
    &&& url_fragment(n) is None
    &&& url_username(n) == Seq::<char>::empty()
    &&& url_password(n) is None
    &&& !is_default_port(url_scheme(n), url_port(n))
    &&& url_scheme(n) == url_scheme(input)
    &&& url_query_pairs(n) == kept_pairs(url_query_pairs(input))
}

/// Where `n` is a web URL it is its own canonical form.
pub open spec fn is_settled(n: Seq<char>) -> bool {
    is_web_url(n) ==> normalized(n) == Some(n)
}

/// Each of the URLs that is a web URL is its own canonical form.
pub open spec fn all_settled(urls: Seq<Seq<char>>) -> bool {
    forall|i: int| 0 <= i < urls.len() ==> is_settled(#[trigger] urls[i])
}

/// Whether `port` is the one that `scheme` uses anyway.
pub fn default_port(scheme: &str, port: Option<u16>) -> (r: bool)
    ensures
        r == is_default_port(scheme@, port),
{
    match port {
        Some(p) => (p == 80 && same_text(scheme, "http")) || (p == 443 && same_text(
            scheme,
            "https",
        )),
        None => false,
    }
}

/// The canonical form of a URL: no fragment, no user name or password, no
/// default port, no tracking parameter, and the remaining parameters in the
/// order of their keys. `None` where `input` is not a URL.
///
/// A canonical form that is read as a web URL is its own canonical form.
pub fn normalize_url(input: &str) -> (r: Option<String>)
    ensures
        r.deep_view() == normalized(input@),
        r is Some <==> url_text(input@) is Some,
        r is Some && url_text(r->0@) is Some ==> url_scheme(r->0@) == url_scheme(input@),
        r is Some && is_web_url(r->0@) ==> is_canonical_form(r->0@, input@),
{
    match parse_url(input) {
        None => None,
        Some(u) => {
            let port: Option<u16> = if default_port(u.scheme.as_str(), u.port) {
                None
            } else {
                u.port
            };
            let kept = canonical_pairs(u.pairs);
            proof {
                canonical_queries_stay(url_query_pairs(input@));
                assert(kept.len() == kept.deep_view().len());
                assert(kept_pairs(Seq::empty()) =~= Seq::<QueryPair>::empty()) by {
                    Seq::<QueryPair>::empty().lemma_filter_len(|p: QueryPair| !is_tracking(p.0));
                }
                if u.query is None {
                    assert(url_query_pairs(input@) =~= Seq::<QueryPair>::empty());
                }
                if kept.len() == 0 {
                    assert(kept.deep_view() =~= Seq::<QueryPair>::empty());
                }
            }
            if u.query.is_none() || kept.len() == 0 {
                clear_url(input, port)
            } else {
                write_pairs(input, port, &kept)
            }
        },
    }
}

// ---------------------------------------------------------------------------
// Prefixes
// ---------------------------------------------------------------------------

/// `s` without a `www.` in front of its host. The host of a URL stands behind
/// its first colon and two slashes; what follows the host is left alone.
pub open spec fn without_www(s: Seq<char>) -> Seq<char> {
    match char_at(s, ':', 0) {
        Some(i) => if stands_at(s, "://www."@, i) {
            s.take(i + 3) + s.skip(i + 7)
        } else {
            s
        },
        None => s,
    }
}

/// `url` and `prefix` are URLs, and the canonical form of the first starts
/// with that of the second, a leading `www.` aside.
pub open spec fn in_prefix(url: Seq<char>, prefix: Seq<char>) -> bool {
    match (normalized(url), normalized(prefix)) {
        (Some(u), Some(p)) => without_www(p).is_prefix_of(without_www(u)),
        _ => false,
    }
}

/// Strips the `www.` from the host of a canonical URL.
pub fn strip_leading_www(normalized_url: &str) -> (r: String)
    ensures
        r@ == without_www(normalized_url@),
{
    let v = chars_of(normalized_url);
    let w = chars_of("://www.");
    proof {
        reveal_strlit("://www.");
    }
    let end: usize = v.len();
    match find_char(&v, ':') {
        Some(i) => if stands_at_chars(&v, &w, i) {
            assert(w@.len() == 7);
            let mut r = slice_text(&v, 0, i + 3);
            let rest = slice_text(&v, i + 7, end);
            r.push_str(rest.as_str());
            assert(v@.subrange(0, i + 3) =~= v@.take(i + 3));
            assert(v@.subrange(i + 7, v@.len() as int) =~= v@.skip(i + 7));
            r
        } else {
            normalized_url.to_owned()
        },
        None => normalized_url.to_owned(),
    }
}

/// Whether `url` falls under `prefix`. Both are brought to canonical form, and
/// a leading `www.` on the host counts as absent on either side. Scheme and
/// path are compared strictly.
pub fn is_in_prefix(url: &str, prefix: &str) -> (r: bool)
    ensures
        r == in_prefix(url@, prefix@),
{
    match normalize_url(url) {
        None => false,
        Some(u) => match normalize_url(prefix) {
            None => false,
            Some(p) => {
                let bare_url = strip_leading_www(u.as_str());
                let bare_prefix = strip_leading_www(p.as_str());
                starts_with(bare_url.as_str(), bare_prefix.as_str())
            },
        },
    }
}

// ---------------------------------------------------------------------------
// Hosts
// ---------------------------------------------------------------------------

/// Hosts of share buttons, image and avatar CDNs and video embeds: links to
/// them are never worth suggesting as crawl targets.
pub open spec fn blacklisted_hosts() -> Seq<Seq<char>> {
    seq![
        "bufferapp.com"@,
        "buffer.com"@,
        "facebook.com"@,
        "fb.com"@,
        "instagram.com"@,
        "linkedin.com"@,
        "mix.com"@,
        "odnoklassniki.ru"@,
        "ok.ru"@,
        "pinterest.com"@,
        "reddit.com"@,
        "t.co"@,
        "threads.net"@,
        "tiktok.com"@,
        "tumblr.com"@,
        "twitter.com"@,
        "vk.com"@,
        "whatsapp.com"@,
        "x.com"@,
        "xing.com"@,
        "fbcdn.net"@,
        "giphy.com"@,
        "googleusercontent.com"@,
        "gravatar.com"@,
        "imgur.com"@,
        "substackcdn.com"@,
        "twimg.com"@,
        "wp.com"@,
        "youtube.com"@,
        "youtu.be"@,
    ]
}

fn blacklisted_host_list() -> (r: Vec<&'static str>)
    ensures
        r.deep_view() == blacklisted_hosts(),
{
    let r = vec![
        "bufferapp.com",
        "buffer.com",
        "facebook.com",
        "fb.com",
        "instagram.com",
        "linkedin.com",
        "mix.com",
        "odnoklassniki.ru",
        "ok.ru",
        "pinterest.com",
        "reddit.com",
        "t.co",
        "threads.net",
        "tiktok.com",
        "tumblr.com",
        "twitter.com",
        "vk.com",
        "whatsapp.com",
        "x.com",
        "xing.com",
        "fbcdn.net",
        "giphy.com",
        "googleusercontent.com",
        "gravatar.com",
        "imgur.com",
        "substackcdn.com",
        "twimg.com",
        "wp.com",
        "youtube.com",
        "youtu.be",
    ];
    assert(r.deep_view() =~= blacklisted_hosts());
    r
}

/// `host` is `site` or one of its subdomains.
pub open spec fn belongs_to(host: Seq<char>, site: Seq<char>) -> bool {
    host == site || (seq!['.'] + site).is_suffix_of(host)
}

/// The lowercase `host` is blacklisted, itself or as a subdomain.
pub open spec fn host_blacklisted(host: Seq<char>) -> bool {
    exists|i: int|
        0 <= i < blacklisted_hosts().len() && belongs_to(host, #[trigger] blacklisted_hosts()[i])
}

/// `host` without a leading `www.`.
pub open spec fn bare_host(host: Seq<char>) -> Seq<char> {
    if "www."@.is_prefix_of(host) {
        host.skip(4)
    } else {
        host
    }
}

/// The lowercase host of the URL that `url` parses to, without `www.`.
pub open spec fn url_bare_host(url: Seq<char>) -> Option<Seq<char>> {
    match url_text(url) {
        None => None,
        Some(_) => match url_host(url) {
            None => None,
            Some(h) => Some(bare_host(lower(h))),
        },
    }
}

/// `url` parses, has a host, and that host is blacklisted.
pub open spec fn url_blacklisted(url: Seq<char>) -> bool {
    url_text(url) is Some && match url_host(url) {
        None => false,
        Some(h) => host_blacklisted(lower(h)),
    }
}

/// Strips a leading `www.` from a host.
pub fn strip_www(host: &str) -> (r: String)
    ensures
        r@ == bare_host(host@),
{
    if starts_with(host, "www.") {
        let v = chars_of(host);
        proof {
            reveal_strlit("www.");
        }
        let r = slice_text(&v, 4, v.len());
        assert(v@.subrange(4, v@.len() as int) =~= v@.skip(4));
        r
    } else {
        host.to_owned()
    }
}

/// Whether the lowercase `host` is on the blacklist, itself or as a subdomain
/// of a host that is.
pub fn is_blacklisted_host(host: &str) -> (r: bool)
    ensures
        r == host_blacklisted(host@),
{
    let sites = blacklisted_host_list();
    let mut i: usize = 0;
    while i < sites.len()
        invariant
            i <= sites.len(),
            sites.deep_view() == blacklisted_hosts(),
            forall|j: int| 0 <= j < i ==> !belongs_to(host@, #[trigger] blacklisted_hosts()[j]),
        decreases sites.len() - i,
    {
        assert(sites.deep_view()[i as int] == sites@[i as int]@);
        let mut dotted: String = String::new();
        dotted.push('.');
        dotted.push_str(sites[i]);
        assert(dotted@ =~= seq!['.'] + sites@[i as int]@);
        if same_text(host, sites[i]) || ends_with(host, dotted.as_str()) {
            return true;
        }
        i = i + 1;
    }
    false
}

/// The lowercase host of `url` with a leading `www.` stripped, which is a
/// presentation convention; other subdomains stay. `None` where `url` does not
/// parse or has no host.
pub fn host_of(url: &str) -> (r: Option<String>)
    ensures
        r.deep_view() == url_bare_host(url@),
{
    match parse_url(url) {
        None => None,
        Some(u) => match u.host {
            None => None,
            Some(h) => {
                let host = to_lower(h.as_str());
                Some(strip_www(host.as_str()))
            },
        },
    }
}

/// Whether the host of `url` is on the outlink blacklist or a subdomain of a
/// host that is.
pub fn is_blacklisted_outlink_host(url: &str) -> (r: bool)
    ensures
        r == url_blacklisted(url@),
{
    match parse_url(url) {
        None => false,
        Some(u) => match u.host {
            None => false,
            Some(h) => {
                let host = to_lower(h.as_str());
                is_blacklisted_host(host.as_str())
            },
        },
    }
}

// ---------------------------------------------------------------------------
// Laws
// ---------------------------------------------------------------------------

/// The case of a parameter's name does not matter to whether it tracks.
pub proof fn tracking_ignores_case(a: Seq<char>, b: Seq<char>)
    requires
        lower(a) == lower(b),
    ensures
        is_tracking(a) == is_tracking(b),
{
}

proof fn lemma_insert_pair(sorted: Seq<QueryPair>, p: QueryPair)
    requires
        pairs_sorted(sorted),
    ensures
        pairs_sorted(insert_pair(sorted, p)),
        insert_pair(sorted, p).len() == sorted.len() + 1,
        insert_pair(sorted, p).to_multiset() == sorted.to_multiset().insert(p),
        forall|i: int|
            0 <= i < sorted.len() + 1 ==> (#[trigger] insert_pair(sorted, p)[i] == p || exists|j: int|
                0 <= j < sorted.len() && sorted[j] == insert_pair(sorted, p)[i]),
    decreases sorted.len(),
{
    sorted.to_multiset_ensures();
    if sorted.len() == 0 || text_le(sorted.last().0, p.0) {
        let r = sorted.push(p);
        assert forall|i: int, j: int| 0 <= i < j < r.len() implies text_le(r[i].0, r[j].0) by {
            if j == sorted.len() && i < sorted.len() - 1 {
                lemma_text_le_transitive(r[i].0, sorted.last().0, p.0);
            }
        }
        assert forall|i: int| 0 <= i < sorted.len() + 1 implies (#[trigger] insert_pair(sorted, p)[i] == p
            || exists|j: int| 0 <= j < sorted.len() && sorted[j] == insert_pair(sorted, p)[i]) by {
            if i < sorted.len() {
                assert(sorted[i] == insert_pair(sorted, p)[i]);
            }
        }
    } else {
        let front = sorted.drop_last();
        lemma_insert_pair(front, p);
        let inner = insert_pair(front, p);
        let r = inner.push(sorted.last());
        lemma_text_lt_asymmetric(p.0, sorted.last().0);
        assert forall|i: int, j: int| 0 <= i < j < r.len() implies text_le(r[i].0, r[j].0) by {
            if j == inner.len() {
                if inner[i] != p {
                    let k = choose|k: int| 0 <= k < front.len() && front[k] == inner[i];
                    assert(text_le(sorted[k].0, sorted[sorted.len() - 1].0));
                }
            }
        }
        assert forall|i: int| 0 <= i < sorted.len() + 1 implies (#[trigger] insert_pair(sorted, p)[i] == p
            || exists|j: int| 0 <= j < sorted.len() && sorted[j] == insert_pair(sorted, p)[i]) by {
            if i < inner.len() {
                if inner[i] != p {
                    let k = choose|k: int| 0 <= k < front.len() && front[k] == inner[i];
                    assert(sorted[k] == inner[i]);
                }
            } else {
                assert(sorted[sorted.len() - 1] == r[i]);
            }
        }
        assert(sorted =~= front.push(sorted.last()));
        front.to_multiset_ensures();
        inner.to_multiset_ensures();
        assert(r.to_multiset() =~= front.to_multiset().insert(p).insert(sorted.last()));
        assert(sorted.to_multiset() =~= front.to_multiset().insert(sorted.last()));
        assert(r.to_multiset() =~= sorted.to_multiset().insert(p));
    }
}

/// The canonical order is the order of the keys, and no pair is lost, gained
/// or changed by it.
pub proof fn sort_pairs_sorts(pairs: Seq<QueryPair>)
    ensures
        pairs_sorted(sort_pairs(pairs)),
        sort_pairs(pairs).len() == pairs.len(),
        sort_pairs(pairs).to_multiset() == pairs.to_multiset(),
    decreases pairs.len(),
{
    if pairs.len() > 0 {
        let front = pairs.drop_last();
        sort_pairs_sorts(front);
        lemma_insert_pair(sort_pairs(front), pairs.last());
        assert(pairs =~= front.push(pairs.last()));
        front.to_multiset_ensures();
    }
}

proof fn lemma_insert_pair_key(sorted: Seq<QueryPair>, p: QueryPair, key: Seq<char>)
    requires
        pairs_sorted(sorted),
    ensures
        insert_pair(sorted, p).filter(|q: QueryPair| q.0 == key) == (if p.0 == key {
            sorted.filter(|q: QueryPair| q.0 == key).push(p)
        } else {
            sorted.filter(|q: QueryPair| q.0 == key)
        }),
    decreases sorted.len(),
{
    let has = |q: QueryPair| q.0 == key;
    if sorted.len() == 0 || text_le(sorted.last().0, p.0) {
        sorted.lemma_filter_push(p, has);
    } else {
        let front = sorted.drop_last();
        lemma_insert_pair_key(front, p, key);
        insert_pair(front, p).lemma_filter_push(sorted.last(), has);
        front.lemma_filter_push(sorted.last(), has);
        assert(sorted =~= front.push(sorted.last()));
        if sorted.last().0 == key && p.0 == key {
            lemma_text_lt_irreflexive(key);
        }
    }
}

/// Pairs that share a key keep the order in which they came.
pub proof fn sort_pairs_is_stable(pairs: Seq<QueryPair>, key: Seq<char>)
    ensures
        sort_pairs(pairs).filter(|q: QueryPair| q.0 == key) == pairs.filter(
            |q: QueryPair| q.0 == key,
        ),
    decreases pairs.len(),
{
    if pairs.len() > 0 {
        let front = pairs.drop_last();
        sort_pairs_is_stable(front, key);
        sort_pairs_sorts(front);
        lemma_insert_pair_key(sort_pairs(front), pairs.last(), key);
        front.lemma_filter_push(pairs.last(), |q: QueryPair| q.0 == key);
        assert(pairs =~= front.push(pairs.last()));
    }
}

/// No key occurs twice.
pub open spec fn keys_distinct(pairs: Seq<QueryPair>) -> bool {
    forall|i: int, j: int| 0 <= i < j < pairs.len() ==> pairs[i].0 != pairs[j].0
}

proof fn lemma_sorted_unique(a: Seq<QueryPair>, b: Seq<QueryPair>)
    requires
        pairs_sorted(a),
        pairs_sorted(b),
        keys_distinct(a),
        keys_distinct(b),
        a.to_multiset() == b.to_multiset(),
    ensures
        a == b,
    decreases a.len(),
{
    a.to_multiset_ensures();
    b.to_multiset_ensures();
    assert(a.len() == b.len());
    if a.len() == 0 {
        assert(a =~= b);
    } else {
        let n = a.len() as int;
        let x = a.last();
        let y = b.last();
        assert(a[n - 1] == x && b[n - 1] == y);
        assert(a.contains(x) && b.contains(y));
        assert(a.to_multiset().count(y) > 0 && b.to_multiset().count(x) > 0);
        assert(a.contains(y) && b.contains(x));
        let i = choose|i: int| 0 <= i < a.len() && a[i] == y;
        let j = choose|j: int| 0 <= j < b.len() && b[j] == x;
        if x != y {
            assert(i < n - 1 && j < n - 1);
            assert(text_le(y.0, x.0) && text_le(x.0, y.0));
            assert(a[i].0 != a[n - 1].0);
            lemma_text_lt_total(x.0, y.0);
        }
        let fa = a.drop_last();
        let fb = b.drop_last();
        fa.to_multiset_ensures();
        fb.to_multiset_ensures();
        assert(a =~= fa.push(x));
        assert(b =~= fb.push(x));
        assert(fa.to_multiset() =~= a.to_multiset().remove(x));
        assert(fb.to_multiset() =~= b.to_multiset().remove(x));
        lemma_sorted_unique(fa, fb);
    }
}

proof fn lemma_keys_distinct_of_sort(pairs: Seq<QueryPair>)
    requires
        keys_distinct(pairs),
    ensures
        keys_distinct(sort_pairs(pairs)),
{
    let s = sort_pairs(pairs);
    assert forall|i: int, j: int| 0 <= i < j < s.len() implies s[i].0 != s[j].0 by {
        if s[i].0 == s[j].0 {
            let key = s[i].0;
            let has = |q: QueryPair| q.0 == key;
            sort_pairs_is_stable(pairs, key);
            lemma_two_in_filter(s, has, i, j);
            lemma_few_in_filter(pairs, key);
        }
    }
}

proof fn lemma_two_in_filter(s: Seq<QueryPair>, has: spec_fn(QueryPair) -> bool, i: int, j: int)
    requires
        0 <= i < j < s.len(),
        has(s[i]),
        has(s[j]),
    ensures
        s.filter(has).len() >= 2,
{
    let a = s.take(j);
    assert(s =~= a + s.skip(j));
    Seq::filter_distributes_over_add(a, s.skip(j), has);
    a.lemma_filter_contains(has, i);
    s.skip(j).lemma_filter_contains(has, 0);
    assert(a[i] == s[i]);
    assert(s.skip(j)[0] == s[j]);
    assert(a.filter(has).contains(a[i]));
    assert(s.skip(j).filter(has).contains(s.skip(j)[0]));
}

proof fn lemma_few_in_filter(s: Seq<QueryPair>, key: Seq<char>)
    requires
        keys_distinct(s),
    ensures
        s.filter(|q: QueryPair| q.0 == key).len() <= 1,
        s.filter(|q: QueryPair| q.0 == key).len() == 1 ==> exists|i: int|
            0 <= i < s.len() && (#[trigger] s[i]).0 == key,
    decreases s.len(),
{
    let has = |q: QueryPair| q.0 == key;
    if s.len() == 0 {
        assert(s.filter(has).len() == 0) by {
            s.lemma_filter_len(has);
        }
    } else {
        let f = s.drop_last();
        assert(s =~= f.push(s.last()));
        f.lemma_filter_push(s.last(), has);
        lemma_few_in_filter(f, key);
        assert(s[s.len() - 1] == s.last());
        if f.filter(has).len() == 1 {
            let i = choose|i: int| 0 <= i < f.len() && (#[trigger] f[i]).0 == key;
            assert(s[i].0 == key);
        }
    }
}

proof fn lemma_filter_multiset(pairs: Seq<QueryPair>, keep: spec_fn(QueryPair) -> bool)
    ensures
        pairs.filter(keep).to_multiset() == pairs.to_multiset().filter(keep),
    decreases pairs.len(),
{
    pairs.to_multiset_ensures();
    if pairs.len() == 0 {
        pairs.lemma_filter_len(keep);
        pairs.filter(keep).to_multiset_ensures();
        assert(pairs.filter(keep).to_multiset() =~= pairs.to_multiset().filter(keep));
    } else {
        let front = pairs.drop_last();
        lemma_filter_multiset(front, keep);
        front.lemma_filter_push(pairs.last(), keep);
        front.to_multiset_ensures();
        front.filter(keep).to_multiset_ensures();
        assert(pairs =~= front.push(pairs.last()));
        assert(pairs.filter(keep).to_multiset() =~= pairs.to_multiset().filter(keep));
    }
}

proof fn lemma_filter_keys_distinct(pairs: Seq<QueryPair>, keep: spec_fn(QueryPair) -> bool)
    requires
        keys_distinct(pairs),
    ensures
        keys_distinct(pairs.filter(keep)),
        forall|i: int|
            0 <= i < pairs.filter(keep).len() ==> exists|j: int|
                0 <= j < pairs.len() && pairs[j] == #[trigger] pairs.filter(keep)[i],
    decreases pairs.len(),
{
    if pairs.len() == 0 {
        pairs.lemma_filter_len(keep);
    } else {
        let front = pairs.drop_last();
        let last = pairs.last();
        lemma_filter_keys_distinct(front, keep);
        front.lemma_filter_push(last, keep);
        assert(pairs =~= front.push(last));
        let kept = pairs.filter(keep);
        let before = front.filter(keep);
        assert forall|i: int| 0 <= i < kept.len() implies exists|j: int|
            0 <= j < pairs.len() && pairs[j] == #[trigger] kept[i] by {
            if i < before.len() {
                assert(kept[i] == before[i]);
                let j = choose|j: int| 0 <= j < front.len() && front[j] == before[i];
                assert(pairs[j] == kept[i]);
            } else {
                assert(pairs[pairs.len() - 1] == kept[i]);
            }
        }
        assert forall|i: int, j: int| 0 <= i < j < kept.len() implies kept[i].0 != kept[j].0 by {
            assert(kept[i] == before[i]);
            if j < before.len() {
                assert(kept[j] == before[j]);
            } else {
                let k = choose|k: int| 0 <= k < front.len() && front[k] == before[i];
                assert(pairs[k].0 != pairs[pairs.len() - 1].0);
            }
        }
    }
}

/// Two queries that differ only in the order of parameters with different
/// names have one canonical form.
pub proof fn query_order_is_irrelevant(a: Seq<QueryPair>, b: Seq<QueryPair>)
    requires
        keys_distinct(a),
        keys_distinct(b),
        a.to_multiset() == b.to_multiset(),
    ensures
        kept_pairs(a) == kept_pairs(b),
{
    let keep = |p: QueryPair| !is_tracking(p.0);
    let x = a.filter(keep);
    let y = b.filter(keep);
    lemma_filter_multiset(a, keep);
    lemma_filter_multiset(b, keep);
    lemma_filter_keys_distinct(a, keep);
    lemma_filter_keys_distinct(b, keep);
    sort_pairs_sorts(x);
    sort_pairs_sorts(y);
    lemma_keys_distinct_of_sort(x);
    lemma_keys_distinct_of_sort(y);
    lemma_sorted_unique(sort_pairs(x), sort_pairs(y));
}

/// A tracking parameter does not change the canonical form of a query,
/// wherever it stands.
pub proof fn tracking_params_are_irrelevant(a: Seq<QueryPair>, p: QueryPair, b: Seq<QueryPair>)
    requires
        is_tracking(p.0),
    ensures
        kept_pairs(a.push(p) + b) == kept_pairs(a + b),
{
    let keep = |p: QueryPair| !is_tracking(p.0);
    Seq::filter_distributes_over_add(a.push(p), b, keep);
    Seq::filter_distributes_over_add(a, b, keep);
    a.lemma_filter_push(p, keep);
}

proof fn lemma_sorted_pairs_stay(pairs: Seq<QueryPair>)
    requires
        pairs_sorted(pairs),
    ensures
        sort_pairs(pairs) == pairs,
    decreases pairs.len(),
{
    if pairs.len() > 0 {
        let front = pairs.drop_last();
        lemma_sorted_pairs_stay(front);
        assert(pairs =~= front.push(pairs.last()));
        if front.len() > 0 {
            assert(text_le(pairs[front.len() - 1].0, pairs[front.len() as int].0));
        }
    }
}

proof fn lemma_all_kept(pairs: Seq<QueryPair>, keep: spec_fn(QueryPair) -> bool)
    requires
        forall|i: int| 0 <= i < pairs.len() ==> keep(#[trigger] pairs[i]),
    ensures
        pairs.filter(keep) == pairs,
    decreases pairs.len(),
{
    if pairs.len() == 0 {
        pairs.lemma_filter_len(keep);
        assert(pairs.filter(keep) =~= pairs);
    } else {
        let front = pairs.drop_last();
        lemma_all_kept(front, keep);
        front.lemma_filter_push(pairs.last(), keep);
        assert(pairs[pairs.len() - 1] == pairs.last());
        assert(pairs =~= front.push(pairs.last()));
    }
}

/// A canonical query holds the parameters that do not track, each as often as
/// before, in the order of their keys.
pub proof fn canonical_queries_are_sorted(pairs: Seq<QueryPair>)
    ensures
        pairs_sorted(kept_pairs(pairs)),
        forall|i: int|
            0 <= i < kept_pairs(pairs).len() ==> !is_tracking(#[trigger] kept_pairs(pairs)[i].0),
        kept_pairs(pairs).to_multiset() == pairs.to_multiset().filter(
            |p: QueryPair| !is_tracking(p.0),
        ),
{
    let keep = |p: QueryPair| !is_tracking(p.0);
    sort_pairs_sorts(pairs.filter(keep));
    lemma_filter_multiset(pairs, keep);
    kept_pairs(pairs).to_multiset_ensures();
    assert forall|i: int| 0 <= i < kept_pairs(pairs).len() implies !is_tracking(
        #[trigger] kept_pairs(pairs)[i].0,
    ) by {
        let p = kept_pairs(pairs)[i];
        assert(kept_pairs(pairs).contains(p));
        assert(pairs.to_multiset().filter(keep).count(p) > 0);
    }
}

/// A canonical query is its own canonical form.
pub proof fn canonical_queries_stay(pairs: Seq<QueryPair>)
    ensures
        kept_pairs(kept_pairs(pairs)) == kept_pairs(pairs),
{
    let keep = |p: QueryPair| !is_tracking(p.0);
    let x = pairs.filter(keep);
    let s = kept_pairs(pairs);
    sort_pairs_sorts(x);
    x.to_multiset_ensures();
    s.to_multiset_ensures();
    assert forall|i: int| 0 <= i < s.len() implies keep(#[trigger] s[i]) by {
        assert(s.contains(s[i]));
        assert(x.to_multiset().count(s[i]) > 0);
        assert(x.contains(s[i]));
        let j = choose|j: int| 0 <= j < x.len() && x[j] == s[i];
        pairs.lemma_filter_pred(keep, j);
    }
    lemma_all_kept(s, keep);
    lemma_sorted_pairs_stay(s);
}

/// `www.` put in front of the host of `s`, whose first colon stands at `i`.
pub open spec fn with_www(s: Seq<char>, i: int) -> Seq<char> {
    s.take(i + 3) + "www."@ + s.skip(i + 3)
}

/// A URL with `www.` in front of its host and the one without count as the
/// same when prefixes are compared.
pub proof fn www_is_equivalent_to_bare_host(s: Seq<char>, i: int)
    requires
        char_at(s, ':', 0) == Some(i),
        stands_at(s, "://"@, i),
    ensures
        without_www(with_www(s, i)) == s,
{
    reveal_strlit("://");
    reveal_strlit("www.");
    reveal_strlit("://www.");
    let t = with_www(s, i);
    lemma_char_at(s, ':', 0);
    lemma_char_at(t, ':', 0);
    assert(s.subrange(i, i + 3)[0] == s[i]);
    assert(s.subrange(i, i + 3)[1] == s[i + 1]);
    assert(s.subrange(i, i + 3)[2] == s[i + 2]);
    assert forall|j: int| 0 <= j <= i implies t[j] == s[j] by {}
    let k = char_at(t, ':', 0)->0;
    assert(k == i) by {
        if k < i {
            assert(s[k] == t[k]);
        }
    }
    assert(t.subrange(i, i + 7) =~= "://www."@);
    assert(t.take(i + 3) + t.skip(i + 7) =~= s);
}

/// Only the host loses its `www.`: what follows it, a `://www.` in a path or a
/// query included, is left alone.
pub proof fn paths_are_left_alone(s: Seq<char>, rest: Seq<char>, i: int)
    requires
        char_at(s, ':', 0) == Some(i),
        i + 7 <= s.len(),
    ensures
        without_www(s + rest) == without_www(s) + rest,
{
    reveal_strlit("://www.");
    let t = s + rest;
    lemma_char_at(s, ':', 0);
    lemma_char_at(t, ':', 0);
    let k = char_at(t, ':', 0)->0;
    assert(t[i] == s[i]);
    assert(k == i) by {
        if k < i {
            assert(s[k] == t[k]);
        }
    }
    assert(t.subrange(i, i + 7) =~= s.subrange(i, i + 7));
    assert(t.take(i + 3) + t.skip(i + 7) =~= s.take(i + 3) + s.skip(i + 7) + rest);
}

/// Membership in a prefix depends on a URL only through its canonical form
/// with `www.` removed.
pub proof fn in_prefix_ignores_www(a: Seq<char>, b: Seq<char>, prefix: Seq<char>)
    requires
        normalized(a) is Some,
        normalized(b) is Some,
        without_www(normalized(a)->0) == without_www(normalized(b)->0),
    ensures
        in_prefix(a, prefix) == in_prefix(b, prefix),
        in_prefix(prefix, a) == in_prefix(prefix, b),
{
}

/// Every URL falls under itself, and falling under is transitive.
pub proof fn in_prefix_is_a_preorder(a: Seq<char>, b: Seq<char>, c: Seq<char>)
    ensures
        normalized(a) is Some ==> in_prefix(a, a),
        in_prefix(a, b) && in_prefix(b, c) ==> in_prefix(a, c),
{
    if in_prefix(a, b) && in_prefix(b, c) {
        let x = without_www(normalized(a)->0);
        let y = without_www(normalized(b)->0);
        let z = without_www(normalized(c)->0);
        assert(x.subrange(0, z.len() as int) =~= y.subrange(0, z.len() as int)) by {
            assert forall|k: int| 0 <= k < z.len() implies x[k] == y[k] by {
                assert(x.subrange(0, y.len() as int)[k] == x[k]);
            }
        }
    }
}

/// A subdomain of a blacklisted host is blacklisted.
pub proof fn blacklist_covers_subdomains(host: Seq<char>, label: Seq<char>)
    requires
        host_blacklisted(host),
    ensures
        host_blacklisted(label + seq!['.'] + host),
{
    let i = choose|i: int|
        0 <= i < blacklisted_hosts().len() && belongs_to(host, #[trigger] blacklisted_hosts()[i]);
    let site = blacklisted_hosts()[i];
    let sub = label + seq!['.'] + host;
    let dotted = seq!['.'] + site;
    if host == site {
        assert(sub.subrange(sub.len() - dotted.len(), sub.len() as int) =~= dotted);
    } else {
        let n = host.len() as int;
        assert(host.subrange(n - dotted.len(), n) == dotted);
        assert(sub.subrange(sub.len() - dotted.len(), sub.len() as int) =~= host.subrange(
            n - dotted.len(),
            n,
        ));
    }
    assert(belongs_to(sub, blacklisted_hosts()[i]));
}

/// `name` is that of a parameter that only tracks.
pub open spec fn names_tracker(name: Seq<char>) -> bool {
    ||| name == lower("utm_source"@)
    ||| name == lower("utm_medium"@)
    ||| name == lower("utm_campaign"@)
    ||| name == lower("utm_term"@)
    ||| name == lower("utm_content"@)
    ||| name == lower("utm_id"@)
    ||| name == lower("utm_name"@)
    ||| name == lower("utm_reader"@)
    ||| name == lower("utm_referrer"@)
    ||| name == lower("gclid"@)
    ||| name == lower("dclid"@)
    ||| name == lower("_ga"@)
    ||| name == lower("fbclid"@)
    ||| name == lower("msclkid"@)
    ||| name == lower("li_fat_id"@)
    ||| name == lower("yclid"@)
    ||| name == lower("ttclid"@)
    ||| name == lower("mc_cid"@)
    ||| name == lower("mc_eid"@)
    ||| name == lower("_hsenc"@)
    ||| name == lower("_hsmi"@)
    ||| name == lower("__hssc"@)
    ||| name == lower("__hstc"@)
    ||| name == lower("hsCtaTracking"@)
    ||| name == lower("ref"@)
    ||| name == lower("ref_src"@)
    ||| name == lower("ref_url"@)
    ||| name == lower("igshid"@)
    ||| name == lower("oly_anon_id"@)
    ||| name == lower("oly_enc_id"@)
    ||| name == lower("wickedid"@)
    ||| name == lower("guce_referrer"@)
}

/// The names of parameters that campaigns, advertisements and mailings put into
/// links all track, in whatever case they are written, and no other name does.
pub proof fn known_trackers_track(name: Seq<char>)
    ensures
        is_tracking(name) <==> names_tracker(lower(name)),
{
    let l = tracking_params();
    let n = lower(name);
    assert(l[0] == "utm_source"@);
    assert(l[1] == "utm_medium"@);
    assert(l[2] == "utm_campaign"@);
    assert(l[3] == "utm_term"@);
    assert(l[4] == "utm_content"@);
    assert(l[5] == "utm_id"@);
    assert(l[6] == "utm_name"@);
    assert(l[7] == "utm_reader"@);
    assert(l[8] == "utm_referrer"@);
    assert(l[9] == "gclid"@);
    assert(l[10] == "dclid"@);
    assert(l[11] == "_ga"@);
    assert(l[12] == "fbclid"@);
    assert(l[13] == "msclkid"@);
    assert(l[14] == "li_fat_id"@);
    assert(l[15] == "yclid"@);
    assert(l[16] == "ttclid"@);
    assert(l[17] == "mc_cid"@);
    assert(l[18] == "mc_eid"@);
    assert(l[19] == "_hsenc"@);
    assert(l[20] == "_hsmi"@);
    assert(l[21] == "__hssc"@);
    assert(l[22] == "__hstc"@);
    assert(l[23] == "hsCtaTracking"@);
    assert(l[24] == "ref"@);
    assert(l[25] == "ref_src"@);
    assert(l[26] == "ref_url"@);
    assert(l[27] == "igshid"@);
    assert(l[28] == "oly_anon_id"@);
    assert(l[29] == "oly_enc_id"@);
    assert(l[30] == "wickedid"@);
    assert(l[31] == "guce_referrer"@);
    if is_tracking(name) {
        let i = choose|i: int| 0 <= i < l.len() && lower(#[trigger] l[i]) == n;
        assert(lower(l[i]) == n);
    }
}

/// `host` belongs to a service for sharing, images or videos.
pub open spec fn is_of_a_service(host: Seq<char>) -> bool {
    ||| belongs_to(host, "bufferapp.com"@)
    ||| belongs_to(host, "buffer.com"@)
    ||| belongs_to(host, "facebook.com"@)
    ||| belongs_to(host, "fb.com"@)
    ||| belongs_to(host, "instagram.com"@)
    ||| belongs_to(host, "linkedin.com"@)
    ||| belongs_to(host, "mix.com"@)
    ||| belongs_to(host, "odnoklassniki.ru"@)
    ||| belongs_to(host, "ok.ru"@)
    ||| belongs_to(host, "pinterest.com"@)
    ||| belongs_to(host, "reddit.com"@)
    ||| belongs_to(host, "t.co"@)
    ||| belongs_to(host, "threads.net"@)
    ||| belongs_to(host, "tiktok.com"@)
    ||| belongs_to(host, "tumblr.com"@)
    ||| belongs_to(host, "twitter.com"@)
    ||| belongs_to(host, "vk.com"@)
    ||| belongs_to(host, "whatsapp.com"@)
    ||| belongs_to(host, "x.com"@)
    ||| belongs_to(host, "xing.com"@)
    ||| belongs_to(host, "fbcdn.net"@)
    ||| belongs_to(host, "giphy.com"@)
    ||| belongs_to(host, "googleusercontent.com"@)
    ||| belongs_to(host, "gravatar.com"@)
    ||| belongs_to(host, "imgur.com"@)
    ||| belongs_to(host, "substackcdn.com"@)
    ||| belongs_to(host, "twimg.com"@)
    ||| belongs_to(host, "wp.com"@)
    ||| belongs_to(host, "youtube.com"@)
    ||| belongs_to(host, "youtu.be"@)
}

/// The hosts of services for sharing, images and videos are blacklisted with all
/// that stands below them, and no other host is.
pub proof fn known_services_are_blacklisted(host: Seq<char>)
    ensures
        host_blacklisted(host) <==> is_of_a_service(host),
{
    let l = blacklisted_hosts();
    assert(l[0] == "bufferapp.com"@);
    assert(l[1] == "buffer.com"@);
    assert(l[2] == "facebook.com"@);
    assert(l[3] == "fb.com"@);
    assert(l[4] == "instagram.com"@);
    assert(l[5] == "linkedin.com"@);
    assert(l[6] == "mix.com"@);
    assert(l[7] == "odnoklassniki.ru"@);
    assert(l[8] == "ok.ru"@);
    assert(l[9] == "pinterest.com"@);
    assert(l[10] == "reddit.com"@);
    assert(l[11] == "t.co"@);
    assert(l[12] == "threads.net"@);
    assert(l[13] == "tiktok.com"@);
    assert(l[14] == "tumblr.com"@);
    assert(l[15] == "twitter.com"@);
    assert(l[16] == "vk.com"@);
    assert(l[17] == "whatsapp.com"@);
    assert(l[18] == "x.com"@);
    assert(l[19] == "xing.com"@);
    assert(l[20] == "fbcdn.net"@);
    assert(l[21] == "giphy.com"@);
    assert(l[22] == "googleusercontent.com"@);
    assert(l[23] == "gravatar.com"@);
    assert(l[24] == "imgur.com"@);
    assert(l[25] == "substackcdn.com"@);
    assert(l[26] == "twimg.com"@);
    assert(l[27] == "wp.com"@);
    assert(l[28] == "youtube.com"@);
    assert(l[29] == "youtu.be"@);
    if host_blacklisted(host) {
        let i = choose|i: int| 0 <= i < l.len() && belongs_to(host, #[trigger] l[i]);
        assert(belongs_to(host, l[i]));
    }
}

/// A host belongs to a site where it is the site, or where a dot and the site end
/// it.
pub proof fn subdomains_belong_to_their_site(label: Seq<char>, site: Seq<char>, host: Seq<char>)
    ensures
        belongs_to(site, site),
        belongs_to(label + seq!['.'] + site, site),
        belongs_to(host, site) && host != site ==> host.len() > site.len() && host[host.len()
            - site.len() - 1] == '.',
{
    let sub = label + seq!['.'] + site;
    let dotted = seq!['.'] + site;
    assert(sub.subrange(sub.len() - dotted.len(), sub.len() as int) =~= dotted);
    if belongs_to(host, site) && host != site {
        let n = host.len() as int;
        assert(host.subrange(n - dotted.len(), n)[0] == dotted[0]);
    }
}

/// A host stands for the same site with and without `www.` in front; nothing else
/// is taken from it.
pub proof fn hosts_lose_www_alone(host: Seq<char>)
    ensures
        bare_host("www."@ + host) == host,
        !"www."@.is_prefix_of(host) ==> bare_host(host) == host,
{
    reveal_strlit("www.");
    let all = "www."@ + host;
    assert(all.subrange(0, 4) =~= "www."@);
    assert(all.skip(4) =~= host);
}

/// The host of a URL counts in small letters and without `www.`; what has no host
/// has none.
pub proof fn urls_have_the_host_of_their_site(url: Seq<char>, host: Seq<char>)
    ensures
        url_text(url) is Some && url_host(url) == Some("www."@ + host) && lower(host) == host
            ==> url_bare_host(url) == Some(host),
        url_text(url) is Some && url_host(url) == Some(host) && lower(host) == host
            && !"www."@.is_prefix_of(host) ==> url_bare_host(url) == Some(host),
        url_text(url) is None || url_host(url) is None ==> url_bare_host(url) is None,
        url_text(url) is None || url_host(url) is None ==> !url_blacklisted(url),
        url_text(url) is Some && url_host(url) == Some(host) ==> url_blacklisted(url)
            == host_blacklisted(lower(host)),
{
    reveal_strlit("www.");
    hosts_lose_www_alone(host);
    let all = "www."@ + host;
    assert(lower(all) =~= "www."@ + lower(host));
}

/// A URL falls under a prefix exactly where its canonical form, `www.` aside,
/// goes on from that of the prefix.
pub proof fn urls_fall_under_their_start(url: Seq<char>, prefix: Seq<char>, rest: Seq<char>)
    requires
        normalized(url) is Some,
        normalized(prefix) is Some,
    ensures
        without_www(normalized(url)->0) == without_www(normalized(prefix)->0) + rest
            ==> in_prefix(url, prefix),
        in_prefix(url, prefix) ==> without_www(normalized(url)->0) == without_www(
            normalized(prefix)->0,
        ) + without_www(normalized(url)->0).skip(without_www(normalized(prefix)->0).len() as int),
{
    let u = without_www(normalized(url)->0);
    let p = without_www(normalized(prefix)->0);
    if u == p + rest {
        assert(u.subrange(0, p.len() as int) =~= p);
    }
    if in_prefix(url, prefix) {
        assert(u.subrange(0, p.len() as int) == p);
        assert(u =~= u.subrange(0, p.len() as int) + u.skip(p.len() as int));
    }
}

/// What is no URL falls under nothing, and nothing falls under it.
pub proof fn other_texts_fall_under_nothing(url: Seq<char>, prefix: Seq<char>)
    ensures
        normalized(url) is None || normalized(prefix) is None ==> !in_prefix(url, prefix),
{
}

/// A port that the scheme uses anyway is dropped, and any other is kept.
pub proof fn only_default_ports_are_dropped(url: Seq<char>)
    ensures
        url_scheme(url) == "http"@ && url_port(url) == Some(80u16) ==> kept_port(url) is None,
        url_scheme(url) == "https"@ && url_port(url) == Some(443u16) ==> kept_port(url) is None,
        url_port(url) is None ==> kept_port(url) is None,
        url_port(url) != Some(80u16) && url_port(url) != Some(443u16) ==> kept_port(url)
            == url_port(url),
        url_scheme(url) == "http"@ && url_port(url) == Some(443u16) ==> kept_port(url)
            == url_port(url),
        url_scheme(url) == "https"@ && url_port(url) == Some(80u16) ==> kept_port(url)
            == url_port(url),
{
    reveal_strlit("http");
    reveal_strlit("https");
    assert("http"@.len() != "https"@.len());
}

/// The canonical form of a URL keeps every parameter that does not track: one
/// that has such a parameter is written with it, and one that has none without a
/// query.
pub proof fn kept_parameters_are_written(url: Seq<char>, i: int)
    requires
        url_text(url) is Some,
        url_query(url) is Some,
    ensures
        0 <= i < url_query_pairs(url).len() && !is_tracking(url_query_pairs(url)[i].0)
            ==> kept_pairs(url_query_pairs(url)).contains(url_query_pairs(url)[i]) && normalized(url)
            == url_with_pairs(url, kept_port(url), kept_pairs(url_query_pairs(url))),
        (forall|k: int|
            0 <= k < url_query_pairs(url).len() ==> is_tracking(
                (#[trigger] url_query_pairs(url)[k]).0,
            )) ==> normalized(url) == url_cleared(url, kept_port(url)),
{
    let pairs = url_query_pairs(url);
    let kept = kept_pairs(pairs);
    let keep = |p: QueryPair| !is_tracking(p.0);
    canonical_queries_are_sorted(pairs);
    pairs.to_multiset_ensures();
    kept.to_multiset_ensures();
    if 0 <= i < pairs.len() && !is_tracking(pairs[i].0) {
        assert(pairs.contains(pairs[i]));
        assert(pairs.to_multiset().filter(keep).count(pairs[i]) > 0);
        assert(kept.contains(pairs[i]));
    }
    if forall|k: int| 0 <= k < pairs.len() ==> is_tracking((#[trigger] pairs[k]).0) {
        if kept.len() > 0 {
            assert(kept.contains(kept[0]));
            assert(pairs.to_multiset().filter(keep).count(kept[0]) > 0);
            assert(pairs.contains(kept[0]));
            let k = choose|k: int| 0 <= k < pairs.len() && pairs[k] == kept[0];
            assert(is_tracking(pairs[k].0));
        }
    }
}

proof fn lemma_first_colon(scheme: Seq<char>, all: Seq<char>)
    requires
        forall|i: int| 0 <= i < scheme.len() ==> scheme[i] != ':',
        scheme.len() < all.len(),
        forall|i: int| 0 <= i < scheme.len() ==> all[i] == scheme[i],
        all[scheme.len() as int] == ':',
    ensures
        char_at(all, ':', 0) == Some(scheme.len() as int),
{
    lemma_char_at(all, ':', 0);
    let i = char_at(all, ':', 0)->0;
    if i < scheme.len() {
        assert(all[i] == scheme[i]);
    }
}

proof fn lemma_www_goes(scheme: Seq<char>, rest: Seq<char>)
    requires
        forall|i: int| 0 <= i < scheme.len() ==> scheme[i] != ':',
    ensures
        without_www(scheme + "://www."@ + rest) == scheme + "://"@ + rest,
{
    reveal_strlit("://www.");
    reveal_strlit("://");
    let n = scheme.len() as int;
    let all = scheme + "://www."@ + rest;
    assert(all[n] == "://www."@[0]);
    lemma_first_colon(scheme, all);
    assert(all.subrange(n, n + 7) =~= "://www."@);
    assert(all.take(n + 3) =~= scheme + "://"@);
    assert(all.skip(n + 7) =~= rest);
}

proof fn lemma_bare_stays(scheme: Seq<char>, rest: Seq<char>)
    requires
        forall|i: int| 0 <= i < scheme.len() ==> scheme[i] != ':',
        !"www."@.is_prefix_of(rest),
    ensures
        without_www(scheme + "://"@ + rest) == scheme + "://"@ + rest,
{
    reveal_strlit("://www.");
    reveal_strlit("://");
    reveal_strlit("www.");
    let n = scheme.len() as int;
    let all = scheme + "://"@ + rest;
    assert(all[n] == "://"@[0]);
    lemma_first_colon(scheme, all);
    if stands_at(all, "://www."@, n) {
        let w = all.subrange(n, n + 7);
        assert(w[3] == rest[0] && w[4] == rest[1] && w[5] == rest[2] && w[6] == rest[3]);
        assert(rest.subrange(0, 4) =~= "www."@);
    }
}

/// The host of a URL stands behind its scheme, a colon and two slashes: a `www.`
/// is taken from there, and a URL whose host has none is left as it is.
pub proof fn only_hosts_lose_www(scheme: Seq<char>, rest: Seq<char>)
    requires
        forall|i: int| 0 <= i < scheme.len() ==> scheme[i] != ':',
    ensures
        without_www(scheme + "://www."@ + rest) == scheme + "://"@ + rest,
        !"www."@.is_prefix_of(rest) ==> without_www(scheme + "://"@ + rest) == scheme + "://"@
            + rest,
        without_www(scheme) == scheme,
{
    lemma_www_goes(scheme, rest);
    if !"www."@.is_prefix_of(rest) {
        lemma_bare_stays(scheme, rest);
    }
    lemma_char_at(scheme, ':', 0);
}

} // verus!
