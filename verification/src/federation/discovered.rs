//! Engines that this one has heard of.

use vstd::prelude::*;
use crate::text::{
    comes_before, lemma_text_lt_asymmetric, lemma_text_lt_irreflexive, lemma_text_lt_total,
    lemma_text_lt_transitive, text_lt,
};

verus! {

/// An engine that was heard of.
#[derive(Debug, Clone, PartialEq, Eq)]
pub struct DiscoveredEngine {
    pub url: String,
    pub name: String,
    pub description: String,
    pub first_seen: i64,
    pub last_seen: i64,
}

pub struct EngineModel {
    pub url: Seq<char>,
    pub name: Seq<char>,
    pub description: Seq<char>,
    pub first_seen: i64,
    pub last_seen: i64,
}

impl DeepView for DiscoveredEngine {
    type V = EngineModel;

    open spec fn deep_view(&self) -> EngineModel {
        EngineModel {
            url: self.url@,
            name: self.name@,
            description: self.description@,
            first_seen: self.first_seen,
            last_seen: self.last_seen,
        }
    }
}

impl DiscoveredEngine {
    pub fn copy(&self) -> (r: DiscoveredEngine)
        ensures
            r.deep_view() == self.deep_view(),
    {
        DiscoveredEngine {
            url: self.url.clone(),
            name: self.name.clone(),
            description: self.description.clone(),
            first_seen: self.first_seen,
            last_seen: self.last_seen,
        }
    }
}

/// What storing `e` makes of what is stored for its URL: the first sighting
/// stays, the last one never goes back, name and description are replaced.
pub open spec fn stored_engine(existing: Option<EngineModel>, e: EngineModel) -> EngineModel {
    match existing {
        None => e,
        Some(old_engine) => EngineModel {
            first_seen: old_engine.first_seen,
            last_seen: if old_engine.last_seen > e.last_seen {
                old_engine.last_seen
            } else {
                e.last_seen
            },
            ..e
        },
    }
}

/// The entry to store for `e`, where `existing` is the one that is stored for
/// its URL.
pub fn upsert(existing: &Option<DiscoveredEngine>, e: DiscoveredEngine) -> (r: DiscoveredEngine)
    ensures
        r.deep_view() == stored_engine(existing.deep_view(), e.deep_view()),
{
    let mut r = e;
    match existing {
        Some(x) => {
            r.first_seen = x.first_seen;
            if x.last_seen > r.last_seen {
                r.last_seen = x.last_seen;
            }
        },
        None => {},
    }
    r
}

/// The entry for this engine itself, to be stored at every start.
pub fn ensure_self_entry(
    existing: &Option<DiscoveredEngine>,
    self_url: &str,
    name: &str,
    description: &str,
    now: i64,
) -> (r: DiscoveredEngine)
    ensures
        r.deep_view() == stored_engine(
            existing.deep_view(),
            EngineModel {
                url: self_url@,
                name: name@,
                description: description@,
                first_seen: now,
                last_seen: now,
            },
        ),
{
    upsert(
        existing,
        DiscoveredEngine {
            url: self_url.to_owned(),
            name: name.to_owned(),
            description: description.to_owned(),
            first_seen: now,
            last_seen: now,
        },
    )
}

/// However often an engine is stored, its first sighting stays and its last
/// one never goes back.
pub proof fn storing_keeps_the_first_sighting(existing: EngineModel, e: EngineModel)
    ensures
        stored_engine(Some(existing), e).first_seen == existing.first_seen,
        stored_engine(Some(existing), e).last_seen >= existing.last_seen,
        stored_engine(Some(existing), e).last_seen >= e.last_seen,
{
}

/// Storing an entry twice changes nothing more.
pub proof fn storing_is_idempotent(existing: Option<EngineModel>, e: EngineModel)
    ensures
        stored_engine(Some(stored_engine(existing, e)), e) == stored_engine(existing, e),
{
}

// ---------------------------------------------------------------------------
// Order
// ---------------------------------------------------------------------------

/// `a` is listed before `b`: it was seen later, or at the same time and its
/// URL comes first.
pub open spec fn listed_before(a: EngineModel, b: EngineModel) -> bool {
    a.last_seen > b.last_seen || (a.last_seen == b.last_seen && text_lt(a.url, b.url))
}

/// The list is in order, and so no engine occurs twice.
pub open spec fn in_order(s: Seq<EngineModel>) -> bool {
    forall|i: int, j: int| 0 <= i < j < s.len() ==> listed_before(#[trigger] s[i], #[trigger] s[j])
}

/// No URL occurs twice.
pub open spec fn urls_distinct(s: Seq<EngineModel>) -> bool {
    forall|i: int, j: int|
        0 <= i < j < s.len() ==> (#[trigger] s[i]).url != (#[trigger] s[j]).url
}

/// Both lists hold the same engines.
pub open spec fn same_engines(a: Seq<EngineModel>, b: Seq<EngineModel>) -> bool {
    forall|e: EngineModel| #[trigger] a.contains(e) <==> b.contains(e)
}

proof fn lemma_listed_before_transitive(a: EngineModel, b: EngineModel, c: EngineModel)
    requires
        listed_before(a, b),
        listed_before(b, c),
    ensures
        listed_before(a, c),
{
    if a.last_seen == b.last_seen && b.last_seen == c.last_seen {
        lemma_text_lt_transitive(a.url, b.url, c.url);
    }
}

fn comes_first(a: &DiscoveredEngine, b: &DiscoveredEngine) -> (r: bool)
    ensures
        r == listed_before(a.deep_view(), b.deep_view()),
{
    a.last_seen > b.last_seen || (a.last_seen == b.last_seen && comes_before(
        a.url.as_str(),
        b.url.as_str(),
    ))
}

fn insert_in_order(v: &mut Vec<DiscoveredEngine>, e: DiscoveredEngine)
    requires
        in_order(old(v).deep_view()),
        forall|i: int|
            0 <= i < old(v).len() ==> (#[trigger] old(v).deep_view()[i]).url != e.deep_view().url,
    ensures
        in_order(final(v).deep_view()),
        final(v).len() == old(v).len() + 1,
        forall|x: EngineModel| #[trigger]
            final(v).deep_view().contains(x) <==> x == e.deep_view() || old(v).deep_view().contains(x),
{
    let ghost before = v.deep_view();
    let ghost m = e.deep_view();
    let mut k: usize = 0;
    while k < v.len() && comes_first(&v[k], &e)
        invariant
            k <= v.len(),
            before == v.deep_view(),
            m == e.deep_view(),
            forall|i: int| 0 <= i < k ==> listed_before(#[trigger] before[i], m),
        decreases v.len() - k,
    {
        assert(before[k as int] == v@[k as int].deep_view());
        k = k + 1;
    }
    proof {
        if k < v.len() {
            let x = before[k as int];
            assert(x == v@[k as int].deep_view());
            if x.last_seen == m.last_seen {
                lemma_text_lt_total(x.url, m.url);
            }
            assert(listed_before(m, x));
        }
    }
    v.insert(k, e);
    proof {
        let after = v.deep_view();
        assert(after =~= before.insert(k as int, m));
        assert forall|i: int, j: int| 0 <= i < j < after.len() implies listed_before(
            #[trigger] after[i],
            #[trigger] after[j],
        ) by {
            if j == k {
                assert(after[i] == before[i]);
            } else if i == k {
                assert(after[j] == before[j - 1]);
                if j - 1 > k {
                    lemma_listed_before_transitive(m, before[k as int], before[j - 1]);
                }
            } else {
                let a = if i < k {
                    i
                } else {
                    i - 1
                };
                let b = if j < k {
                    j
                } else {
                    j - 1
                };
                assert(after[i] == before[a] && after[j] == before[b]);
            }
        }
        assert forall|x: EngineModel| #[trigger] after.contains(x) <==> x == m
            || before.contains(x) by {
            if after.contains(x) {
                let i = choose|i: int| 0 <= i < after.len() && after[i] == x;
                if i < k {
                    assert(before[i] == x);
                } else if i > k {
                    assert(before[i - 1] == x);
                }
            }
            if x == m {
                assert(after[k as int] == x);
            } else if before.contains(x) {
                let i = choose|i: int| 0 <= i < before.len() && before[i] == x;
                if i < k {
                    assert(after[i] == x);
                } else {
                    assert(after[i + 1] == x);
                }
            }
        }
    }
}

/// The engines in the order in which they are listed: the one seen last comes
/// first, and engines seen at the same time are listed by URL.
pub fn list(engines: Vec<DiscoveredEngine>) -> (r: Vec<DiscoveredEngine>)
    requires
        urls_distinct(engines.deep_view()),
    ensures
        r.len() == engines.len(),
        in_order(r.deep_view()),
        same_engines(r.deep_view(), engines.deep_view()),
{
    let ghost all = engines.deep_view();
    let mut r: Vec<DiscoveredEngine> = Vec::new();
    let mut i: usize = 0;
    while i < engines.len()
        invariant
            i <= engines.len(),
            all == engines.deep_view(),
            urls_distinct(all),
            r.len() == i,
            in_order(r.deep_view()),
            forall|x: EngineModel| #[trigger]
                r.deep_view().contains(x) <==> all.take(i as int).contains(x),
        decreases engines.len() - i,
    {
        let e = engines[i].copy();
        let ghost m = all[i as int];
        let ghost listed = r.deep_view();
        proof {
            assert(m == e.deep_view());
            assert forall|j: int| 0 <= j < r.len() implies (#[trigger] listed[j]).url != m.url by {
                assert(listed.contains(listed[j]));
                assert(all.take(i as int).contains(listed[j]));
                let k = choose|k: int|
                    0 <= k < all.take(i as int).len() && all.take(i as int)[k] == listed[j];
                assert(all[k].url != all[i as int].url);
            }
        }
        insert_in_order(&mut r, e);
        proof {
            let t = all.take(i + 1);
            assert forall|x: EngineModel| #[trigger] r.deep_view().contains(x) <==> t.contains(
                x,
            ) by {
                if r.deep_view().contains(x) {
                    if x == m {
                        assert(t[i as int] == x);
                    } else {
                        assert(all.take(i as int).contains(x));
                        let k = choose|k: int|
                            0 <= k < all.take(i as int).len() && all.take(i as int)[k] == x;
                        assert(t[k] == x);
                    }
                }
                if t.contains(x) {
                    let k = choose|k: int| 0 <= k < t.len() && t[k] == x;
                    if k < i {
                        assert(all.take(i as int)[k] == x);
                        assert(listed.contains(x));
                    }
                }
            }
        }
        i = i + 1;
    }
    assert(all.take(all.len() as int) =~= all);
    r
}

/// What is in order and holds the same engines is the same list: the order
/// leaves nothing open.
pub proof fn order_is_unique(a: Seq<EngineModel>, b: Seq<EngineModel>)
    requires
        in_order(a),
        in_order(b),
        same_engines(a, b),
    ensures
        a == b,
    decreases a.len(),
{
    if a.len() == 0 {
        if b.len() > 0 {
            assert(b.contains(b[0]));
            assert(a.contains(b[0]));
        }
        assert(a =~= b);
    } else {
        let x = a.last();
        assert(a[a.len() - 1] == x);
        assert(a.contains(x) && b.contains(x));
        let j = choose|j: int| 0 <= j < b.len() && b[j] == x;
        let y = b.last();
        assert(b[b.len() - 1] == y);
        assert(b.contains(y));
        assert(a.contains(y));
        let i = choose|i: int| 0 <= i < a.len() && a[i] == y;
        if x != y {
            assert(listed_before(a[i], a[a.len() - 1]));
            assert(listed_before(b[j], b[b.len() - 1]));
            if x.last_seen == y.last_seen {
                lemma_text_lt_asymmetric(x.url, y.url);
            }
        }
        let fa = a.drop_last();
        let fb = b.drop_last();
        assert forall|e: EngineModel| #[trigger] fa.contains(e) <==> fb.contains(e) by {
            if fa.contains(e) {
                let k = choose|k: int| 0 <= k < fa.len() && fa[k] == e;
                assert(a[k] == e && listed_before(a[k], a[a.len() - 1]));
                lemma_text_lt_irreflexive(e.url);
                assert(e != x);
                assert(a.contains(e));
                assert(b.contains(e));
                let m = choose|m: int| 0 <= m < b.len() && b[m] == e;
                assert(fb[m] == e);
            }
            if fb.contains(e) {
                let k = choose|k: int| 0 <= k < fb.len() && fb[k] == e;
                assert(b[k] == e && listed_before(b[k], b[b.len() - 1]));
                lemma_text_lt_irreflexive(e.url);
                assert(e != y);
                assert(b.contains(e));
                assert(a.contains(e));
                let m = choose|m: int| 0 <= m < a.len() && a[m] == e;
                assert(fa[m] == e);
            }
        }
        order_is_unique(fa, fb);
        assert(a =~= fa.push(x));
        assert(b =~= fb.push(y));
    }
}

/// A new engine is stored as it is; a known one takes name and description from
/// what is stored now, and the later of the two sightings.
pub proof fn stored_engines_are_up_to_date(existing: EngineModel, e: EngineModel)
    ensures
        stored_engine(None, e) == e,
        stored_engine(Some(existing), e).url == e.url,
        stored_engine(Some(existing), e).name == e.name,
        stored_engine(Some(existing), e).description == e.description,
        stored_engine(Some(existing), e).last_seen == existing.last_seen || stored_engine(
            Some(existing),
            e,
        ).last_seen == e.last_seen,
{
}

/// In a list in order, an engine that was seen later stands before one that was
/// seen earlier, and of two seen at one time the one whose URL comes first.
pub proof fn later_engines_come_first(s: Seq<EngineModel>, i: int, j: int)
    requires
        in_order(s),
        0 <= i < s.len(),
        0 <= j < s.len(),
        s[i].last_seen > s[j].last_seen || (s[i].last_seen == s[j].last_seen && text_lt(
            s[i].url,
            s[j].url,
        )),
    ensures
        i < j,
{
    if j < i {
        assert(listed_before(s[j], s[i]));
        if s[i].last_seen == s[j].last_seen {
            lemma_text_lt_asymmetric(s[i].url, s[j].url);
        }
    } else if i == j {
        lemma_text_lt_irreflexive(s[i].url);
    }
}

} // verus!
