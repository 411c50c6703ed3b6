//! Collections: rows, and how the administrator sees them.

use vstd::prelude::*;
use crate::ids::{is_id, new_id};
use crate::text::{
    comes_before, lemma_text_le_transitive, lemma_text_lt_asymmetric, lemma_text_lt_irreflexive,
    text_le, text_lt,
};

verus! {

/// A collection as it is stored. Times are kept as they are written.
#[derive(Debug, Clone, PartialEq, Eq)]
pub struct Collection {
    pub id: String,
    pub name: String,
    pub description: String,
    pub created_at: String,
    pub updated_at: String,
}

/// A collection, by the number of its row.
#[derive(Debug, Clone, PartialEq, Eq)]
pub struct CollectionRecord {
    pub id: i64,
    pub name: String,
    pub description: String,
}

/// A new collection to store.
pub fn create(name: &str, description: &str, now: &str) -> (r: Collection)
    ensures
        is_id(r.id@),
        r.name@ == name@,
        r.description@ == description@,
        r.created_at@ == now@,
        r.updated_at@ == now@,
{
    Collection {
        id: new_id(),
        name: name.to_owned(),
        description: description.to_owned(),
        created_at: now.to_owned(),
        updated_at: now.to_owned(),
    }
}

/// Renames and describes a collection anew. Its identity and the time it was
/// created stay.
pub fn update(collection: &mut Collection, name: &str, description: &str, now: &str)
    ensures
        final(collection).id == old(collection).id,
        final(collection).created_at == old(collection).created_at,
        final(collection).name@ == name@,
        final(collection).description@ == description@,
        final(collection).updated_at@ == now@,
{
    collection.name = name.to_owned();
    collection.description = description.to_owned();
    collection.updated_at = now.to_owned();
}

/// The records are ordered by name.
pub open spec fn by_name(s: Seq<CollectionRecord>) -> bool {
    forall|i: int, j: int|
        0 <= i < j < s.len() ==> text_le((#[trigger] s[i]).name@, (#[trigger] s[j]).name@)
}

fn insert_by_name(v: &mut Vec<CollectionRecord>, record: CollectionRecord)
    requires
        by_name(old(v)@),
    ensures
        by_name(final(v)@),
        final(v)@.to_multiset() == old(v)@.to_multiset().insert(record),
{
    let ghost before = v@;
    let mut k: usize = 0;
    while k < v.len() && !comes_before(record.name.as_str(), v[k].name.as_str())
        invariant
            k <= v.len(),
            v@ == before,
            forall|i: int| 0 <= i < k ==> text_le((#[trigger] before[i]).name@, record.name@),
        decreases v.len() - k,
    {
        k = k + 1;
    }
    v.insert(k, record);
    proof {
        let after = v@;
        assert(after =~= before.insert(k as int, record));
        assert(after.remove(k as int) =~= before);
        after.to_multiset_ensures();
        assert(after[k as int] == record);
        assert(after.contains(record));
        assert(after.to_multiset() =~= before.to_multiset().insert(record));
        assert forall|i: int, j: int| 0 <= i < j < after.len() implies text_le(
            (#[trigger] after[i]).name@,
            (#[trigger] after[j]).name@,
        ) by {
            if j == k {
                assert(after[i] == before[i]);
            } else if i == k {
                assert(after[j] == before[j - 1]);
                lemma_text_lt_asymmetric(record.name@, before[k as int].name@);
                if j - 1 > k {
                    lemma_text_le_transitive(
                        record.name@,
                        before[k as int].name@,
                        before[j - 1].name@,
                    );
                }
            } else {
                let a = if i < k {
                    i
                } else {
                    i - 1
                };
                let b = if j < k {
                    j
                } else {
                    j - 1
                };
                assert(after[i] == before[a] && after[j] == before[b]);
            }
        }
    }
}

/// All collections, ordered by name.
pub fn list_items(all: Vec<CollectionRecord>) -> (r: Vec<CollectionRecord>)
    ensures
        by_name(r@),
        r@.to_multiset() == all@.to_multiset(),
{
    let mut rest = all;
    let mut r: Vec<CollectionRecord> = Vec::new();
    assert(r@.to_multiset() =~= vstd::multiset::Multiset::empty()) by {
        r@.to_multiset_ensures();
    }
    while rest.len() > 0
        invariant
            by_name(r@),
            r@.to_multiset().add(rest@.to_multiset()) == all@.to_multiset(),
        decreases rest.len(),
    {
        let ghost before = rest@;
        let ghost listed = r@.to_multiset();
        if let Some(record) = rest.pop() {
            insert_by_name(&mut r, record);
            proof {
                assert(before =~= rest@.push(record));
                rest@.to_multiset_ensures();
                assert(before.to_multiset() =~= rest@.to_multiset().insert(record));
                assert(r@.to_multiset().add(rest@.to_multiset()) =~= listed.add(
                    before.to_multiset(),
                ));
            }
        }
    }
    proof {
        rest@.to_multiset_ensures();
        assert(rest@ =~= Seq::empty());
        assert(r@.to_multiset().add(rest@.to_multiset()) =~= r@.to_multiset());
    }
    r
}

/// In a list by name, the name that comes first stands first.
pub proof fn names_come_in_order(s: Seq<CollectionRecord>, i: int, j: int)
    requires
        by_name(s),
        0 <= i < s.len(),
        0 <= j < s.len(),
        text_lt(s[i].name@, s[j].name@),
    ensures
        i < j,
{
    if j < i {
        assert(text_le(s[j].name@, s[i].name@));
    } else if i == j {
        lemma_text_lt_irreflexive(s[i].name@);
    }
}

} // verus!
