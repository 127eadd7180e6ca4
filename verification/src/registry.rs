use vstd::prelude::*;

use crate::claims::{Claim, ClaimValueV};
use crate::json::entries_of;

verus! {

/// The claim map a sequence of key/value entries denotes: a later entry
/// overwrites an earlier one under the same key.
pub open spec fn entries_map(es: Seq<(Seq<char>, ClaimValueV)>) -> Map<Seq<char>, ClaimValueV>
    decreases es.len(),
{
    if es.len() == 0 {
        Map::empty()
    } else {
        entries_map(es.drop_last()).insert(es.last().0, es.last().1)
    }
}

/// Pairwise-distinct keys.
pub open spec fn distinct_keys(es: Seq<(Seq<char>, ClaimValueV)>) -> bool {
    forall|i: int, j: int| 0 <= i < j < es.len() ==> es[i].0 != es[j].0
}

proof fn lemma_distinct_drop_last(es: Seq<(Seq<char>, ClaimValueV)>)
    requires
        es.len() > 0,
        distinct_keys(es),
    ensures
        distinct_keys(es.drop_last()),
{
    assert forall|a: int, b: int|
        0 <= a < b < es.drop_last().len() implies es.drop_last()[a].0 != es.drop_last()[b].0 by {
        assert(es.drop_last()[a] == es[a]);
        assert(es.drop_last()[b] == es[b]);
    }
}

proof fn lemma_entries_map_update(es: Seq<(Seq<char>, ClaimValueV)>, i: int, v: ClaimValueV)
    requires
        0 <= i < es.len(),
        distinct_keys(es),
    ensures
        entries_map(es.update(i, (es[i].0, v))) == entries_map(es).insert(es[i].0, v),
    decreases es.len(),
{
    let k = es[i].0;
    let up = es.update(i, (k, v));
    if i == es.len() - 1 {
        assert(up.drop_last() =~= es.drop_last());
        assert(up.last() == (k, v));
        assert(entries_map(es.drop_last()).insert(k, v) =~= entries_map(es.drop_last()).insert(
            k,
            es.last().1,
        ).insert(k, v));
    } else {
        let last = es.last();
        assert(up.drop_last() =~= es.drop_last().update(i, (k, v)));
        assert(up.last() == last);
        assert(es.drop_last()[i] == es[i]);
        lemma_distinct_drop_last(es);
        lemma_entries_map_update(es.drop_last(), i, v);
        assert(k != last.0);
        assert(entries_map(es.drop_last()).insert(k, v).insert(last.0, last.1)
            =~= entries_map(es.drop_last()).insert(last.0, last.1).insert(k, v));
    }
}

/// Law: under pairwise-distinct keys the claim map reads the entries off
/// order-free: each entry's key is in the map and carries that entry's value.
pub proof fn lemma_distinct_entries_map(es: Seq<(Seq<char>, ClaimValueV)>, i: int)
    requires
        distinct_keys(es),
        0 <= i < es.len(),
    ensures
        entries_map(es).contains_key(es[i].0),
        entries_map(es)[es[i].0] == es[i].1,
    decreases es.len(),
{
    if i == es.len() - 1 {
    } else {
        lemma_distinct_drop_last(es);
        assert(es.drop_last()[i] == es[i]);
        lemma_distinct_entries_map(es.drop_last(), i);
        assert(es[i].0 != es.last().0);
    }
}

/// The claim map's domain is exactly the set of keys that occur.
pub proof fn lemma_entries_map_dom(es: Seq<(Seq<char>, ClaimValueV)>)
    ensures
        entries_map(es).dom() == Set::new(
            |k: Seq<char>| exists|i: int| 0 <= i < es.len() && es[i].0 == k,
        ),
    decreases es.len(),
{
    let target = Set::new(|k: Seq<char>| exists|i: int| 0 <= i < es.len() && es[i].0 == k);
    if es.len() == 0 {
        assert(entries_map(es).dom() =~= target);
    } else {
        lemma_entries_map_dom(es.drop_last());
        assert forall|k: Seq<char>| entries_map(es).dom().contains(k) implies target.contains(
            k,
        ) by {
            if k == es.last().0 {
                assert(es[es.len() - 1].0 == k);
            } else {
                let i = choose|i: int| 0 <= i < es.drop_last().len() && es.drop_last()[i].0 == k;
                assert(es[i].0 == k);
            }
        }
        assert forall|k: Seq<char>| target.contains(k) implies entries_map(es).dom().contains(
            k,
        ) by {
            let i = choose|i: int| 0 <= i < es.len() && es[i].0 == k;
            if i < es.len() - 1 {
                assert(es.drop_last()[i].0 == k);
            }
        }
        assert(entries_map(es).dom() =~= target);
    }
}

/// Law (order independence): two claim sequences with pairwise-distinct keys
/// and the same set of key/value pairs denote the same claim map, whatever
/// the order the claims were registered in.
pub proof fn lemma_claims_set_determines_map(
    a: Seq<(Seq<char>, ClaimValueV)>,
    b: Seq<(Seq<char>, ClaimValueV)>,
)
    requires
        distinct_keys(a),
        distinct_keys(b),
        a.to_set() == b.to_set(),
    ensures
        entries_map(a) == entries_map(b),
{
    lemma_entries_map_dom(a);
    lemma_entries_map_dom(b);
    let da = Set::new(|k: Seq<char>| exists|i: int| 0 <= i < a.len() && a[i].0 == k);
    let db = Set::new(|k: Seq<char>| exists|j: int| 0 <= j < b.len() && b[j].0 == k);
    assert forall|k: Seq<char>| da.contains(k) implies db.contains(k) by {
        let i = choose|i: int| 0 <= i < a.len() && a[i].0 == k;
        assert(a.to_set().contains(a[i]));
        assert(b.to_set().contains(a[i]));
        let j = choose|j: int| 0 <= j < b.len() && b[j] == a[i];
        assert(b[j].0 == k);
    }
    assert forall|k: Seq<char>| db.contains(k) implies da.contains(k) by {
        let j = choose|j: int| 0 <= j < b.len() && b[j].0 == k;
        assert(b.to_set().contains(b[j]));
        assert(a.to_set().contains(b[j]));
        let i = choose|i: int| 0 <= i < a.len() && a[i] == b[j];
        assert(a[i].0 == k);
    }
    assert(da =~= db);
    assert forall|k: Seq<char>| da.contains(k) implies entries_map(a)[k] == entries_map(b)[k] by {
        let i = choose|i: int| 0 <= i < a.len() && a[i].0 == k;
        lemma_distinct_entries_map(a, i);
        assert(a.to_set().contains(a[i]));
        assert(b.to_set().contains(a[i]));
        let j = choose|j: int| 0 <= j < b.len() && b[j] == a[i];
        lemma_distinct_entries_map(b, j);
    }
    assert(entries_map(a) =~= entries_map(b));
}

/// Law (last write wins): inserting twice under one key keeps only the later
/// value; the earlier one is gone from the map.
pub proof fn lemma_last_write_wins(
    m: Map<Seq<char>, ClaimValueV>,
    k: Seq<char>,
    v1: ClaimValueV,
    v2: ClaimValueV,
)
    ensures
        m.insert(k, v1).insert(k, v2) == m.insert(k, v2),
{
    assert(m.insert(k, v1).insert(k, v2) =~= m.insert(k, v2));
}

/// A mapping from claim key to claim, with unique keys; setting a claim under
/// an existing key overwrites, and draining empties the registry.
pub struct ClaimRegistry {
    items: Vec<Claim>,
}

impl ClaimRegistry {
    /// The stored claims, in their internal order.
    pub closed spec fn entries(self) -> Seq<(Seq<char>, ClaimValueV)> {
        entries_of(self.items@)
    }

    /// What the registry means: its claims as a map.
    pub open spec fn claims_map(self) -> Map<Seq<char>, ClaimValueV> {
        entries_map(self.entries())
    }

    /// Claim keys are unique within a registry at all times.
    pub open spec fn wf(self) -> bool {
        distinct_keys(self.entries())
    }

    /// An empty registry.
    pub fn new() -> (r: ClaimRegistry)
        ensures
            r.wf(),
            r.entries() == Seq::<(Seq<char>, ClaimValueV)>::empty(),
            r.claims_map() == Map::<Seq<char>, ClaimValueV>::empty(),
    {
        let r = ClaimRegistry { items: Vec::new() };
        proof {
            assert(r.entries() =~= Seq::<(Seq<char>, ClaimValueV)>::empty());
        }
        r
    }

    /// Insert or overwrite by the claim's key; always succeeds, and a prior
    /// claim under the same key is discarded.
    pub fn set(&mut self, claim: Claim)
        requires
            old(self).wf(),
        ensures
            final(self).wf(),
            final(self).claims_map() == old(self).claims_map().insert(claim@.0, claim@.1),
    {
        let ghost es = self.entries();
        let mut i: usize = 0;
        while i < self.items.len()
            invariant
                es == self.entries(),
                es == old(self).entries(),
                self.items@.len() == es.len(),
                distinct_keys(es),
                0 <= i <= es.len(),
                forall|j: int| 0 <= j < i ==> es[j].0 != claim@.0,
            decreases self.items@.len() - i,
        {
            let same_key: bool = *self.items[i].get_key() == *claim.get_key();
            if same_key {
                proof {
                    assert(es[i as int].0 == claim@.0);
                    lemma_entries_map_update(es, i as int, claim@.1);
                }
                self.items.set(i, claim);
                proof {
                    assert(self.entries() =~= es.update(i as int, (es[i as int].0, claim@.1)));
                    assert(self.claims_map() == old(self).claims_map().insert(claim@.0, claim@.1));
                    assert forall|a: int, b: int|
                        0 <= a < b < self.entries().len() implies self.entries()[a].0
                        != self.entries()[b].0 by {
                        assert(self.entries()[a].0 == es[a].0);
                        assert(self.entries()[b].0 == es[b].0);
                    }
                }
                return ;
            }
            i = i + 1;
        }
        self.items.push(claim);
        proof {
            assert(self.entries() =~= es.push(claim@));
            assert(self.entries().drop_last() =~= es);
            assert forall|a: int, b: int|
                0 <= a < b < self.entries().len() implies self.entries()[a].0
                != self.entries()[b].0 by {
                if b < es.len() {
                    assert(self.entries()[a] == es[a]);
                    assert(self.entries()[b] == es[b]);
                } else {
                    assert(self.entries()[a] == es[a]);
                    assert(self.entries()[b] == claim@);
                }
            }
        }
    }

    /// Hand out all stored claims, in no promised order, and leave the
    /// registry empty.
    pub fn drain(&mut self) -> (r: Vec<Claim>)
        requires
            old(self).wf(),
        ensures
            final(self).wf(),
            final(self).entries() == Seq::<(Seq<char>, ClaimValueV)>::empty(),
            final(self).claims_map() == Map::<Seq<char>, ClaimValueV>::empty(),
            entries_of(r@) == old(self).entries(),
            distinct_keys(entries_of(r@)),
    {
        let mut out: Vec<Claim> = Vec::new();
        core::mem::swap(&mut self.items, &mut out);
        proof {
            assert(self.entries() =~= Seq::<(Seq<char>, ClaimValueV)>::empty());
        }
        out
    }

    /// How many claims are stored.
    pub fn len(&self) -> (r: usize)
        ensures
            r == self.entries().len(),
    {
        self.items.len()
    }
}

} // verus!
