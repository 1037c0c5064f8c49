//! The ingredient library the cart looks ingredients up in.

use vstd::prelude::*;

use crate::ids::IngredientId;
use crate::ingredient::{same_ingredient, Ingredient};

verus! {

/// The ingredient library, keyed by id: at most one ingredient per key, and
/// filing under a key replaces whatever was filed there.
#[derive(Debug, Default)]
pub struct IngredientIndex {
    entries: Vec<(IngredientId, Ingredient)>,
}

impl Clone for IngredientIndex {
    /// The same ids, each with the same values.
    fn clone(&self) -> (r: Self)
        ensures
            forall|k: Seq<char>| #[trigger] same_filing(r.spec_get(k), self.spec_get(k)),
    {
        self.copy()
    }
}

/// No key is filed twice among `entries`.
pub open spec fn distinct_keys(entries: Seq<(IngredientId, Ingredient)>) -> bool {
    forall|i: int, j: int| 0 <= i < j < entries.len() ==> (#[trigger] entries[i]).0@ != (#[trigger] entries[j]).0@
}

/// The ingredient filed under `id` among `entries`, the first one filed.
pub open spec fn filed(entries: Seq<(IngredientId, Ingredient)>, id: Seq<char>) -> Option<
    Ingredient,
>
    decreases entries.len(),
{
    if entries.len() == 0 {
        None
    } else if entries[0].0@ == id {
        Some(entries[0].1)
    } else {
        filed(entries.drop_first(), id)
    }
}

proof fn lemma_filed_at(entries: Seq<(IngredientId, Ingredient)>, id: Seq<char>, i: int)
    requires
        0 <= i < entries.len(),
        entries[i].0@ == id,
        forall|j: int| 0 <= j < i ==> (#[trigger] entries[j]).0@ != id,
    ensures
        filed(entries, id) == Some(entries[i].1),
    decreases entries.len(),
{
    if i > 0 {
        let rest = entries.drop_first();
        assert forall|j: int| 0 <= j < i - 1 implies (#[trigger] rest[j]).0@ != id by {
            assert(rest[j] == entries[j + 1]);
        }
        lemma_filed_at(rest, id, i - 1);
    }
}

proof fn lemma_filed_absent(entries: Seq<(IngredientId, Ingredient)>, id: Seq<char>)
    requires
        forall|j: int| 0 <= j < entries.len() ==> (#[trigger] entries[j]).0@ != id,
    ensures
        filed(entries, id) is None,
    decreases entries.len(),
{
    if entries.len() > 0 {
        let rest = entries.drop_first();
        assert forall|j: int| 0 <= j < rest.len() implies (#[trigger] rest[j]).0@ != id by {
            assert(rest[j] == entries[j + 1]);
        }
        lemma_filed_absent(rest, id);
    }
}

impl IngredientIndex {
    #[verifier::type_invariant]
    closed spec fn keys_distinct(self) -> bool {
        distinct_keys(self.entries@)
    }

    pub closed spec fn entries(self) -> Seq<(IngredientId, Ingredient)> {
        self.entries@
    }

    /// The ids filed, in filing order.
    pub closed spec fn keys(self) -> Seq<Seq<char>> {
        self.entries@.map_values(|e: (IngredientId, Ingredient)| e.0@)
    }

    /// The ingredient filed under `id`.
    pub open spec fn spec_get(self, id: Seq<char>) -> Option<Ingredient> {
        filed(self.entries(), id)
    }

    pub fn new() -> (r: IngredientIndex)
        ensures
            forall|k: Seq<char>| r.spec_get(k) is None,
    {
        IngredientIndex { entries: Vec::new() }
    }

    fn find(&self, id: &IngredientId) -> (r: Option<usize>)
        ensures
            r matches Some(i) ==> {
                &&& 0 <= i < self.entries().len()
                &&& self.entries()[i as int].0@ == id@
                &&& forall|j: int| 0 <= j < i ==> (#[trigger] self.entries()[j]).0@ != id@
            },
            r is None ==> forall|j: int|
                0 <= j < self.entries().len() ==> (#[trigger] self.entries()[j]).0@ != id@,
    {
        let mut i: usize = 0;
        while i < self.entries.len()
            invariant
                i <= self.entries@.len(),
                forall|j: int| 0 <= j < i ==> (#[trigger] self.entries@[j]).0@ != id@,
            decreases self.entries@.len() - i,
        {
            if self.entries[i].0.same(id) {
                return Some(i);
            }
            i = i + 1;
        }
        None
    }

    /// The ingredient filed under `id`, if any.
    pub fn get(&self, id: &IngredientId) -> (r: Option<&Ingredient>)
        ensures
            r matches Some(x) ==> self.spec_get(id@) == Some(*x),
            r is None ==> self.spec_get(id@) is None,
    {
        match self.find(id) {
            Some(i) => {
                proof {
                    lemma_filed_at(self.entries(), id@, i as int);
                }
                Some(&self.entries[i].1)
            },
            None => {
                proof {
                    lemma_filed_absent(self.entries(), id@);
                }
                None
            },
        }
    }

    pub fn contains_key(&self, id: &IngredientId) -> (b: bool)
        ensures
            b == self.spec_get(id@) is Some,
    {
        self.get(id).is_some()
    }

    /// Files `ingredient` under `id`, replacing any earlier one.
    pub fn insert(&mut self, id: IngredientId, ingredient: Ingredient)
        ensures
            final(self).spec_get(id@) == Some(ingredient),
            forall|k: Seq<char>| k != id@ ==> final(self).spec_get(k) == old(self).spec_get(k),
    {
        proof {
            use_type_invariant(&*self);
        }
        let ghost key = id@;
        let ghost before = self.entries@;
        let found = self.find(&id);
        let mut es: Vec<(IngredientId, Ingredient)> = Vec::new();
        std::mem::swap(&mut es, &mut self.entries);
        match found {
            Some(i) => {
                proof {
                    assert forall|a: int, b: int| 0 <= a < b < before.len() implies (#[trigger] before.update(i as int, (id, ingredient))[a]).0@
                        != (#[trigger] before.update(i as int, (id, ingredient))[b]).0@ by {
                        if a == i {
                            assert(before[b].0@ != before[i as int].0@);
                        }
                        if b == i {
                            assert(before[a].0@ != before[i as int].0@);
                        }
                    }
                }
                es.set(i, (id, ingredient));
                self.entries = es;
                proof {
                    lemma_filed_at(self.entries@, key, i as int);
                    assert forall|k: Seq<char>| k != key implies filed(self.entries@, k)
                        == filed(before, k) by {
                        lemma_filed_replaced(before, self.entries@, i as int, k);
                    }
                }
            },
            None => {
                proof {
                    let after = before.push((id, ingredient));
                    assert forall|a: int, b: int| 0 <= a < b < after.len() implies (#[trigger] after[a]).0@
                        != (#[trigger] after[b]).0@ by {
                        if b == before.len() {
                            assert(after[a] == before[a]);
                        } else {
                            assert(after[a] == before[a] && after[b] == before[b]);
                        }
                    }
                }
                es.push((id, ingredient));
                self.entries = es;
                proof {
                    lemma_filed_at(self.entries@, key, before.len() as int);
                    assert forall|k: Seq<char>| k != key implies filed(self.entries@, k)
                        == filed(before, k) by {
                        lemma_filed_pushed(before, self.entries@.last(), k);
                        assert(self.entries@ =~= before.push(self.entries@.last()));
                    }
                }
            },
        }
    }

    /// How many ingredients are filed: one per id.
    pub fn len(&self) -> (n: usize)
        ensures
            n == self.entries().len(),
            n == self.keys().len(),
            self.keys().no_duplicates(),
            forall|k: Seq<char>| #[trigger] self.spec_get(k) is Some <==> self.keys().contains(k),
    {
        proof {
            use_type_invariant(self);
            let e = self.entries@;
            let ks = self.keys();
            assert forall|a: int, b: int| 0 <= a < ks.len() && 0 <= b < ks.len() && a != b implies ks[a] != ks[b] by {
                if a < b {
                    assert(e[a].0@ != e[b].0@);
                } else {
                    assert(e[b].0@ != e[a].0@);
                }
            }
            assert forall|k: Seq<char>| #[trigger] self.spec_get(k) is Some <==> ks.contains(k) by {
                if ks.contains(k) {
                    let i = choose|i: int| 0 <= i < ks.len() && ks[i] == k;
                    assert forall|j: int| 0 <= j < i implies (#[trigger] e[j]).0@ != k by {
                        assert(e[j].0@ != e[i].0@);
                    }
                    lemma_filed_at(e, k, i);
                } else {
                    assert forall|j: int| 0 <= j < e.len() implies (#[trigger] e[j]).0@ != k by {
                        assert(ks[j] == e[j].0@);
                    }
                    lemma_filed_absent(e, k);
                }
            }
        }
        self.entries.len()
    }

    /// A copy of the index: the same ids, each with the same values.
    pub fn copy(&self) -> (r: IngredientIndex)
        ensures
            forall|k: Seq<char>| #[trigger] same_filing(r.spec_get(k), self.spec_get(k)),
    {
        let mut entries: Vec<(IngredientId, Ingredient)> = Vec::new();
        let mut i: usize = 0;
        while i < self.entries.len()
            invariant
                i <= self.entries@.len(),
                entries@.len() == i,
                forall|k: int| 0 <= k < i ==> (#[trigger] entries@[k]).0 == self.entries@[k].0
                    && same_ingredient(entries@[k].1, self.entries@[k].1),
            decreases self.entries@.len() - i,
        {
            entries.push((self.entries[i].0.clone(), self.entries[i].1.clone()));
            i = i + 1;
        }
        proof {
            use_type_invariant(self);
            assert forall|a: int, b: int| 0 <= a < b < entries@.len() implies (#[trigger] entries@[a]).0@
                != (#[trigger] entries@[b]).0@ by {
                assert(self.entries@[a].0@ != self.entries@[b].0@);
            }
        }
        let r = IngredientIndex { entries };
        proof {
            assert forall|k: Seq<char>| #[trigger] same_filing(r.spec_get(k), self.spec_get(k)) by {
                lemma_filed_copied(r.entries@, self.entries@, k);
            }
        }
        r
    }

    /// Removes the ingredient filed under `id`, leaving every other one in
    /// place.
    pub fn remove(&mut self, id: &IngredientId)
        ensures
            final(self).spec_get(id@) is None,
            forall|k: Seq<char>| k != id@ ==> final(self).spec_get(k) == old(self).spec_get(k),
    {
        proof {
            use_type_invariant(&*self);
        }
        let ghost before = self.entries@;
        let mut rest: Vec<(IngredientId, Ingredient)> = Vec::new();
        std::mem::swap(&mut rest, &mut self.entries);
        let mut kept: Vec<(IngredientId, Ingredient)> = Vec::new();
        let ghost mut seen: Seq<(IngredientId, Ingredient)> = seq![];
        proof {
            assert(before =~= seen + rest@);
        }
        while rest.len() > 0
            invariant
                before == seen + rest@,
                distinct_keys(before),
                distinct_keys(kept@),
                forall|j: int| 0 <= j < kept@.len() ==> exists|l: int| 0 <= l < seen.len() && #[trigger] kept@[j].0@ == seen[l].0@,
                filed(kept@, id@) is None,
                forall|k: Seq<char>| k != id@ ==> filed(kept@, k) == filed(seen, k),
            decreases rest@.len(),
        {
            let e = rest.remove(0);
            proof {
                assert forall|k: Seq<char>| k != id@ implies filed(seen.push(e), k) == (match filed(seen, k) {
                    Some(x) => Some(x),
                    None => if e.0@ == k {
                        Some(e.1)
                    } else {
                        None
                    },
                }) by {
                    lemma_filed_append(seen, e, k);
                }
            }
            proof {
                assert(e == before[seen.len() as int]);
            }
            if !e.0.same(id) {
                let ghost before_kept = kept@;
                proof {
                    let after = before_kept.push(e);
                    assert forall|a: int, b: int| 0 <= a < b < after.len() implies (#[trigger] after[a]).0@
                        != (#[trigger] after[b]).0@ by {
                        if b == before_kept.len() {
                            assert(after[a] == before_kept[a]);
                            let l = choose|l: int| 0 <= l < seen.len() && #[trigger] before_kept[a].0@ == seen[l].0@;
                            assert(seen[l] == before[l]);
                        } else {
                            assert(after[a] == before_kept[a] && after[b] == before_kept[b]);
                        }
                    }
                }
                kept.push(e);
                proof {
                    assert forall|k: Seq<char>| true implies filed(kept@, k) == (match filed(before_kept, k) {
                        Some(x) => Some(x),
                        None => if e.0@ == k {
                            Some(e.1)
                        } else {
                            None
                        },
                    }) by {
                        lemma_filed_append(before_kept, e, k);
                    }
                }
            }
            proof {
                let old_seen = seen;
                seen = seen.push(e);
                assert(before =~= seen + rest@);
                assert forall|j: int| 0 <= j < kept@.len() implies exists|l: int| 0 <= l < seen.len() && #[trigger] kept@[j].0@ == seen[l].0@ by {
                    if j < kept@.len() - 1 || kept@.len() == 0 || kept@.last() != e {
                        if exists|l: int| 0 <= l < old_seen.len() && kept@[j].0@ == old_seen[l].0@ {
                            let l = choose|l: int| 0 <= l < old_seen.len() && kept@[j].0@ == old_seen[l].0@;
                            assert(seen[l] == old_seen[l]);
                        } else {
                            assert(kept@[j] == e);
                            assert(seen[old_seen.len() as int] == e);
                        }
                    } else {
                        assert(seen[old_seen.len() as int] == e);
                    }
                }
            }
        }
        proof {
            assert(seen =~= before);
        }
        self.entries = kept;
    }

    /// The filed ingredients, in the order they were first filed.
    pub fn values(&self) -> (r: Vec<&Ingredient>)
        ensures
            r@.len() == self.entries().len(),
            forall|i: int| 0 <= i < r@.len() ==> *r@[i] == self.entries()[i].1,
    {
        let mut r: Vec<&Ingredient> = Vec::new();
        let mut i: usize = 0;
        while i < self.entries.len()
            invariant
                i <= self.entries@.len(),
                r@.len() == i,
                forall|k: int| 0 <= k < i ==> *r@[k] == self.entries@[k].1,
            decreases self.entries@.len() - i,
        {
            r.push(&self.entries[i].1);
            i = i + 1;
        }
        r
    }

    /// An index holding `pairs`, a later pair replacing an earlier one under
    /// the same key.
    pub fn from_pairs(pairs: Vec<(IngredientId, Ingredient)>) -> (r: IngredientIndex)
        ensures
            forall|k: Seq<char>| (#[trigger] r.spec_get(k)) == filed(pairs@.reverse(), k),
    {
        let mut index = IngredientIndex::new();
        let mut rest = pairs;
        let ghost all = rest@;
        let ghost mut taken: Seq<(IngredientId, Ingredient)> = seq![];
        proof {
            assert forall|k: Seq<char>| index.spec_get(k) == filed(taken.reverse(), k) by {
                assert(taken.reverse() =~= Seq::<(IngredientId, Ingredient)>::empty());
            }
            assert(all =~= taken + rest@);
        }
        while rest.len() > 0
            invariant
                all == taken + rest@,
                forall|k: Seq<char>| index.spec_get(k) == filed(taken.reverse(), k),
            decreases rest@.len(),
        {
            let (id, ingredient) = rest.remove(0);
            let ghost pair = (id, ingredient);
            let ghost prev = taken;
            let ghost old_index = index;
            index.insert(id, ingredient);
            proof {
                taken = taken.push(pair);
                assert(taken.reverse() =~= seq![pair] + prev.reverse());
                assert forall|k: Seq<char>| index.spec_get(k) == filed(taken.reverse(), k) by {
                    let rev = seq![pair] + prev.reverse();
                    assert(rev[0] == pair);
                    assert(rev.drop_first() =~= prev.reverse());
                    if k != pair.0@ {
                        assert(old_index.spec_get(k) == filed(prev.reverse(), k));
                    }
                }
                assert(all =~= taken + rest@);
            }
        }
        proof {
            assert(rest@ =~= Seq::<(IngredientId, Ingredient)>::empty());
            assert(taken =~= all);
        }
        index
    }
}

/// Both absent, or both present with the same values.
pub open spec fn same_filing(a: Option<Ingredient>, b: Option<Ingredient>) -> bool {
    match (a, b) {
        (Some(x), Some(y)) => same_ingredient(x, y),
        (None, None) => true,
        _ => false,
    }
}

proof fn lemma_filed_copied(a: Seq<(IngredientId, Ingredient)>, b: Seq<(IngredientId, Ingredient)>, k: Seq<char>)
    requires
        a.len() == b.len(),
        forall|i: int| 0 <= i < a.len() ==> (#[trigger] a[i]).0 == b[i].0 && same_ingredient(a[i].1, b[i].1),
    ensures
        same_filing(filed(a, k), filed(b, k)),
    decreases a.len(),
{
    if a.len() > 0 {
        assert(a[0].0 == b[0].0);
        let (ra, rb) = (a.drop_first(), b.drop_first());
        assert forall|i: int| 0 <= i < ra.len() implies (#[trigger] ra[i]).0 == rb[i].0 && same_ingredient(ra[i].1, rb[i].1) by {
            assert(ra[i] == a[i + 1] && rb[i] == b[i + 1]);
        }
        lemma_filed_copied(ra, rb, k);
    }
}

proof fn lemma_filed_append(s: Seq<(IngredientId, Ingredient)>, x: (IngredientId, Ingredient), k: Seq<char>)
    ensures
        filed(s.push(x), k) == match filed(s, k) {
            Some(r) => Some(r),
            None => if x.0@ == k {
                Some(x.1)
            } else {
                None
            },
        },
    decreases s.len(),
{
    if s.len() == 0 {
        assert(s.push(x)[0] == x);
        assert(s.push(x).drop_first() =~= Seq::<(IngredientId, Ingredient)>::empty());
        assert(filed(Seq::<(IngredientId, Ingredient)>::empty(), k) is None);
        assert(filed(s, k) is None);
    } else {
        assert(s.push(x)[0] == s[0]);
        assert(s.push(x).drop_first() =~= s.drop_first().push(x));
        lemma_filed_append(s.drop_first(), x, k);
        if s[0].0@ == k {
            assert(filed(s, k) == Some(s[0].1));
        } else {
            assert(filed(s, k) == filed(s.drop_first(), k));
        }
    }
}

proof fn lemma_filed_replaced(
    before: Seq<(IngredientId, Ingredient)>,
    after: Seq<(IngredientId, Ingredient)>,
    i: int,
    k: Seq<char>,
)
    requires
        0 <= i < before.len(),
        after.len() == before.len(),
        after[i].0@ == before[i].0@,
        forall|j: int| 0 <= j < before.len() && j != i ==> after[j] == before[j],
        k != before[i].0@,
    ensures
        filed(after, k) == filed(before, k),
    decreases before.len(),
{
    if i == 0 {
        assert(after.drop_first() =~= before.drop_first());
    } else {
        assert(after[0] == before[0]);
        lemma_filed_replaced(before.drop_first(), after.drop_first(), i - 1, k);
    }
}

proof fn lemma_filed_pushed(
    before: Seq<(IngredientId, Ingredient)>,
    last: (IngredientId, Ingredient),
    k: Seq<char>,
)
    requires
        k != last.0@,
    ensures
        filed(before.push(last), k) == filed(before, k),
    decreases before.len(),
{
    if before.len() == 0 {
        assert(before.push(last)[0] == last);
        assert(before.push(last).drop_first() =~= Seq::<(IngredientId, Ingredient)>::empty());
        assert(filed(Seq::<(IngredientId, Ingredient)>::empty(), k) is None);
    } else {
        assert(before.push(last)[0] == before[0]);
        assert(before.push(last).drop_first() =~= before.drop_first().push(last));
        lemma_filed_pushed(before.drop_first(), last, k);
    }
}

} // verus!
