//! The check overlay — the only part of the cart that is ever written down.
//!
//! The cart itself is a pure derivation. What is persisted and synced is this
//! map of **explicit user actions**, and nothing else.

use vstd::prelude::*;

use crate::ids::{IngredientId, Timestamp, UserId};

verus! {

/// A deliberate act by a person, as opposed to a derived default.
///
/// [`Explicit::Unchecked`] is not redundant with an absent entry: an absent
/// entry falls back to the derived default, which for a staple is
/// `AutoChecked` — so a staple the user just unchecked would silently
/// re-check itself on the next derivation.
#[derive(Debug, PartialEq, Eq)]
pub enum Explicit {
    Checked { by: UserId, at: Timestamp },
    Unchecked,
}

impl Clone for Explicit {
    fn clone(&self) -> (r: Self)
        ensures
            r == *self,
    {
        match self {
            Explicit::Checked { by, at } => Explicit::Checked { by: by.clone(), at: *at },
            Explicit::Unchecked => Explicit::Unchecked,
        }
    }
}

/// Explicit actions, keyed by canonical ingredient: at most one per
/// ingredient. Flat, because there is a single list.
#[derive(Debug, Default, PartialEq, Eq)]
pub struct Overlay {
    entries: Vec<(IngredientId, Explicit)>,
}

/// No ingredient has two actions among `entries`.
pub open spec fn distinct_ingredients(entries: Seq<(IngredientId, Explicit)>) -> bool {
    forall|i: int, j: int| 0 <= i < j < entries.len() ==> (#[trigger] entries[i]).0@ != (#[trigger] entries[j]).0@
}

/// The action recorded for `id` among `entries`, the first one filed.
pub open spec fn action_for(entries: Seq<(IngredientId, Explicit)>, id: Seq<char>) -> Option<
    Explicit,
>
    decreases entries.len(),
{
    if entries.len() == 0 {
        None
    } else if entries[0].0@ == id {
        Some(entries[0].1)
    } else {
        action_for(entries.drop_first(), id)
    }
}

proof fn lemma_action_at(entries: Seq<(IngredientId, Explicit)>, id: Seq<char>, i: int)
    requires
        0 <= i < entries.len(),
        entries[i].0@ == id,
        forall|j: int| 0 <= j < i ==> (#[trigger] entries[j]).0@ != id,
    ensures
        action_for(entries, id) == Some(entries[i].1),
    decreases entries.len(),
{
    if i > 0 {
        let rest = entries.drop_first();
        assert forall|j: int| 0 <= j < i - 1 implies (#[trigger] rest[j]).0@ != id by {
            assert(rest[j] == entries[j + 1]);
        }
        lemma_action_at(rest, id, i - 1);
    }
}

proof fn lemma_action_absent(entries: Seq<(IngredientId, Explicit)>, id: Seq<char>)
    requires
        forall|j: int| 0 <= j < entries.len() ==> (#[trigger] entries[j]).0@ != id,
    ensures
        action_for(entries, id) is None,
    decreases entries.len(),
{
    if entries.len() > 0 {
        let rest = entries.drop_first();
        assert forall|j: int| 0 <= j < rest.len() implies (#[trigger] rest[j]).0@ != id by {
            assert(rest[j] == entries[j + 1]);
        }
        lemma_action_absent(rest, id);
    }
}

/// Keeps the entries that are not about `gone`.
pub open spec fn keeps(gone: Seq<char>) -> spec_fn((IngredientId, Explicit)) -> bool {
    |e: (IngredientId, Explicit)| e.0@ != gone
}

proof fn lemma_action_filtered(
    before: Seq<(IngredientId, Explicit)>,
    after: Seq<(IngredientId, Explicit)>,
    gone: Seq<char>,
    k: Seq<char>,
)
    requires
        after == before.filter(keeps(gone)),
        k != gone,
    ensures
        action_for(after, k) == action_for(before, k),
    decreases before.len(),
{
    reveal_with_fuel(Seq::filter, 1);
    if before.len() == 0 {
        assert(after =~= before);
    } else {
        let f = keeps(gone);
        let rest = before.drop_first();
        rest.lemma_filter_prepend(before[0], f);
        assert(before =~= seq![before[0]] + rest);
        lemma_action_filtered(rest, rest.filter(f), gone, k);
        if f(before[0]) {
            assert(after =~= seq![before[0]] + rest.filter(f));
            assert(after[0] == before[0]);
            assert(after.drop_first() =~= rest.filter(f));
        } else {
            assert(after =~= rest.filter(f));
        }
    }
}

impl Overlay {
    #[verifier::type_invariant]
    closed spec fn ingredients_distinct(self) -> bool {
        distinct_ingredients(self.entries@)
    }

    /// The ingredients with an action, in recording order.
    pub closed spec fn key_seq(self) -> Seq<Seq<char>> {
        self.entries@.map_values(|e: (IngredientId, Explicit)| e.0@)
    }

    pub closed spec fn entries(self) -> Seq<(IngredientId, Explicit)> {
        self.entries@
    }

    /// The explicit action recorded for the ingredient whose id is `id`.
    pub open spec fn spec_get(self, id: Seq<char>) -> Option<Explicit> {
        action_for(self.entries(), id)
    }

    pub fn new() -> (r: Overlay)
        ensures
            forall|k: Seq<char>| r.spec_get(k) is None,
    {
        Overlay { entries: Vec::new() }
    }

    fn find(&self, id: &IngredientId) -> (r: Option<usize>)
        ensures
            r matches Some(i) ==> {
                &&& 0 <= i < self.entries().len()
                &&& self.entries()[i as int].0@ == id@
                &&& forall|j: int| 0 <= j < i ==> (#[trigger] self.entries()[j]).0@ != id@
            },
            r is None ==> forall|j: int|
                0 <= j < self.entries().len() ==> (#[trigger] self.entries()[j]).0@ != id@,
    {
        let mut i: usize = 0;
        while i < self.entries.len()
            invariant
                i <= self.entries@.len(),
                forall|j: int| 0 <= j < i ==> (#[trigger] self.entries@[j]).0@ != id@,
            decreases self.entries@.len() - i,
        {
            if self.entries[i].0.same(id) {
                return Some(i);
            }
            i = i + 1;
        }
        None
    }

    /// The explicit action recorded for `id`, if any.
    pub fn get(&self, id: &IngredientId) -> (r: Option<&Explicit>)
        ensures
            r matches Some(x) ==> self.spec_get(id@) == Some(*x),
            r is None ==> self.spec_get(id@) is None,
    {
        match self.find(id) {
            Some(i) => {
                proof {
                    lemma_action_at(self.entries(), id@, i as int);
                }
                Some(&self.entries[i].1)
            },
            None => {
                proof {
                    lemma_action_absent(self.entries(), id@);
                }
                None
            },
        }
    }

    pub fn contains_key(&self, id: &IngredientId) -> (b: bool)
        ensures
            b == self.spec_get(id@) is Some,
    {
        self.get(id).is_some()
    }

    /// Records `action` for `id`, replacing any earlier one.
    pub fn insert(&mut self, id: IngredientId, action: Explicit)
        ensures
            final(self).spec_get(id@) == Some(action),
            forall|k: Seq<char>| k != id@ ==> final(self).spec_get(k) == old(self).spec_get(k),
    {
        proof {
            use_type_invariant(&*self);
        }
        let ghost key = id@;
        let ghost before = self.entries@;
        let found = self.find(&id);
        let mut es: Vec<(IngredientId, Explicit)> = Vec::new();
        std::mem::swap(&mut es, &mut self.entries);
        match found {
            Some(i) => {
                proof {
                    assert forall|a: int, b: int| 0 <= a < b < before.len() implies (#[trigger] before.update(i as int, (id, action))[a]).0@
                        != (#[trigger] before.update(i as int, (id, action))[b]).0@ by {
                        if a == i {
                            assert(before[b].0@ != before[i as int].0@);
                        }
                        if b == i {
                            assert(before[a].0@ != before[i as int].0@);
                        }
                    }
                }
                es.set(i, (id, action));
                self.entries = es;
                proof {
                    lemma_action_at(self.entries@, key, i as int);
                    assert forall|k: Seq<char>| k != key implies action_for(self.entries@, k)
                        == action_for(before, k) by {
                        lemma_action_replaced(before, self.entries@, i as int, k);
                    }
                }
            },
            None => {
                proof {
                    let after = before.push((id, action));
                    assert forall|a: int, b: int| 0 <= a < b < after.len() implies (#[trigger] after[a]).0@
                        != (#[trigger] after[b]).0@ by {
                        if b == before.len() {
                            assert(after[a] == before[a]);
                        } else {
                            assert(after[a] == before[a] && after[b] == before[b]);
                        }
                    }
                }
                es.push((id, action));
                self.entries = es;
                proof {
                    lemma_action_at(self.entries@, key, before.len() as int);
                    assert forall|k: Seq<char>| k != key implies action_for(self.entries@, k)
                        == action_for(before, k) by {
                        lemma_action_pushed(before, self.entries@.last(), k);
                        assert(self.entries@ =~= before.push(self.entries@.last()));
                    }
                }
            },
        }
    }

    /// Forgets the explicit action for `id`, if there was one.
    pub fn remove(&mut self, id: &IngredientId)
        ensures
            final(self).spec_get(id@) is None,
            forall|k: Seq<char>| k != id@ ==> final(self).spec_get(k) == old(self).spec_get(k),
    {
        proof {
            use_type_invariant(&*self);
        }
        let ghost before = self.entries@;
        let mut kept: Vec<(IngredientId, Explicit)> = Vec::new();
        let mut i: usize = 0;
        while i < self.entries.len()
            invariant
                i <= self.entries@.len(),
                self.entries@ == before,
                kept@ == before.take(i as int).filter(keeps(id@)),
                distinct_ingredients(before),
                distinct_ingredients(kept@),
                forall|j: int| 0 <= j < kept@.len() ==> exists|l: int| 0 <= l < i && #[trigger] kept@[j].0@ == before[l].0@,
            decreases self.entries@.len() - i,
        {
            proof {
                reveal_with_fuel(Seq::filter, 1);
                assert(before.take(i + 1).drop_last() =~= before.take(i as int));
            }
            let ghost before_kept = kept@;
            if !self.entries[i].0.same(id) {
                kept.push((self.entries[i].0.clone(), self.entries[i].1.clone()));
                proof {
                    let after = kept@;
                    assert(after.last().0@ == before[i as int].0@);
                    assert forall|a: int, b: int| 0 <= a < b < after.len() implies (#[trigger] after[a]).0@
                        != (#[trigger] after[b]).0@ by {
                        if b == before_kept.len() {
                            assert(after[a] == before_kept[a]);
                            let l = choose|l: int| 0 <= l < i && #[trigger] before_kept[a].0@ == before[l].0@;
                        } else {
                            assert(after[a] == before_kept[a] && after[b] == before_kept[b]);
                        }
                    }
                }
            }
            proof {
                assert forall|j: int| 0 <= j < kept@.len() implies exists|l: int| 0 <= l < i + 1 && #[trigger] kept@[j].0@ == before[l].0@ by {
                    if j < before_kept.len() {
                        assert(kept@[j] == before_kept[j]);
                        let l = choose|l: int| 0 <= l < i && #[trigger] before_kept[j].0@ == before[l].0@;
                    } else {
                        assert(kept@[j].0@ == before[i as int].0@);
                    }
                }
            }
            i = i + 1;
        }
        proof {
            assert(before.take(i as int) =~= before);
        }
        self.entries = kept;
        proof {
            let f = keeps(id@);
            assert forall|j: int| 0 <= j < self.entries@.len() implies (
            #[trigger] self.entries@[j]).0@ != id@ by {
                before.lemma_filter_pred(f, j);
            }
            lemma_action_absent(self.entries@, id@);
            assert forall|k: Seq<char>| k != id@ implies action_for(self.entries@, k)
                == action_for(before, k) by {
                lemma_action_filtered(before, self.entries@, id@, k);
            }
        }
    }

    /// How many ingredients have an explicit action: one entry each.
    pub fn len(&self) -> (n: usize)
        ensures
            n == self.entries().len(),
            n == self.key_seq().len(),
            self.key_seq().no_duplicates(),
            forall|k: Seq<char>| #[trigger] self.spec_get(k) is Some <==> self.key_seq().contains(k),
    {
        proof {
            use_type_invariant(self);
            let e = self.entries@;
            let ks = self.key_seq();
            assert forall|a: int, b: int| 0 <= a < ks.len() && 0 <= b < ks.len() && a != b implies ks[a] != ks[b] by {
                if a < b {
                    assert(e[a].0@ != e[b].0@);
                } else {
                    assert(e[b].0@ != e[a].0@);
                }
            }
            assert forall|k: Seq<char>| #[trigger] self.spec_get(k) is Some <==> ks.contains(k) by {
                if ks.contains(k) {
                    let i = choose|i: int| 0 <= i < ks.len() && ks[i] == k;
                    assert forall|j: int| 0 <= j < i implies (#[trigger] e[j]).0@ != k by {
                        assert(e[j].0@ != e[i].0@);
                    }
                    lemma_action_at(e, k, i);
                } else {
                    assert forall|j: int| 0 <= j < e.len() implies (#[trigger] e[j]).0@ != k by {
                        assert(ks[j] == e[j].0@);
                    }
                    lemma_action_absent(e, k);
                }
            }
        }
        self.entries.len()
    }

    pub fn is_empty(&self) -> (b: bool)
        ensures
            b == (self.entries().len() == 0),
            b ==> forall|k: Seq<char>| self.spec_get(k) is None,
    {
        proof {
            if self.entries().len() == 0 {
                assert forall|k: Seq<char>| self.spec_get(k) is None by {
                    lemma_action_absent(self.entries(), k);
                }
            }
        }
        self.entries.len() == 0
    }

    /// The ingredients with an explicit action, in the order first recorded.
    pub fn keys(&self) -> (r: Vec<IngredientId>)
        ensures
            r@.len() == self.entries().len(),
            forall|i: int| 0 <= i < r@.len() ==> r@[i] == (#[trigger] self.entries()[i]).0,
    {
        let mut r: Vec<IngredientId> = Vec::new();
        let mut i: usize = 0;
        while i < self.entries.len()
            invariant
                i <= self.entries@.len(),
                r@.len() == i,
                forall|j: int| 0 <= j < i ==> r@[j] == (#[trigger] self.entries@[j]).0,
            decreases self.entries@.len() - i,
        {
            r.push(self.entries[i].0.clone());
            i = i + 1;
        }
        r
    }

    /// An overlay holding `pairs`, a later pair replacing an earlier one for
    /// the same ingredient.
    pub fn from_pairs(pairs: Vec<(IngredientId, Explicit)>) -> (r: Overlay)
        ensures
            forall|k: Seq<char>| (#[trigger] r.spec_get(k)) == action_for(pairs@.reverse(), k),
    {
        let mut overlay = Overlay::new();
        let mut rest = pairs;
        let ghost all = rest@;
        let ghost mut taken: Seq<(IngredientId, Explicit)> = seq![];
        proof {
            assert forall|k: Seq<char>| overlay.spec_get(k) == action_for(taken.reverse(), k) by {
                assert(taken.reverse() =~= Seq::<(IngredientId, Explicit)>::empty());
            }
            assert(all =~= taken + rest@);
        }
        while rest.len() > 0
            invariant
                all == taken + rest@,
                forall|k: Seq<char>| overlay.spec_get(k) == action_for(taken.reverse(), k),
            decreases rest@.len(),
        {
            let (id, action) = rest.remove(0);
            let ghost pair = (id, action);
            let ghost prev = taken;
            let ghost old_overlay = overlay;
            overlay.insert(id, action);
            proof {
                taken = taken.push(pair);
                assert(taken.reverse() =~= seq![pair] + prev.reverse());
                assert forall|k: Seq<char>| overlay.spec_get(k) == action_for(taken.reverse(), k) by {
                    let rev = seq![pair] + prev.reverse();
                    assert(rev[0] == pair);
                    assert(rev.drop_first() =~= prev.reverse());
                    if k != pair.0@ {
                        assert(old_overlay.spec_get(k) == action_for(prev.reverse(), k));
                    }
                }
                assert(all =~= taken + rest@);
            }
        }
        proof {
            assert(rest@ =~= Seq::<(IngredientId, Explicit)>::empty());
            assert(taken =~= all);
        }
        overlay
    }
}

proof fn lemma_action_replaced(
    before: Seq<(IngredientId, Explicit)>,
    after: Seq<(IngredientId, Explicit)>,
    i: int,
    k: Seq<char>,
)
    requires
        0 <= i < before.len(),
        after.len() == before.len(),
        after[i].0@ == before[i].0@,
        forall|j: int| 0 <= j < before.len() && j != i ==> after[j] == before[j],
        k != before[i].0@,
    ensures
        action_for(after, k) == action_for(before, k),
    decreases before.len(),
{
    if i == 0 {
        assert(after.drop_first() =~= before.drop_first());
    } else {
        assert(after[0] == before[0]);
        lemma_action_replaced(before.drop_first(), after.drop_first(), i - 1, k);
    }
}

proof fn lemma_action_pushed(
    before: Seq<(IngredientId, Explicit)>,
    last: (IngredientId, Explicit),
    k: Seq<char>,
)
    requires
        k != last.0@,
    ensures
        action_for(before.push(last), k) == action_for(before, k),
    decreases before.len(),
{
    if before.len() == 0 {
        assert(before.push(last)[0] == last);
        assert(before.push(last).drop_first() =~= Seq::<(IngredientId, Explicit)>::empty());
        assert(action_for(Seq::<(IngredientId, Explicit)>::empty(), k) is None);
    } else {
        assert(before.push(last)[0] == before[0]);
        assert(before.push(last).drop_first() =~= before.drop_first().push(last));
        lemma_action_pushed(before.drop_first(), last, k);
    }
}

/// What the cart shows for a line: the explicit action if there is one, the
/// derived default otherwise.
#[derive(Debug, PartialEq, Eq)]
pub enum CheckState {
    /// Still to pick up.
    ToBuy,
    /// Someone put it in the trolley.
    Checked { by: UserId, at: Timestamp },
    /// A staple that only recipes asked for: out of the way, but still
    /// visible and still uncheckable.
    AutoChecked,
}

impl Clone for CheckState {
    fn clone(&self) -> (r: Self)
        ensures
            r == *self,
    {
        match self {
            CheckState::ToBuy => CheckState::ToBuy,
            CheckState::Checked { by, at } => CheckState::Checked { by: by.clone(), at: *at },
            CheckState::AutoChecked => CheckState::AutoChecked,
        }
    }
}

impl CheckState {
    pub open spec fn spec_is_settled(&self) -> bool {
        !(self is ToBuy)
    }

    /// Whether this line needs no further action — both "bought" and "already
    /// at home" count, which is what lets a recipe whose only remaining items
    /// are staples complete.
    pub fn is_settled(&self) -> (b: bool)
        ensures
            b == self.spec_is_settled(),
    {
        !matches!(self, CheckState::ToBuy)
    }
}

pub open spec fn spec_default_state(staple: bool, from_manual_entry: bool) -> CheckState {
    if staple && !from_manual_entry {
        CheckState::AutoChecked
    } else {
        CheckState::ToBuy
    }
}

/// The derived default for a line with no explicit action.
///
/// A staple is out of the way only while it is *recipes* asking for it.
/// Putting it on the list by hand is an explicit statement that you need to
/// buy some.
pub fn default_state(staple: bool, from_manual_entry: bool) -> (s: CheckState)
    ensures
        s == spec_default_state(staple, from_manual_entry),
{
    if staple && !from_manual_entry {
        CheckState::AutoChecked
    } else {
        CheckState::ToBuy
    }
}

pub open spec fn spec_resolve(explicit: Option<Explicit>, staple: bool, from_manual_entry: bool) -> CheckState {
    match explicit {
        Some(Explicit::Checked { by, at }) => CheckState::Checked { by, at },
        Some(Explicit::Unchecked) => CheckState::ToBuy,
        None => spec_default_state(staple, from_manual_entry),
    }
}

/// Resolves the state of one ingredient: an explicit action always beats the
/// derived default.
pub fn resolve(explicit: Option<&Explicit>, staple: bool, from_manual_entry: bool) -> (s: CheckState)
    ensures
        s == spec_resolve(
            match explicit {
                Some(e) => Some(*e),
                None => None,
            },
            staple,
            from_manual_entry,
        ),
{
    match explicit {
        Some(Explicit::Checked { by, at }) => CheckState::Checked { by: by.clone(), at: *at },
        Some(Explicit::Unchecked) => CheckState::ToBuy,
        None => default_state(staple, from_manual_entry),
    }
}

/// An explicit action always beats the derived default: a check settles the
/// line and an uncheck puts it back to buy, whatever the staple flag and
/// however the ingredient came onto the list.
pub proof fn law_explicit_beats_default(by: UserId, at: Timestamp, staple: bool, manual: bool)
    ensures
        spec_resolve(Some(Explicit::Checked { by, at }), staple, manual).spec_is_settled(),
        spec_resolve(Some(Explicit::Unchecked), staple, manual) == CheckState::ToBuy,
{
}

} // verus!
