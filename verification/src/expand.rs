//! Flattening the recipe graph into ingredient contributions.
//!
//! Recipes form a **DAG**, not a tree: the same sub-recipe may legitimately
//! appear twice under one parent. What must not happen is a cycle, so
//! expansion carries the current path and refuses to re-enter it.

use vstd::prelude::*;

use crate::ids::{IngredientId, RecipeId, UsageId};
use crate::quantity::Quantity;
use crate::rational::{
    denotes, lemma_arith_denotes, lemma_make_denotes, lemma_same_ratio_mul, lemma_same_ratio_trans,
    lemma_in_range, lemma_spec_ops, same_ratio, Rational,
};
use crate::recipe::{Component, Recipe, SubRecipeAmount};
use crate::text::{push_str, string_of};
use crate::units::{lemma_factor_size, Dimension};

verus! {

/// The recipe library, keyed by id: at most one recipe per id, and inserting
/// a recipe replaces the one with the same id.
#[derive(Debug, Default)]
pub struct RecipeIndex {
    entries: Vec<Recipe>,
}

/// The first recipe in `entries` with id `id`.
pub open spec fn lookup(entries: Seq<Recipe>, id: Seq<char>) -> Option<Recipe>
    decreases entries.len(),
{
    if entries.len() == 0 {
        None
    } else if entries[0].id@ == id {
        Some(entries[0])
    } else {
        lookup(entries.drop_first(), id)
    }
}

/// Where in `entries` the recipe with id `id` sits.
pub open spec fn position(entries: Seq<Recipe>, id: Seq<char>, i: int) -> bool {
    &&& 0 <= i < entries.len()
    &&& entries[i].id@ == id
    &&& forall|j: int| 0 <= j < i ==> (#[trigger] entries[j]).id@ != id
}

proof fn lemma_lookup_position(entries: Seq<Recipe>, id: Seq<char>, i: int)
    requires
        position(entries, id, i),
    ensures
        lookup(entries, id) == Some(entries[i]),
    decreases entries.len(),
{
    if i > 0 {
        assert(entries[0].id@ != id);
        let rest = entries.drop_first();
        assert forall|j: int| 0 <= j < i - 1 implies (#[trigger] rest[j]).id@ != id by {
            assert(rest[j] == entries[j + 1]);
        }
        lemma_lookup_position(rest, id, i - 1);
    }
}

proof fn lemma_lookup_none(entries: Seq<Recipe>, id: Seq<char>)
    requires
        forall|j: int| 0 <= j < entries.len() ==> (#[trigger] entries[j]).id@ != id,
    ensures
        lookup(entries, id) is None,
    decreases entries.len(),
{
    if entries.len() > 0 {
        let rest = entries.drop_first();
        assert forall|j: int| 0 <= j < rest.len() implies (#[trigger] rest[j]).id@ != id by {
            assert(rest[j] == entries[j + 1]);
        }
        lemma_lookup_none(rest, id);
    }
}

/// No id is filed twice among `entries`.
pub open spec fn distinct_ids(entries: Seq<Recipe>) -> bool {
    forall|i: int, j: int| 0 <= i < j < entries.len() ==> (#[trigger] entries[i]).id@ != (#[trigger] entries[j]).id@
}

impl RecipeIndex {
    #[verifier::type_invariant]
    closed spec fn ids_distinct(self) -> bool {
        distinct_ids(self.entries@)
    }

    pub closed spec fn entries(self) -> Seq<Recipe> {
        self.entries@
    }

    /// The ids filed, in filing order.
    pub closed spec fn keys(self) -> Seq<Seq<char>> {
        self.entries@.map_values(|r: Recipe| r.id@)
    }

    /// The recipe filed under `id`.
    pub open spec fn spec_get(self, id: Seq<char>) -> Option<Recipe> {
        lookup(self.entries(), id)
    }

    pub fn new() -> (r: RecipeIndex)
        ensures
            r.entries().len() == 0,
            forall|id: Seq<char>| r.spec_get(id) is None,
    {
        RecipeIndex { entries: Vec::new() }
    }

    fn find(&self, id: &RecipeId) -> (r: Option<usize>)
        ensures
            r matches Some(i) ==> position(self.entries(), id@, i as int),
            r is None ==> forall|j: int|
                0 <= j < self.entries().len() ==> (#[trigger] self.entries()[j]).id@ != id@,
    {
        let mut i: usize = 0;
        while i < self.entries.len()
            invariant
                i <= self.entries@.len(),
                forall|j: int| 0 <= j < i ==> (#[trigger] self.entries@[j]).id@ != id@,
            decreases self.entries@.len() - i,
        {
            if self.entries[i].id.same(id) {
                return Some(i);
            }
            i = i + 1;
        }
        None
    }

    /// The recipe filed under `id`, if any.
    pub fn get(&self, id: &RecipeId) -> (r: Option<&Recipe>)
        ensures
            r matches Some(x) ==> self.spec_get(id@) == Some(*x),
            r is None ==> self.spec_get(id@) is None,
    {
        match self.find(id) {
            Some(i) => {
                proof {
                    lemma_lookup_position(self.entries(), id@, i as int);
                }
                Some(&self.entries[i])
            },
            None => {
                proof {
                    lemma_lookup_none(self.entries(), id@);
                }
                None
            },
        }
    }

    pub fn contains_key(&self, id: &RecipeId) -> (b: bool)
        ensures
            b == self.spec_get(id@) is Some,
    {
        self.get(id).is_some()
    }

    /// Files `recipe` under its id, replacing whatever was there.
    pub fn insert(&mut self, recipe: Recipe)
        ensures
            final(self).spec_get(recipe.id@) == Some(recipe),
            forall|k: Seq<char>| k != recipe.id@ ==> final(self).spec_get(k) == old(self).spec_get(k),
    {
        proof {
            use_type_invariant(&*self);
        }
        let ghost key = recipe.id@;
        let ghost before = self.entries@;
        let found = self.find(&recipe.id);
        let mut es: Vec<Recipe> = Vec::new();
        std::mem::swap(&mut es, &mut self.entries);
        match found {
            Some(i) => {
                proof {
                    assert forall|a: int, b: int| 0 <= a < b < before.len() implies (#[trigger] before.update(i as int, recipe)[a]).id@
                        != (#[trigger] before.update(i as int, recipe)[b]).id@ by {
                        if a == i {
                            assert(before[b].id@ != before[i as int].id@);
                        }
                        if b == i {
                            assert(before[a].id@ != before[i as int].id@);
                        }
                    }
                }
                es.set(i, recipe);
                self.entries = es;
                proof {
                    assert(position(self.entries@, key, i as int));
                    lemma_lookup_position(self.entries@, key, i as int);
                    assert forall|k: Seq<char>| k != key implies lookup(self.entries@, k) == lookup(
                        before,
                        k,
                    ) by {
                        lemma_lookup_other(before, self.entries@, i as int, k);
                    }
                }
            },
            None => {
                proof {
                    let after = before.push(recipe);
                    assert forall|a: int, b: int| 0 <= a < b < after.len() implies (#[trigger] after[a]).id@
                        != (#[trigger] after[b]).id@ by {
                        if b == before.len() {
                            assert(after[a] == before[a]);
                        } else {
                            assert(after[a] == before[a] && after[b] == before[b]);
                        }
                    }
                }
                es.push(recipe);
                self.entries = es;
                proof {
                    assert(position(self.entries@, key, before.len() as int));
                    lemma_lookup_position(self.entries@, key, before.len() as int);
                    assert forall|k: Seq<char>| k != key implies lookup(self.entries@, k) == lookup(
                        before,
                        k,
                    ) by {
                        lemma_lookup_push(before, self.entries@.last(), k);
                        assert(self.entries@ =~= before.push(self.entries@.last()));
                    }
                }
            },
        }
    }

    /// Removes the recipe filed under `id`, leaving every other one in place.
    pub fn remove(&mut self, id: &RecipeId)
        ensures
            final(self).spec_get(id@) is None,
            forall|k: Seq<char>| k != id@ ==> final(self).spec_get(k) == old(self).spec_get(k),
    {
        proof {
            use_type_invariant(&*self);
        }
        let ghost before = self.entries@;
        let mut rest: Vec<Recipe> = Vec::new();
        std::mem::swap(&mut rest, &mut self.entries);
        let mut kept: Vec<Recipe> = Vec::new();
        let ghost mut seen: Seq<Recipe> = seq![];
        proof {
            assert(before =~= seen + rest@);
        }
        while rest.len() > 0
            invariant
                before == seen + rest@,
                distinct_ids(before),
                distinct_ids(kept@),
                forall|j: int| 0 <= j < kept@.len() ==> exists|l: int| 0 <= l < seen.len() && #[trigger] kept@[j].id@ == seen[l].id@,
                lookup(kept@, id@) is None,
                forall|k: Seq<char>| k != id@ ==> lookup(kept@, k) == lookup(seen, k),
            decreases rest@.len(),
        {
            let r = rest.remove(0);
            proof {
                assert forall|k: Seq<char>| k != id@ implies lookup(seen.push(r), k) == (match lookup(seen, k) {
                    Some(x) => Some(x),
                    None => if r.id@ == k {
                        Some(r)
                    } else {
                        None
                    },
                }) by {
                    lemma_lookup_append(seen, r, k);
                }
            }
            proof {
                assert(r == before[seen.len() as int]);
            }
            if !r.id.same(id) {
                let ghost before_kept = kept@;
                proof {
                    let after = before_kept.push(r);
                    assert forall|a: int, b: int| 0 <= a < b < after.len() implies (#[trigger] after[a]).id@
                        != (#[trigger] after[b]).id@ by {
                        if b == before_kept.len() {
                            assert(after[a] == before_kept[a]);
                            let l = choose|l: int| 0 <= l < seen.len() && #[trigger] before_kept[a].id@ == seen[l].id@;
                            assert(seen[l] == before[l]);
                        } else {
                            assert(after[a] == before_kept[a] && after[b] == before_kept[b]);
                        }
                    }
                }
                kept.push(r);
                proof {
                    assert forall|k: Seq<char>| true implies lookup(kept@, k) == (match lookup(before_kept, k) {
                        Some(x) => Some(x),
                        None => if r.id@ == k {
                            Some(r)
                        } else {
                            None
                        },
                    }) by {
                        lemma_lookup_append(before_kept, r, k);
                    }
                }
            }
            proof {
                let old_seen = seen;
                seen = seen.push(r);
                assert(before =~= seen + rest@);
                assert forall|j: int| 0 <= j < kept@.len() implies exists|l: int| 0 <= l < seen.len() && #[trigger] kept@[j].id@ == seen[l].id@ by {
                    if exists|l: int| 0 <= l < old_seen.len() && kept@[j].id@ == old_seen[l].id@ {
                        let l = choose|l: int| 0 <= l < old_seen.len() && kept@[j].id@ == old_seen[l].id@;
                        assert(seen[l] == old_seen[l]);
                    } else {
                        assert(seen[old_seen.len() as int] == r);
                    }
                }
            }
        }
        proof {
            assert(seen =~= before);
        }
        self.entries = kept;
    }

    /// An index of `recipes`, a later recipe replacing an earlier one with the
    /// same id.
    pub fn from_recipes(recipes: Vec<Recipe>) -> (r: RecipeIndex)
        ensures
            forall|k: Seq<char>|
                (#[trigger] r.spec_get(k)) == lookup(recipes@.reverse(), k),
    {
        let mut index = RecipeIndex::new();
        let mut rest = recipes;
        let ghost all = rest@;
        let ghost mut taken: Seq<Recipe> = seq![];
        proof {
            assert forall|k: Seq<char>| index.spec_get(k) == lookup(taken.reverse(), k) by {
                assert(taken.reverse() =~= Seq::<Recipe>::empty());
            }
            assert(all =~= taken + rest@);
        }
        while rest.len() > 0
            invariant
                all == taken + rest@,
                forall|k: Seq<char>| index.spec_get(k) == lookup(taken.reverse(), k),
            decreases rest@.len(),
        {
            let recipe = rest.remove(0);
            let ghost r = recipe;
            let ghost key = recipe.id@;
            let ghost prev = taken;
            let ghost old_index = index;
            index.insert(recipe);
            proof {
                taken = taken.push(r);
                assert(taken.reverse() =~= seq![r] + prev.reverse());
                assert forall|k: Seq<char>| index.spec_get(k) == lookup(taken.reverse(), k) by {
                    let rev = seq![r] + prev.reverse();
                    assert(rev[0] == r);
                    assert(rev.drop_first() =~= prev.reverse());
                    if k == key {
                        assert(lookup(rev, k) == Some(r));
                    } else {
                        assert(lookup(rev, k) == lookup(prev.reverse(), k));
                        assert(old_index.spec_get(k) == lookup(prev.reverse(), k));
                    }
                }
                assert(all =~= taken + rest@);
            }
        }
        proof {
            assert(rest@ =~= Seq::<Recipe>::empty());
            assert(taken =~= all);
        }
        index
    }

    /// How many recipes are filed: one per id.
    pub fn len(&self) -> (n: usize)
        ensures
            n == self.entries().len(),
            n == self.keys().len(),
            self.keys().no_duplicates(),
            forall|k: Seq<char>| #[trigger] self.spec_get(k) is Some <==> self.keys().contains(k),
    {
        proof {
            use_type_invariant(self);
            let e = self.entries@;
            let ks = self.keys();
            assert forall|a: int, b: int| 0 <= a < ks.len() && 0 <= b < ks.len() && a != b implies ks[a] != ks[b] by {
                if a < b {
                    assert(e[a].id@ != e[b].id@);
                } else {
                    assert(e[b].id@ != e[a].id@);
                }
            }
            assert forall|k: Seq<char>| #[trigger] self.spec_get(k) is Some <==> ks.contains(k) by {
                if ks.contains(k) {
                    let i = choose|i: int| 0 <= i < ks.len() && ks[i] == k;
                    assert forall|j: int| 0 <= j < i implies (#[trigger] e[j]).id@ != k by {
                        assert(e[j].id@ != e[i].id@);
                    }
                    assert(position(e, k, i));
                    lemma_lookup_position(e, k, i);
                } else {
                    assert forall|j: int| 0 <= j < e.len() implies (#[trigger] e[j]).id@ != k by {
                        assert(ks[j] == e[j].id@);
                    }
                    lemma_lookup_none(e, k);
                }
            }
        }
        self.entries.len()
    }

    /// The recipes, in the order they were first filed.
    pub fn values(&self) -> (r: &Vec<Recipe>)
        ensures
            r@ == self.entries(),
    {
        &self.entries
    }
}

proof fn lemma_lookup_append(s: Seq<Recipe>, x: Recipe, k: Seq<char>)
    ensures
        lookup(s.push(x), k) == match lookup(s, k) {
            Some(r) => Some(r),
            None => if x.id@ == k {
                Some(x)
            } else {
                None
            },
        },
    decreases s.len(),
{
    if s.len() == 0 {
        assert(s.push(x)[0] == x);
        assert(s.push(x).drop_first() =~= Seq::<Recipe>::empty());
    } else {
        assert(s.push(x)[0] == s[0]);
        assert(s.push(x).drop_first() =~= s.drop_first().push(x));
        lemma_lookup_append(s.drop_first(), x, k);
    }
}

proof fn lemma_lookup_other(before: Seq<Recipe>, after: Seq<Recipe>, i: int, k: Seq<char>)
    requires
        0 <= i < before.len(),
        after.len() == before.len(),
        after[i].id@ == before[i].id@,
        forall|j: int| 0 <= j < before.len() && j != i ==> after[j] == before[j],
        k != before[i].id@,
    ensures
        lookup(after, k) == lookup(before, k),
    decreases before.len(),
{
    if before.len() > 0 {
        if i == 0 {
            assert(after.drop_first() =~= before.drop_first());
        } else {
            assert(after[0] == before[0]);
            lemma_lookup_other(before.drop_first(), after.drop_first(), i - 1, k);
        }
    }
}

proof fn lemma_lookup_push(before: Seq<Recipe>, last: Recipe, k: Seq<char>)
    requires
        k != last.id@,
    ensures
        lookup(before.push(last), k) == lookup(before, k),
    decreases before.len(),
{
    if before.len() == 0 {
        assert(before.push(last)[0] == last);
        assert(before.push(last).drop_first() =~= Seq::<Recipe>::empty());
        assert(lookup(Seq::<Recipe>::empty(), k) is None);
        assert(lookup(before, k) is None);
    } else {
        assert(before.push(last)[0] == before[0]);
        assert(before.push(last).drop_first() =~= before.drop_first().push(last));
        lemma_lookup_push(before.drop_first(), last, k);
    }
}


/// How deep sub-recipes may nest. A pastry inside a tart inside a menu is
/// three; anything approaching this is a modelling mistake, and the bound
/// makes it an error rather than a stack overflow.
pub const MAX_DEPTH: usize = 8;

#[derive(Debug, Clone, PartialEq, Eq)]
pub enum ExpandError {
    /// A recipe that is not in the index.
    UnknownRecipe(RecipeId),
    /// A sub-recipe cycle: the path from the root, ending where it re-enters.
    Cycle(Vec<RecipeId>),
    /// Sub-recipes nested deeper than [`MAX_DEPTH`], at this recipe.
    DepthExceeded(RecipeId),
    /// A recipe referenced by yield that declares none.
    MissingYield(RecipeId),
    /// A recipe that declares an unmeasurable yield, which cannot be divided.
    UnmeasurableYield(RecipeId),
    /// A recipe that declares a zero yield.
    ZeroYield(RecipeId),
    /// A recipe that yields one dimension but is referenced as another.
    YieldDimensionMismatch { recipe: RecipeId, declared: Dimension, requested: Dimension },
    /// An amount's arithmetic went past what 128-bit integers hold.
    Overflow,
}

/// An [`ExpandError`] as values: ids by their text.
pub enum ExpandFault {
    UnknownRecipe(Seq<char>),
    Cycle(Seq<Seq<char>>),
    DepthExceeded(Seq<char>),
    MissingYield(Seq<char>),
    UnmeasurableYield(Seq<char>),
    ZeroYield(Seq<char>),
    YieldDimensionMismatch { recipe: Seq<char>, declared: Dimension, requested: Dimension },
    Overflow,
}

/// The texts of a sequence of recipe ids.
pub open spec fn ids(path: Seq<RecipeId>) -> Seq<Seq<char>> {
    path.map_values(|r: RecipeId| r@)
}

impl View for ExpandError {
    type V = ExpandFault;

    open spec fn view(&self) -> ExpandFault {
        match self {
            ExpandError::UnknownRecipe(r) => ExpandFault::UnknownRecipe(r@),
            ExpandError::Cycle(p) => ExpandFault::Cycle(ids(p@)),
            ExpandError::DepthExceeded(r) => ExpandFault::DepthExceeded(r@),
            ExpandError::MissingYield(r) => ExpandFault::MissingYield(r@),
            ExpandError::UnmeasurableYield(r) => ExpandFault::UnmeasurableYield(r@),
            ExpandError::ZeroYield(r) => ExpandFault::ZeroYield(r@),
            ExpandError::YieldDimensionMismatch { recipe, declared, requested } => {
                ExpandFault::YieldDimensionMismatch {
                    recipe: recipe@,
                    declared: *declared,
                    requested: *requested,
                }
            },
            ExpandError::Overflow => ExpandFault::Overflow,
        }
    }
}

/// How `{:?}` spells a dimension.
pub open spec fn dimension_name(d: Dimension) -> Seq<char> {
    match d {
        Dimension::Count => "Count"@,
        Dimension::Mass => "Mass"@,
        Dimension::Volume => "Volume"@,
        Dimension::Unmeasured => "Unmeasured"@,
    }
}

/// `ids` joined by arrows.
pub open spec fn arrows(ids: Seq<Seq<char>>) -> Seq<char>
    decreases ids.len(),
{
    if ids.len() == 0 {
        Seq::<char>::empty()
    } else if ids.len() == 1 {
        ids[0]
    } else {
        arrows(ids.drop_last()) + " -> "@ + ids.last()
    }
}

/// The sentence an expansion fault is reported with.
pub open spec fn expand_message(f: ExpandFault) -> Seq<char> {
    match f {
        ExpandFault::UnknownRecipe(r) => "recipe `"@ + r + "` is not in the index"@,
        ExpandFault::Cycle(path) => "sub-recipe cycle: "@ + arrows(path),
        ExpandFault::DepthExceeded(r) => "sub-recipes nested deeper than 8 at `"@ + r + "`"@,
        ExpandFault::MissingYield(r) => "recipe `"@ + r + "` is referenced by yield but declares none"@,
        ExpandFault::UnmeasurableYield(r) => "recipe `"@ + r
            + "` declares an unmeasurable yield, which cannot be divided"@,
        ExpandFault::ZeroYield(r) => "recipe `"@ + r + "` declares a zero yield"@,
        ExpandFault::YieldDimensionMismatch { recipe, declared, requested } => "recipe `"@ + recipe
            + "` yields a "@ + dimension_name(declared) + " but is referenced as a "@
            + dimension_name(requested),
        ExpandFault::Overflow => "an amount left the range in which quantities stay exact"@,
    }
}

fn push_dimension(out: &mut Vec<char>, d: Dimension)
    ensures
        final(out)@ == old(out)@ + dimension_name(d),
{
    match d {
        Dimension::Count => push_str(out, "Count"),
        Dimension::Mass => push_str(out, "Mass"),
        Dimension::Volume => push_str(out, "Volume"),
        Dimension::Unmeasured => push_str(out, "Unmeasured"),
    }
}

impl ExpandError {
    /// The error as a sentence for a person.
    pub fn message(&self) -> (s: String)
        ensures
            s@ == expand_message(self@),
    {
        let mut out: Vec<char> = Vec::new();
        match self {
            ExpandError::UnknownRecipe(r) => {
                push_str(&mut out, "recipe `");
                push_str(&mut out, r.as_str());
                push_str(&mut out, "` is not in the index");
            },
            ExpandError::Cycle(path) => {
                push_str(&mut out, "sub-recipe cycle: ");
                let ghost start = out@;
                let mut i: usize = 0;
                while i < path.len()
                    invariant
                        i <= path@.len(),
                        out@ == start + arrows(ids(path@.take(i as int))),
                    decreases path@.len() - i,
                {
                    proof {
                        assert(ids(path@.take(i + 1)).drop_last() =~= ids(path@.take(i as int)));
                        assert(ids(path@.take(i + 1)).last() == path@[i as int]@);
                    }
                    if i > 0 {
                        push_str(&mut out, " -> ");
                    } else {
                        proof {
                            assert(ids(path@.take(0)) =~= Seq::<Seq<char>>::empty());
                        }
                    }
                    push_str(&mut out, path[i].as_str());
                    proof {
                        if i == 0 {
                            assert(ids(path@.take(1)) =~= seq![path@[0]@]);
                        }
                    }
                    i = i + 1;
                }
                proof {
                    assert(path@.take(i as int) =~= path@);
                }
            },
            ExpandError::DepthExceeded(r) => {
                push_str(&mut out, "sub-recipes nested deeper than 8 at `");
                push_str(&mut out, r.as_str());
                push_str(&mut out, "`");
            },
            ExpandError::MissingYield(r) => {
                push_str(&mut out, "recipe `");
                push_str(&mut out, r.as_str());
                push_str(&mut out, "` is referenced by yield but declares none");
            },
            ExpandError::UnmeasurableYield(r) => {
                push_str(&mut out, "recipe `");
                push_str(&mut out, r.as_str());
                push_str(&mut out, "` declares an unmeasurable yield, which cannot be divided");
            },
            ExpandError::ZeroYield(r) => {
                push_str(&mut out, "recipe `");
                push_str(&mut out, r.as_str());
                push_str(&mut out, "` declares a zero yield");
            },
            ExpandError::YieldDimensionMismatch { recipe, declared, requested } => {
                push_str(&mut out, "recipe `");
                push_str(&mut out, recipe.as_str());
                push_str(&mut out, "` yields a ");
                push_dimension(&mut out, *declared);
                push_str(&mut out, " but is referenced as a ");
                push_dimension(&mut out, *requested);
            },
            ExpandError::Overflow => {
                push_str(&mut out, "an amount left the range in which quantities stay exact");
            },
        }
        proof {
            assert(out@ =~= expand_message(self@));
        }
        string_of(&out)
    }
}

/// One leaf ingredient requirement, already scaled by every factor on the
/// path from the list entry down to it.
#[derive(Debug, PartialEq, Eq)]
pub struct Contribution {
    pub ingredient: IngredientId,
    pub quantity: Quantity,
    /// The usage this came from, for tracing a cart line back to the line of
    /// the recipe that asked for it.
    pub usage: UsageId,
}

impl Clone for Contribution {
    fn clone(&self) -> (r: Self)
        ensures
            r == *self,
    {
        Contribution {
            ingredient: self.ingredient.clone(),
            quantity: self.quantity,
            usage: self.usage.clone(),
        }
    }
}

/// How much of `sub`, as written, an `amount` of it is.
pub open spec fn spec_sub_recipe_factor(sub: Recipe, amount: SubRecipeAmount) -> Result<
    Rational,
    ExpandFault,
> {
    match amount {
        SubRecipeAmount::Factor(f) => Ok(f),
        SubRecipeAmount::OfYield(requested) => match sub.yields {
            None => Err(ExpandFault::MissingYield(sub.id@)),
            Some(declared) => if declared.spec_dimension() != requested.spec_dimension() {
                Err(
                    ExpandFault::YieldDimensionMismatch {
                        recipe: sub.id@,
                        declared: declared.spec_dimension(),
                        requested: requested.spec_dimension(),
                    },
                )
            } else if declared.spec_dimension() == Dimension::Unmeasured {
                Err(ExpandFault::UnmeasurableYield(sub.id@))
            } else {
                match (declared.spec_in_base(), requested.spec_in_base()) {
                    (Some(d), Some(r)) => if d.num() == 0 {
                        Err(ExpandFault::ZeroYield(sub.id@))
                    } else {
                        match r.spec_div(d) {
                            Some(x) => Ok(x),
                            None => Err(ExpandFault::Overflow),
                        }
                    },
                    _ => Err(ExpandFault::Overflow),
                }
            },
        },
    }
}

/// Asking for an amount of what a sub-recipe yields takes the share that
/// amount is of the declared yield, both taken in the base unit of their
/// dimension: the factor is the requested base amount over the declared
/// one. 250 g of a pastry that yields 1 kg is a quarter of the pastry.
pub proof fn law_yield_share_is_base_ratio(sub: Recipe, requested: Quantity)
    requires
        sub.yields is Some,
        (sub.yields->0).value.in_range(),
        requested.value.in_range(),
    ensures
        spec_sub_recipe_factor(sub, SubRecipeAmount::OfYield(requested)) matches Ok(f) ==> ({
            let r = requested.base_parts();
            let y = (sub.yields->0).base_parts();
            &&& requested.spec_dimension() == (sub.yields->0).spec_dimension()
            &&& requested.spec_dimension() != Dimension::Unmeasured
            &&& y.0 != 0
            &&& denotes(f, r.0 * y.1, r.1 * y.0)
        }),
        ({
            let y = sub.yields->0;
            &&& requested.spec_dimension() == y.spec_dimension()
            &&& requested.spec_dimension() != Dimension::Unmeasured
            &&& y.value.num() != 0
            &&& requested.spec_in_base() matches Some(r)
            &&& y.spec_in_base() matches Some(d)
            &&& r.spec_div(d) is Some
        }) ==> spec_sub_recipe_factor(sub, SubRecipeAmount::OfYield(requested)) is Ok,
{
    let y = sub.yields->0;
    if requested.spec_dimension() == y.spec_dimension() && requested.spec_dimension()
        != Dimension::Unmeasured && y.value.num() != 0 && y.spec_in_base() is Some {
        lemma_factor_size(y.unit);
        let yf = y.unit.spec_base_factor()->0;
        lemma_arith_denotes(y.value, yf);
        let d = y.spec_in_base()->0;
        assert(d == y.value.spec_mul(yf)->0);
        lemma_in_range(d);
        assert(d.num() != 0) by (nonlinear_arith)
            requires
                d.num() * (y.value.den() * yf.den()) == (y.value.num() * yf.num()) * d.den(),
                y.value.num() != 0,
                yf.num() > 0,
                d.den() > 0,
        ;
    }
    if spec_sub_recipe_factor(sub, SubRecipeAmount::OfYield(requested)) is Ok {
        let f = spec_sub_recipe_factor(sub, SubRecipeAmount::OfYield(requested))->Ok_0;
        lemma_factor_size(requested.unit);
        lemma_factor_size(y.unit);
        let rf = requested.unit.spec_base_factor()->0;
        let yf = y.unit.spec_base_factor()->0;
        lemma_arith_denotes(requested.value, rf);
        lemma_arith_denotes(y.value, yf);
        assert(requested.spec_in_base() is Some && y.spec_in_base() is Some);
        let r = requested.spec_in_base()->0;
        let d = y.spec_in_base()->0;
        assert(r == requested.value.spec_mul(rf)->0 && d == y.value.spec_mul(yf)->0);
        lemma_in_range(r);
        lemma_in_range(d);
        lemma_spec_ops(r, d);
        assert(r.den() * d.num() != 0) by (nonlinear_arith)
            requires
                r.den() > 0,
                d.num() != 0,
        ;
        lemma_make_denotes(r.num() * d.den(), r.den() * d.num());
        let rp = requested.base_parts();
        let yp = y.base_parts();
        assert(yp.1 > 0) by (nonlinear_arith)
            requires
                yp.1 == y.value.den() * yf.den(),
                y.value.den() > 0,
                yf.den() > 0,
        ;
        assert(yp.0 != 0) by (nonlinear_arith)
            requires
                d.num() * yp.1 == yp.0 * d.den(),
                d.num() != 0,
                yp.1 > 0,
                d.den() > 0,
        ;
        assert(same_ratio(d.den(), d.num(), yp.1, yp.0)) by (nonlinear_arith)
            requires
                d.num() * yp.1 == yp.0 * d.den(),
        ;
        lemma_same_ratio_mul(r.num(), r.den(), rp.0, rp.1, d.den(), d.num(), yp.1, yp.0);
        lemma_same_ratio_trans(
            f.num(),
            f.den(),
            r.num() * d.den(),
            r.den() * d.num(),
            rp.0 * yp.1,
            rp.1 * yp.0,
        );
    }
}

/// The share taken of a sub-recipe does not depend on the units in which
/// its yield and the requested amount are written: restated in other units
/// of the same dimension with the same base amounts (1 kg or 1000 g), the
/// request gives the same factor, or fails the same way.
pub proof fn law_yield_share_ignores_units(
    sub1: Recipe,
    sub2: Recipe,
    requested1: Quantity,
    requested2: Quantity,
)
    requires
        sub1.id@ == sub2.id@,
        sub1.yields is Some,
        sub2.yields is Some,
        (sub1.yields->0).spec_dimension() == (sub2.yields->0).spec_dimension(),
        (sub1.yields->0).spec_in_base() == (sub2.yields->0).spec_in_base(),
        requested1.spec_dimension() == requested2.spec_dimension(),
        requested1.spec_in_base() == requested2.spec_in_base(),
    ensures
        spec_sub_recipe_factor(sub1, SubRecipeAmount::OfYield(requested1)) == spec_sub_recipe_factor(
            sub2,
            SubRecipeAmount::OfYield(requested2),
        ),
{
}

/// A multiple of a sub-recipe is taken as given, and a share of its yield
/// is refused for what is wrong with the yield: none declared, a yield of
/// another dimension than the request (both named), an unmeasured one, or
/// a declared yield of nothing.
pub proof fn law_sub_recipe_refusals(sub: Recipe, f: Rational, requested: Quantity)
    requires
        sub.yields is Some ==> (sub.yields->0).value.in_range(),
    ensures
        spec_sub_recipe_factor(sub, SubRecipeAmount::Factor(f)) == Ok::<Rational, ExpandFault>(f),
        ({
            let share = spec_sub_recipe_factor(sub, SubRecipeAmount::OfYield(requested));
            let y = sub.yields->0;
            let id = sub.id@;
            &&& sub.yields is None ==> share == Err::<Rational, ExpandFault>(
                ExpandFault::MissingYield(id),
            )
            &&& sub.yields is Some && y.spec_dimension() != requested.spec_dimension() ==> share
                == Err::<Rational, ExpandFault>(
                ExpandFault::YieldDimensionMismatch {
                    recipe: id,
                    declared: y.spec_dimension(),
                    requested: requested.spec_dimension(),
                },
            )
            &&& sub.yields is Some && y.spec_dimension() == requested.spec_dimension()
                && y.spec_dimension() == Dimension::Unmeasured ==> share == Err::<
                Rational,
                ExpandFault,
            >(ExpandFault::UnmeasurableYield(id))
            &&& sub.yields is Some && y.spec_dimension() == requested.spec_dimension()
                && y.spec_dimension() != Dimension::Unmeasured && y.value.num() == 0
                && y.spec_in_base() is Some && requested.spec_in_base() is Some ==> share
                == Err::<Rational, ExpandFault>(ExpandFault::ZeroYield(id))
        }),
{
    if sub.yields is Some {
        let y = sub.yields->0;
        if y.spec_dimension() != Dimension::Unmeasured && y.value.num() == 0 && y.spec_in_base() is Some {
            lemma_factor_size(y.unit);
            let yf = y.unit.spec_base_factor()->0;
            lemma_in_range(y.value);
            lemma_arith_denotes(y.value, yf);
            let d = y.spec_in_base()->0;
            assert(d == y.value.spec_mul(yf)->0);
            lemma_in_range(d);
            assert(d.num() == 0) by (nonlinear_arith)
                requires
                    d.num() * (y.value.den() * yf.den()) == (y.value.num() * yf.num()) * d.den(),
                    y.value.num() == 0,
                    y.value.den() > 0,
                    yf.den() > 0,
            ;
        }
    }
}

/// The contributions of recipe `id` scaled by `factor`, reached along `path`.
pub open spec fn spec_expand_into(
    id: Seq<char>,
    factor: Rational,
    recipes: RecipeIndex,
    path: Seq<Seq<char>>,
) -> Result<Seq<Contribution>, ExpandFault>
    decreases MAX_DEPTH - path.len(), 0int,
{
    if path.contains(id) {
        Err(ExpandFault::Cycle(path.push(id)))
    } else if path.len() >= MAX_DEPTH {
        Err(ExpandFault::DepthExceeded(id))
    } else {
        match recipes.spec_get(id) {
            None => Err(ExpandFault::UnknownRecipe(id)),
            Some(recipe) => spec_expand_components(
                recipe.components@,
                factor,
                recipes,
                path.push(id),
            ),
        }
    }
}

/// The contributions of `components`, in order, each scaled by `factor`;
/// the first failure wins.
pub open spec fn spec_expand_components(
    components: Seq<Component>,
    factor: Rational,
    recipes: RecipeIndex,
    path: Seq<Seq<char>>,
) -> Result<Seq<Contribution>, ExpandFault>
    decreases MAX_DEPTH - path.len(), components.len(),
{
    if components.len() == 0 {
        Ok(seq![])
    } else {
        let head = match components[0] {
            Component::Ingredient(u) => match u.quantity.spec_scaled(factor) {
                Some(q) => Ok(seq![Contribution { ingredient: u.ingredient, quantity: q, usage: u.id }]),
                None => Err(ExpandFault::Overflow),
            },
            Component::SubRecipe(s) => match recipes.spec_get(s.recipe@) {
                None => Err(ExpandFault::UnknownRecipe(s.recipe@)),
                Some(target) => match spec_sub_recipe_factor(target, s.amount) {
                    Err(e) => Err(e),
                    Ok(sf) => match factor.spec_mul(sf) {
                        None => Err(ExpandFault::Overflow),
                        Some(f2) => spec_expand_into(s.recipe@, f2, recipes, path),
                    },
                },
            },
        };
        match head {
            Err(e) => Err(e),
            Ok(a) => match spec_expand_components(components.drop_first(), factor, recipes, path) {
                Err(e) => Err(e),
                Ok(b) => Ok(a + b),
            },
        }
    }
}

/// What [`expand`] gives for `root` at `factor`.
pub open spec fn spec_expand(root: Seq<char>, factor: Rational, recipes: RecipeIndex) -> Result<
    Seq<Contribution>,
    ExpandFault,
> {
    spec_expand_into(root, factor, recipes, seq![])
}

/// Whether an exec result is the spec one.
pub open spec fn same_outcome<T>(r: Result<T, ExpandError>, s: Result<T, ExpandFault>) -> bool {
    match (r, s) {
        (Ok(a), Ok(b)) => a == b,
        (Err(e), Err(f)) => e@ == f,
        _ => false,
    }
}

/// Flattens `root` scaled by `factor` into leaf ingredient contributions.
///
/// Contributions are **not** merged here — the same ingredient may appear
/// several times. Merging is the cart's job, because only it knows the
/// ingredient coefficients needed to decide what may combine with what.
pub fn expand(root: &RecipeId, factor: Rational, recipes: &RecipeIndex) -> (r: Result<
    Vec<Contribution>,
    ExpandError,
>)
    ensures
        match (r, spec_expand(root@, factor, *recipes)) {
            (Ok(v), Ok(s)) => v@ == s,
            (Err(e), Err(f)) => e@ == f,
            _ => false,
        },
{
    let mut out: Vec<Contribution> = Vec::new();
    let mut path: Vec<RecipeId> = Vec::new();
    proof {
        assert(ids(path@) =~= Seq::<Seq<char>>::empty());
    }
    match expand_into(root, factor, recipes, &mut path, &mut out) {
        Ok(()) => {
            proof {
                assert(out@ =~= Seq::<Contribution>::empty() + out@);
            }
            Ok(out)
        },
        Err(e) => Err(e),
    }
}

fn clone_ids(path: &Vec<RecipeId>) -> (r: Vec<RecipeId>)
    ensures
        r@ == path@,
{
    let mut r: Vec<RecipeId> = Vec::new();
    let mut i: usize = 0;
    while i < path.len()
        invariant
            i <= path@.len(),
            r@ == path@.take(i as int),
        decreases path@.len() - i,
    {
        r.push(path[i].clone());
        proof {
            assert(r@ =~= path@.take(i + 1));
        }
        i = i + 1;
    }
    proof {
        assert(path@.take(i as int) =~= path@);
    }
    r
}

fn expand_into(
    id: &RecipeId,
    factor: Rational,
    recipes: &RecipeIndex,
    path: &mut Vec<RecipeId>,
    out: &mut Vec<Contribution>,
) -> (r: Result<(), ExpandError>)
    requires
        old(path)@.len() <= MAX_DEPTH,
    ensures
        match spec_expand_into(id@, factor, *recipes, ids(old(path)@)) {
            Ok(c) => r is Ok && final(out)@ == old(out)@ + c && final(path)@ == old(path)@,
            Err(f) => r matches Err(e) && e@ == f,
        },
    decreases MAX_DEPTH - old(path)@.len(),
{
    let ghost start = path@;
    let ghost base = out@;
    let mut k: usize = 0;
    while k < path.len()
        invariant
            path@ == start,
            k <= path@.len(),
            forall|j: int| 0 <= j < k ==> (#[trigger] path@[j])@ != id@,
        decreases path@.len() - k,
    {
        if path[k].same(id) {
            let mut cycle = clone_ids(path);
            cycle.push(id.clone());
            proof {
                assert(ids(start)[k as int] == id@);
                assert(ids(start).contains(id@));
                assert(ids(cycle@) =~= ids(start).push(id@));
            }
            return Err(ExpandError::Cycle(cycle));
        }
        k = k + 1;
    }
    proof {
        assert forall|j: int| 0 <= j < ids(start).len() implies ids(start)[j] != id@ by {
            assert(ids(start)[j] == start[j]@);
        }
    }
    if path.len() >= MAX_DEPTH {
        return Err(ExpandError::DepthExceeded(id.clone()));
    }
    let recipe = match recipes.get(id) {
        Some(r) => r,
        None => return Err(ExpandError::UnknownRecipe(id.clone())),
    };
    path.push(id.clone());
    let ghost inner = ids(start).push(id@);
    proof {
        assert(ids(path@) =~= inner);
    }
    let components = &recipe.components;
    let ghost all = components@;
    let ghost mut acc: Seq<Contribution> = seq![];
    let mut i: usize = 0;
    proof {
        assert(!ids(start).contains(id@));
        assert(spec_expand_into(id@, factor, *recipes, ids(start)) == spec_expand_components(
            all,
            factor,
            *recipes,
            inner,
        ));
        assert(all.skip(0) =~= all);
        assert(spec_expand_components(all, factor, *recipes, inner) == match spec_expand_components(
            all.skip(0),
            factor,
            *recipes,
            inner,
        ) {
            Ok(b) => Ok(acc + b),
            Err(e) => Err(e),
        }) by {
            assert forall|b: Seq<Contribution>| acc + b == b by {
                assert(acc + b =~= b);
            }
        }
    }
    while i < components.len()
        invariant
            i <= all.len(),
            *components == recipe.components,
            all == components@,
            recipes.spec_get(id@) == Some(*recipe),
            path@ == start.push(*id),
            ids(path@) == inner,
            inner.len() <= MAX_DEPTH,
            start.len() < MAX_DEPTH,
            out@ == base + acc,
            old(path)@ == start,
            old(out)@ == base,
            spec_expand_into(id@, factor, *recipes, ids(start)) == spec_expand_components(
                all,
                factor,
                *recipes,
                inner,
            ),
            spec_expand_components(all, factor, *recipes, inner) == match spec_expand_components(
                all.skip(i as int),
                factor,
                *recipes,
                inner,
            ) {
                Ok(b) => Ok(acc + b),
                Err(e) => Err(e),
            },
        decreases all.len() - i,
    {
        let ghost rest = all.skip(i as int);
        proof {
            assert(rest[0] == all[i as int]);
            assert(rest.drop_first() =~= all.skip(i + 1));
        }
        match &components[i] {
            Component::Ingredient(u) => {
                match u.quantity.checked_scaled(factor) {
                    Some(q) => {
                        let c = Contribution {
                            ingredient: u.ingredient.clone(),
                            quantity: q,
                            usage: u.id.clone(),
                        };
                        out.push(c);
                        proof {
                            let a = seq![c];
                            let prev = acc;
                            acc = prev + a;
                            assert(out@ =~= base + acc);
                            assert forall|b: Seq<Contribution>| prev + (a + b) == acc + b by {
                                assert(prev + (a + b) =~= acc + b);
                            }
                            lemma_step(all, i as int, factor, *recipes, inner, prev, a);
                        }
                    },
                    None => {
                        proof {
                            assert(rest.len() > 0);
                            assert(rest[0] == Component::Ingredient(*u));
                            assert(spec_expand_components(rest, factor, *recipes, inner) == Err::<
                                Seq<Contribution>,
                                ExpandFault,
                            >(ExpandFault::Overflow));
                        }
                        return Err(ExpandError::Overflow);
                    },
                }
            },
            Component::SubRecipe(s) => {
                let target = match recipes.get(&s.recipe) {
                    Some(t) => t,
                    None => return Err(ExpandError::UnknownRecipe(s.recipe.clone())),
                };
                let sf = match sub_recipe_factor(target, &s.amount) {
                    Ok(f) => f,
                    Err(e) => return Err(e),
                };
                let f2 = match factor.checked_mul(&sf) {
                    Some(f) => f,
                    None => return Err(ExpandError::Overflow),
                };
                let ghost before = out@;
                match expand_into(&s.recipe, f2, recipes, path, out) {
                    Ok(()) => {
                        proof {
                            let a = out@.subrange(before.len() as int, out@.len() as int);
                            match spec_expand_into(s.recipe@, f2, *recipes, inner) {
                                Ok(c) => {
                                    assert(c =~= a);
                                },
                                Err(_) => {},
                            }
                            assert(spec_expand_into(s.recipe@, f2, *recipes, inner) == Ok::<
                                Seq<Contribution>,
                                ExpandFault,
                            >(a));
                            assert(rest[0] == Component::SubRecipe(*s));
                            assert(out@ =~= before + a);
                            let prev = acc;
                            acc = prev + a;
                            assert(out@ =~= base + acc);
                            assert forall|b: Seq<Contribution>| prev + (a + b) == acc + b by {
                                assert(prev + (a + b) =~= acc + b);
                            }
                            lemma_step(all, i as int, factor, *recipes, inner, prev, a);
                        }
                    },
                    Err(e) => return Err(e),
                }
            },
        }
        i = i + 1;
    }
    proof {
        assert(all.skip(i as int) =~= Seq::<Component>::empty());
        assert(acc + seq![] =~= acc);
    }
    path.pop();
    proof {
        assert(path@ =~= start);
    }
    Ok(())
}

/// One more component consumed: if the head of `all.skip(i)` contributes
/// `a`, the accumulated prefix grows by `a`.
proof fn lemma_step(
    all: Seq<Component>,
    i: int,
    factor: Rational,
    recipes: RecipeIndex,
    path: Seq<Seq<char>>,
    prev: Seq<Contribution>,
    a: Seq<Contribution>,
)
    requires
        0 <= i < all.len(),
        spec_expand_components(all, factor, recipes, path) == match spec_expand_components(
            all.skip(i),
            factor,
            recipes,
            path,
        ) {
            Ok(b) => Ok(prev + b),
            Err(e) => Err(e),
        },
        spec_expand_components(all.skip(i), factor, recipes, path) == match spec_expand_components(
            all.skip(i + 1),
            factor,
            recipes,
            path,
        ) {
            Ok(b) => Ok(a + b),
            Err(e) => Err(e),
        },
    ensures
        spec_expand_components(all, factor, recipes, path) == match spec_expand_components(
            all.skip(i + 1),
            factor,
            recipes,
            path,
        ) {
            Ok(b) => Ok((prev + a) + b),
            Err(e) => Err(e),
        },
{
    match spec_expand_components(all.skip(i + 1), factor, recipes, path) {
        Ok(b) => {
            assert(prev + (a + b) =~= (prev + a) + b);
        },
        Err(e) => {},
    }
}

fn sub_recipe_factor(sub: &Recipe, amount: &SubRecipeAmount) -> (r: Result<Rational, ExpandError>)
    ensures
        same_outcome(r, spec_sub_recipe_factor(*sub, *amount)),
{
    match amount {
        SubRecipeAmount::Factor(f) => Ok(*f),
        SubRecipeAmount::OfYield(requested) => {
            let declared = match &sub.yields {
                Some(d) => d,
                None => return Err(ExpandError::MissingYield(sub.id.clone())),
            };
            if declared.dimension() != requested.dimension() {
                return Err(
                    ExpandError::YieldDimensionMismatch {
                        recipe: sub.id.clone(),
                        declared: declared.dimension(),
                        requested: requested.dimension(),
                    },
                );
            }
            if declared.dimension() == Dimension::Unmeasured {
                return Err(ExpandError::UnmeasurableYield(sub.id.clone()));
            }
            let (d, q) = match (declared.in_base(), requested.in_base()) {
                (Some(d), Some(q)) => (d, q),
                _ => return Err(ExpandError::Overflow),
            };
            if d.numer() == 0 {
                return Err(ExpandError::ZeroYield(sub.id.clone()));
            }
            match q.checked_div(&d) {
                Some(x) => Ok(x),
                None => Err(ExpandError::Overflow),
            }
        },
    }
}

} // verus!
