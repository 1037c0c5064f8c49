//! Deriving the cart from the list.
//!
//! The cart is a pure function of the sources plus the overlay, recomputed on
//! every change and never stored. The pipeline is:
//!
//! ```text
//! list -> expand recipes -> group by ingredient -> merge units -> resolve
//!         check state -> sort by aisle
//! ```

use vstd::multiset::Multiset;
use vstd::prelude::*;

use crate::expand::{
    expand, expand_message, spec_expand, spec_expand_components, Contribution, ExpandError,
    ExpandFault, RecipeIndex,
};
use crate::recipe::Component;
use crate::ids::{IngredientId, ListEntryId, RecipeId};
use crate::ingredient::{Aisle, Ingredient};
pub use crate::ingredient_index::IngredientIndex;
use crate::list::{ListEntry, ListItem, ShoppingList};
use crate::overlay::{resolve, spec_resolve, CheckState, Overlay};
use crate::quantity::Quantity;
use crate::rational::{
    denotes, from_int, lemma_add_whole, lemma_arith_denotes, lemma_from_int, lemma_in_range,
    lemma_make_range, lemma_make_reduced, lemma_make_same, lemma_make_small, lemma_mul_exact, lemma_same_ratio_add,
    lemma_same_ratio_mul, lemma_same_ratio_trans, lemma_spec_ops, make, reduced, same_ratio, Rational,
};
use crate::text::{push_str, string_of, str_lt, lemma_seq_lt_asymmetric, lemma_seq_lt_irreflexive, lemma_seq_lt_total, lemma_seq_lt_transitive, seq_lt};
use crate::units::{lemma_factor_size, Dimension, MassUnit, Unit};

verus! {

#[derive(Debug, Clone, PartialEq, Eq)]
pub enum CartError {
    Expand(ExpandError),
    /// An ingredient that is not in the library.
    UnknownIngredient(IngredientId),
    /// A recipe that is not in the library.
    UnknownRecipe(RecipeId),
    /// An amount's arithmetic went past what 128-bit integers hold.
    Overflow,
}

/// A [`CartError`] as values: ids by their text.
pub enum CartFault {
    Expand(ExpandFault),
    UnknownIngredient(Seq<char>),
    UnknownRecipe(Seq<char>),
    Overflow,
}

impl View for CartError {
    type V = CartFault;

    open spec fn view(&self) -> CartFault {
        match self {
            CartError::Expand(e) => CartFault::Expand(e@),
            CartError::UnknownIngredient(i) => CartFault::UnknownIngredient(i@),
            CartError::UnknownRecipe(r) => CartFault::UnknownRecipe(r@),
            CartError::Overflow => CartFault::Overflow,
        }
    }
}

/// The sentence a cart fault is reported with.
pub open spec fn cart_message(f: CartFault) -> Seq<char> {
    match f {
        CartFault::Expand(e) => expand_message(e),
        CartFault::UnknownIngredient(i) => "ingredient `"@ + i + "` is not in the library"@,
        CartFault::UnknownRecipe(r) => "recipe `"@ + r + "` is not in the library"@,
        CartFault::Overflow => "an amount left the range in which quantities stay exact"@,
    }
}

impl CartError {
    /// The error as a sentence for a person.
    pub fn message(&self) -> (s: String)
        ensures
            s@ == cart_message(self@),
    {
        match self {
            CartError::Expand(e) => e.message(),
            CartError::UnknownIngredient(i) => {
                let mut out: Vec<char> = Vec::new();
                push_str(&mut out, "ingredient `");
                push_str(&mut out, i.as_str());
                push_str(&mut out, "` is not in the library");
                string_of(&out)
            },
            CartError::UnknownRecipe(r) => {
                let mut out: Vec<char> = Vec::new();
                push_str(&mut out, "recipe `");
                push_str(&mut out, r.as_str());
                push_str(&mut out, "` is not in the library");
                string_of(&out)
            },
            CartError::Overflow => {
                let mut out: Vec<char> = Vec::new();
                push_str(&mut out, "an amount left the range in which quantities stay exact");
                proof {
                    assert(out@ =~= "an amount left the range in which quantities stay exact"@);
                }
                string_of(&out)
            },
        }
    }
}

/// One row of the cart: everything the list asks for of one ingredient.
#[derive(Debug, Clone, PartialEq, Eq)]
pub struct CartLine {
    pub ingredient: IngredientId,
    /// Denormalised for sorting and display.
    pub name: String,
    pub aisle: Aisle,
    pub staple: bool,
    /// Usually one amount. More than one when the contributions could not all
    /// be merged — "300 g + 2 tbsp" is the honest rendering when no density is
    /// known.
    pub amounts: Vec<Quantity>,
    pub state: CheckState,
    /// Which list entries asked for this, in ascending order and each once.
    /// Checking one line advances every one of them at once.
    pub sources: Vec<ListEntryId>,
}

impl CartLine {
    /// Whether `entry` is among the list entries that asked for this line.
    pub open spec fn sourced_by(self, entry: Seq<char>) -> bool {
        holds(self.sources@, entry)
    }

    pub fn is_settled(&self) -> (b: bool)
        ensures
            b == self.state.spec_is_settled(),
    {
        self.state.is_settled()
    }

    /// Whether `entry` is among the list entries that asked for this line.
    pub fn has_source(&self, entry: &ListEntryId) -> (b: bool)
        ensures
            b == self.sourced_by(entry@),
    {
        let mut j: usize = 0;
        while j < self.sources.len()
            invariant
                j <= self.sources@.len(),
                forall|k: int| 0 <= k < j ==> (#[trigger] self.sources@[k])@ != entry@,
            decreases self.sources@.len() - j,
        {
            if self.sources[j].same(entry) {
                return true;
            }
            j = j + 1;
        }
        false
    }
}

#[derive(Debug, Clone, Default, PartialEq, Eq)]
pub struct Cart {
    /// Sorted by aisle, then name — the walking order through the shop.
    pub lines: Vec<CartLine>,
}

/// How far through a list entry the shopping has got.
#[derive(Debug, Clone, PartialEq, Eq)]
pub struct EntryProgress {
    pub entry: ListEntryId,
    pub settled: usize,
    pub total: usize,
}

impl EntryProgress {
    pub open spec fn spec_is_complete(self) -> bool {
        self.total > 0 && self.settled == self.total
    }

    /// An entry that contributes nothing is deliberately never complete: an
    /// empty recipe is a data error, and it should stay visible rather than
    /// silently vanish from the list.
    pub fn is_complete(&self) -> (b: bool)
        ensures
            b == self.spec_is_complete(),
    {
        self.total > 0 && self.settled == self.total
    }
}

/// The number of `lines` asked for by `entry`.
pub open spec fn lines_from(lines: Seq<CartLine>, entry: Seq<char>) -> nat
    decreases lines.len(),
{
    if lines.len() == 0 {
        0
    } else {
        lines_from(lines.drop_last(), entry) + if lines.last().sourced_by(entry) {
            1nat
        } else {
            0nat
        }
    }
}

/// The number of settled `lines` asked for by `entry`.
pub open spec fn settled_from(lines: Seq<CartLine>, entry: Seq<char>) -> nat
    decreases lines.len(),
{
    if lines.len() == 0 {
        0
    } else {
        settled_from(lines.drop_last(), entry) + if lines.last().sourced_by(entry)
            && lines.last().state.spec_is_settled() {
            1nat
        } else {
            0nat
        }
    }
}

proof fn lemma_counts_bounded(lines: Seq<CartLine>, entry: Seq<char>)
    ensures
        settled_from(lines, entry) <= lines_from(lines, entry) <= lines.len(),
    decreases lines.len(),
{
    if lines.len() > 0 {
        lemma_counts_bounded(lines.drop_last(), entry);
    }
}

/// Still to pick up.
pub open spec fn to_pick(s: CheckState) -> bool {
    !s.spec_is_settled()
}

/// Put in the trolley by someone.
pub open spec fn picked(s: CheckState) -> bool {
    s is Checked
}

/// Assumed to be at home already.
pub open spec fn at_home(s: CheckState) -> bool {
    s is AutoChecked
}

/// The lines whose state passes `keep`, in cart order.
pub open spec fn lines_where(lines: Seq<CartLine>, keep: spec_fn(CheckState) -> bool) -> Seq<
    CartLine,
>
    decreases lines.len(),
{
    if lines.len() == 0 {
        seq![]
    } else {
        let rest = lines_where(lines.drop_last(), keep);
        if keep(lines.last().state) {
            rest.push(lines.last())
        } else {
            rest
        }
    }
}

impl Cart {
    /// The line of `ingredient`, if the cart has one.
    pub fn line(&self, ingredient: &IngredientId) -> (r: Option<&CartLine>)
        ensures
            r matches Some(l) ==> exists|i: int|
                0 <= i < self.lines@.len() && self.lines@[i] == *l && l.ingredient@ == ingredient@
                    && forall|j: int| 0 <= j < i ==> (#[trigger] self.lines@[j]).ingredient@ != ingredient@,
            r is None ==> forall|j: int|
                0 <= j < self.lines@.len() ==> (#[trigger] self.lines@[j]).ingredient@ != ingredient@,
    {
        let mut i: usize = 0;
        while i < self.lines.len()
            invariant
                i <= self.lines@.len(),
                forall|j: int| 0 <= j < i ==> (#[trigger] self.lines@[j]).ingredient@ != ingredient@,
            decreases self.lines@.len() - i,
        {
            if self.lines[i].ingredient.same(ingredient) {
                return Some(&self.lines[i]);
            }
            i = i + 1;
        }
        None
    }

    fn section(&self, which: u8) -> (r: Vec<&CartLine>)
        requires
            which < 3,
        ensures
            r@.len() == lines_where(self.lines@, section_filter(which)).len(),
            forall|k: int|
                0 <= k < r@.len() ==> *r@[k] == lines_where(self.lines@, section_filter(which))[k],
    {
        let ghost keep = section_filter(which);
        let mut r: Vec<&CartLine> = Vec::new();
        let mut i: usize = 0;
        while i < self.lines.len()
            invariant
                i <= self.lines@.len(),
                keep == section_filter(which),
                which < 3,
                r@.len() == lines_where(self.lines@.take(i as int), keep).len(),
                forall|k: int|
                    0 <= k < r@.len() ==> *r@[k] == lines_where(self.lines@.take(i as int), keep)[k],
            decreases self.lines@.len() - i,
        {
            let line = &self.lines[i];
            let wanted = if which == 0 {
                !line.state.is_settled()
            } else if which == 1 {
                matches!(line.state, CheckState::Checked { .. })
            } else {
                matches!(line.state, CheckState::AutoChecked)
            };
            proof {
                assert(self.lines@.take(i + 1).drop_last() =~= self.lines@.take(i as int));
                assert(wanted == keep(line.state));
            }
            if wanted {
                r.push(line);
            }
            i = i + 1;
        }
        proof {
            assert(self.lines@.take(i as int) =~= self.lines@);
        }
        r
    }

    /// What is still to pick up — the working view in the shop.
    pub fn to_buy(&self) -> (r: Vec<&CartLine>)
        ensures
            r@.len() == lines_where(self.lines@, |s: CheckState| to_pick(s)).len(),
            forall|k: int|
                0 <= k < r@.len() ==> *r@[k] == lines_where(
                    self.lines@,
                    |s: CheckState| to_pick(s),
                )[k],
    {
        proof {
            assert(section_filter(0) == (|s: CheckState| to_pick(s)));
        }
        self.section(0)
    }

    /// The "Bought" section: someone put it in the trolley.
    pub fn bought(&self) -> (r: Vec<&CartLine>)
        ensures
            r@.len() == lines_where(self.lines@, |s: CheckState| picked(s)).len(),
            forall|k: int|
                0 <= k < r@.len() ==> *r@[k] == lines_where(
                    self.lines@,
                    |s: CheckState| picked(s),
                )[k],
    {
        proof {
            assert(section_filter(1) == (|s: CheckState| picked(s)));
        }
        self.section(1)
    }

    /// The "Already at home" section — kept apart from [`Cart::bought`]
    /// because the two do not mean the same thing, and merging them makes
    /// unchecking a staple hard to discover.
    pub fn already_at_home(&self) -> (r: Vec<&CartLine>)
        ensures
            r@.len() == lines_where(self.lines@, |s: CheckState| at_home(s)).len(),
            forall|k: int|
                0 <= k < r@.len() ==> *r@[k] == lines_where(
                    self.lines@,
                    |s: CheckState| at_home(s),
                )[k],
    {
        proof {
            assert(section_filter(2) == (|s: CheckState| at_home(s)));
        }
        self.section(2)
    }

    /// Per-entry progress, in list order. A recipe shows "5/7" until every
    /// ingredient it contributed is settled.
    pub fn progress(&self, list: &ShoppingList) -> (r: Vec<EntryProgress>)
        ensures
            r@.len() == list.entries@.len(),
            forall|i: int|
                #![trigger r@[i]]
                0 <= i < r@.len() ==> {
                    &&& r@[i].entry == list.entries@[i].id
                    &&& r@[i].total == lines_from(self.lines@, list.entries@[i].id@)
                    &&& r@[i].settled == settled_from(self.lines@, list.entries@[i].id@)
                },
    {
        let mut r: Vec<EntryProgress> = Vec::new();
        let mut i: usize = 0;
        while i < list.entries.len()
            invariant
                i <= list.entries@.len(),
                r@.len() == i,
                forall|k: int|
                    #![trigger r@[k]]
                    0 <= k < i ==> {
                        &&& r@[k].entry == list.entries@[k].id
                        &&& r@[k].total == lines_from(self.lines@, list.entries@[k].id@)
                        &&& r@[k].settled == settled_from(self.lines@, list.entries@[k].id@)
                    },
            decreases list.entries@.len() - i,
        {
            let id = &list.entries[i].id;
            let mut total: usize = 0;
            let mut settled: usize = 0;
            let mut j: usize = 0;
            while j < self.lines.len()
                invariant
                    j <= self.lines@.len(),
                    total == lines_from(self.lines@.take(j as int), id@),
                    settled == settled_from(self.lines@.take(j as int), id@),
                decreases self.lines@.len() - j,
            {
                proof {
                    assert(self.lines@.take(j + 1).drop_last() =~= self.lines@.take(j as int));
                    lemma_counts_bounded(self.lines@.take(j as int), id@);
                }
                let line = &self.lines[j];
                if line.has_source(id) {
                    total = total + 1;
                    if line.is_settled() {
                        settled = settled + 1;
                    }
                }
                j = j + 1;
            }
            proof {
                assert(self.lines@.take(j as int) =~= self.lines@);
            }
            r.push(EntryProgress { entry: id.clone(), settled, total });
            i = i + 1;
        }
        r
    }
}

/// The state filter behind each section of the cart.
pub open spec fn section_filter(which: u8) -> spec_fn(CheckState) -> bool {
    if which == 0 {
        |s: CheckState| to_pick(s)
    } else if which == 1 {
        |s: CheckState| picked(s)
    } else {
        |s: CheckState| at_home(s)
    }
}

/// Running totals of one ingredient's contributions: one per measurable
/// dimension (in its base unit), the pinches, and whether anyone said "to
/// taste".
#[derive(Debug, Clone, Copy, PartialEq, Eq)]
pub struct Tally {
    pub count: Option<Rational>,
    pub mass: Option<Rational>,
    pub volume: Option<Rational>,
    pub pinch: Option<Rational>,
    pub to_taste: bool,
}

/// `slot + v`, an empty slot counting as zero; `None` out of range.
pub open spec fn plus(slot: Option<Rational>, v: Rational) -> Option<Rational> {
    match slot {
        None => from_int(0).spec_add(v),
        Some(t) => t.spec_add(v),
    }
}

/// The total of measurable dimension `d`.
pub open spec fn slot_of(t: Tally, d: Dimension) -> Option<Rational> {
    match d {
        Dimension::Count => t.count,
        Dimension::Mass => t.mass,
        Dimension::Volume => t.volume,
        Dimension::Unmeasured => None,
    }
}

/// `t` with the total of measurable dimension `d` replaced by `v`.
pub open spec fn with_slot(t: Tally, d: Dimension, v: Option<Rational>) -> Tally {
    match d {
        Dimension::Count => Tally { count: v, ..t },
        Dimension::Mass => Tally { mass: v, ..t },
        Dimension::Volume => Tally { volume: v, ..t },
        Dimension::Unmeasured => t,
    }
}

/// `t` after counting `q` in: measured amounts add up in their dimension's
/// base unit, pinches add up, and "to taste" is presence, not magnitude — two
/// recipes saying it do not add up to two of anything. `None` out of range.
pub open spec fn spec_tally_one(t: Tally, q: Quantity) -> Option<Tally> {
    let d = q.spec_dimension();
    if d == Dimension::Unmeasured {
        if q.unit == Unit::ToTaste {
            Some(Tally { to_taste: true, ..t })
        } else {
            match plus(t.pinch, q.value) {
                Some(v) => Some(Tally { pinch: Some(v), ..t }),
                None => None,
            }
        }
    } else {
        match q.spec_in_base() {
            None => None,
            Some(b) => match plus(slot_of(t, d), b) {
                Some(v) => Some(with_slot(t, d, Some(v))),
                None => None,
            },
        }
    }
}

pub open spec fn empty_tally() -> Tally {
    Tally { count: None, mass: None, volume: None, pinch: None, to_taste: false }
}

/// The tally of `qs`, counted in order.
pub open spec fn spec_tally(qs: Seq<Quantity>) -> Option<Tally>
    decreases qs.len(),
{
    if qs.len() == 0 {
        Some(empty_tally())
    } else {
        match spec_tally(qs.drop_last()) {
            None => None,
            Some(t) => spec_tally_one(t, qs.last()),
        }
    }
}

/// Whether a total of `d` joins a round that targets `target`.
pub open spec fn joins(ing: Ingredient, d: Dimension, target: Dimension) -> bool {
    d == target || ing.spec_can_convert(d, target)
}

/// A base-unit total of `d`, re-expressed in the base unit of `target`.
pub open spec fn converted(ing: Ingredient, v: Rational, d: Dimension, target: Dimension) -> Option<
    Rational,
> {
    if d == target {
        Some(v)
    } else {
        match d.spec_base_unit() {
            None => None,
            Some(u) => match ing.spec_convert(Quantity { value: v, unit: u }, target) {
                Some(q) => Some(q.value),
                None => None,
            },
        }
    }
}

/// `acc` after absorbing the total of `d` into a round targeting `target`.
pub open spec fn absorb(acc: Option<Rational>, ing: Ingredient, t: Tally, d: Dimension, target: Dimension) -> Option<Rational> {
    match slot_of(t, d) {
        None => acc,
        Some(v) => if joins(ing, d, target) {
            match (acc, converted(ing, v, d, target)) {
                (Some(a), Some(c)) => a.spec_add(c),
                _ => None,
            }
        } else {
            acc
        },
    }
}

/// Everything of `t` that a round targeting `target` absorbs, summed in the
/// base unit of `target`.
pub open spec fn round_total(ing: Ingredient, t: Tally, target: Dimension) -> Option<Rational> {
    let c = absorb(Some(from_int(0)), ing, t, Dimension::Count, target);
    let m = absorb(c, ing, t, Dimension::Mass, target);
    absorb(m, ing, t, Dimension::Volume, target)
}

/// `t` without what a round targeting `target` absorbs.
pub open spec fn after_round(ing: Ingredient, t: Tally, target: Dimension) -> Tally {
    Tally {
        count: if joins(ing, Dimension::Count, target) { None } else { t.count },
        mass: if joins(ing, Dimension::Mass, target) { None } else { t.mass },
        volume: if joins(ing, Dimension::Volume, target) { None } else { t.volume },
        ..t
    }
}

/// How many measurable dimensions `t` still holds.
pub open spec fn measured_left(t: Tally) -> nat {
    (if t.count is Some { 1nat } else { 0nat }) + (if t.mass is Some { 1nat } else { 0nat }) + (
    if t.volume is Some { 1nat } else { 0nat })
}

/// The most preferred dimension `t` holds: count (you pick up items), then
/// mass (shops have scales), then volume.
pub open spec fn preferred(t: Tally) -> Dimension {
    if t.count is Some {
        Dimension::Count
    } else if t.mass is Some {
        Dimension::Mass
    } else {
        Dimension::Volume
    }
}

/// The amount a round targeting `target` yields for a total `v`: countable
/// lines round up — you cannot buy 4.33 tomatoes — and the result is put in
/// the unit a person would read it in.
pub open spec fn round_amount(v: Rational, target: Dimension) -> Quantity {
    let q = Quantity { value: v, unit: target.spec_base_unit()->0 };
    if target == Dimension::Count {
        q.spec_ceil_to_whole().spec_humanized()
    } else {
        q.spec_humanized()
    }
}

/// The measured amounts of `t`: greedily, take the most preferred dimension
/// present, absorb everything convertible into it, repeat on what is left.
pub open spec fn spec_merge_measured(ing: Ingredient, t: Tally) -> Option<Seq<Quantity>>
    decreases measured_left(t),
{
    if measured_left(t) == 0 {
        Some(seq![])
    } else {
        let target = preferred(t);
        match round_total(ing, t, target) {
            None => None,
            Some(v) => match spec_merge_measured(ing, after_round(ing, t, target)) {
                None => None,
                Some(rest) => Some(seq![round_amount(v, target)] + rest),
            },
        }
    }
}

/// The unmeasured amounts of `t`: the pinches, then "to taste".
pub open spec fn unmeasured_amounts(t: Tally) -> Seq<Quantity> {
    let p = match t.pinch {
        Some(v) => seq![Quantity { value: v, unit: Unit::Pinch }],
        None => seq![],
    };
    if t.to_taste {
        p.push(Quantity { value: from_int(1), unit: Unit::ToTaste })
    } else {
        p
    }
}

/// Every contribution of one ingredient combined into as few amounts as its
/// coefficients allow; `None` when a sum leaves the exact range.
pub open spec fn spec_merge(ing: Ingredient, qs: Seq<Quantity>) -> Option<Seq<Quantity>> {
    match spec_tally(qs) {
        None => None,
        Some(t) => match spec_merge_measured(ing, t) {
            None => None,
            Some(m) => Some(m + unmeasured_amounts(t)),
        },
    }
}

fn plus_exec(slot: Option<Rational>, v: &Rational) -> (r: Option<Rational>)
    ensures
        r == plus(slot, *v),
{
    match slot {
        None => Rational::zero().checked_add(v),
        Some(t) => t.checked_add(v),
    }
}

fn tally_one(t: Tally, q: &Quantity) -> (r: Option<Tally>)
    ensures
        r == spec_tally_one(t, *q),
{
    let d = q.dimension();
    if d == Dimension::Unmeasured {
        if q.unit == Unit::ToTaste {
            return Some(Tally { to_taste: true, ..t });
        }
        return match plus_exec(t.pinch, &q.value) {
            Some(v) => Some(Tally { pinch: Some(v), ..t }),
            None => None,
        };
    }
    let b = match q.in_base() {
        Some(b) => b,
        None => return None,
    };
    match d {
        Dimension::Count => match plus_exec(t.count, &b) {
            Some(v) => Some(Tally { count: Some(v), ..t }),
            None => None,
        },
        Dimension::Mass => match plus_exec(t.mass, &b) {
            Some(v) => Some(Tally { mass: Some(v), ..t }),
            None => None,
        },
        _ => match plus_exec(t.volume, &b) {
            Some(v) => Some(Tally { volume: Some(v), ..t }),
            None => None,
        },
    }
}

fn absorb_exec(acc: Option<Rational>, ing: &Ingredient, t: &Tally, d: Dimension, target: Dimension) -> (r: Option<Rational>)
    requires
        d != Dimension::Unmeasured,
    ensures
        r == absorb(acc, *ing, *t, d, target),
{
    let slot = match d {
        Dimension::Count => t.count,
        Dimension::Mass => t.mass,
        _ => t.volume,
    };
    let v = match slot {
        None => return acc,
        Some(v) => v,
    };
    if d != target && !ing.can_convert(d, target) {
        return acc;
    }
    let a = match acc {
        None => return None,
        Some(a) => a,
    };
    let c = if d == target {
        v
    } else {
        let unit = match d.base_unit() {
            Some(u) => u,
            None => return None,
        };
        match ing.convert(&Quantity::new(v, unit), target) {
            Some(q) => q.value,
            None => return None,
        }
    };
    a.checked_add(&c)
}

/// Combines every contribution of one ingredient into as few amounts as its
/// coefficients allow.
///
/// Greedy over [`crate::units::MERGE_PREFERENCE`]: take the most preferred
/// dimension present, absorb everything convertible into it, repeat on what
/// is left. Anything that never becomes convertible ends up as its own
/// amount. `None` when a sum leaves the range in which amounts stay exact.
pub fn merge(ingredient: &Ingredient, quantities: &Vec<Quantity>) -> (r: Option<Vec<Quantity>>)
    ensures
        match (r, spec_merge(*ingredient, quantities@)) {
            (Some(v), Some(s)) => v@ == s,
            (None, None) => true,
            _ => false,
        },
{
    let mut t = Tally { count: None, mass: None, volume: None, pinch: None, to_taste: false };
    let mut i: usize = 0;
    while i < quantities.len()
        invariant
            i <= quantities@.len(),
            spec_tally(quantities@.take(i as int)) == Some(t),
        decreases quantities@.len() - i,
    {
        proof {
            assert(quantities@.take(i + 1).drop_last() =~= quantities@.take(i as int));
        }
        t = match tally_one(t, &quantities[i]) {
            Some(n) => n,
            None => {
                proof {
                    lemma_tally_stays_none(quantities@, i as int + 1);
                    assert(quantities@.take(quantities@.len() as int) =~= quantities@);
                }
                return None;
            },
        };
        i = i + 1;
    }
    proof {
        assert(quantities@.take(i as int) =~= quantities@);
    }
    let whole = t;
    let mut amounts: Vec<Quantity> = Vec::new();
    while t.count.is_some() || t.mass.is_some() || t.volume.is_some()
        invariant
            spec_tally(quantities@) == Some(whole),
            t.pinch == whole.pinch,
            t.to_taste == whole.to_taste,
            spec_merge_measured(*ingredient, whole) == match spec_merge_measured(*ingredient, t) {
                Some(rest) => Some(amounts@ + rest),
                None => None,
            },
        decreases measured_left(t),
    {
        let ghost prev = t;
        let ghost before = amounts@;
        match merge_round(ingredient, &t) {
            None => return None,
            Some((amount, next)) => {
                amounts.push(amount);
                t = next;
                proof {
                    match spec_merge_measured(*ingredient, t) {
                        Some(rest) => {
                            assert(before + (seq![amount] + rest) =~= amounts@ + rest);
                        },
                        None => {},
                    }
                }
            },
        }
    }
    let ghost measured = amounts@;
    if let Some(p) = t.pinch {
        amounts.push(Quantity::new(p, Unit::Pinch));
    }
    if t.to_taste {
        amounts.push(Quantity::to_taste());
    }
    proof {
        assert(spec_merge_measured(*ingredient, t) == Some(Seq::<Quantity>::empty()));
        assert(measured + Seq::<Quantity>::empty() =~= measured);
        assert(amounts@ =~= measured + unmeasured_amounts(whole));
    }
    Some(amounts)
}

/// One round of [`merge`]: the amount for the most preferred dimension left,
/// and what is left after it.
fn merge_round(ingredient: &Ingredient, t: &Tally) -> (r: Option<(Quantity, Tally)>)
    requires
        measured_left(*t) > 0,
    ensures
        match (r, round_total(*ingredient, *t, preferred(*t))) {
            (Some((q, n)), Some(v)) => q == round_amount(v, preferred(*t)) && n == after_round(
                *ingredient,
                *t,
                preferred(*t),
            ) && n.pinch == t.pinch && n.to_taste == t.to_taste && measured_left(n) < measured_left(*t),
            (None, None) => true,
            _ => false,
        },
{
    let target = if t.count.is_some() {
        Dimension::Count
    } else if t.mass.is_some() {
        Dimension::Mass
    } else {
        Dimension::Volume
    };
    let c = absorb_exec(Some(Rational::zero()), ingredient, t, Dimension::Count, target);
    let m = absorb_exec(c, ingredient, t, Dimension::Mass, target);
    let total = match absorb_exec(m, ingredient, t, Dimension::Volume, target) {
        Some(v) => v,
        None => return None,
    };
    let unit = match target.base_unit() {
        Some(u) => u,
        None => return None,
    };
    let mut amount = Quantity::new(total, unit);
    if target == Dimension::Count {
        amount = amount.ceil_to_whole();
    }
    let next = Tally {
        count: if target == Dimension::Count || ingredient.can_convert(Dimension::Count, target) {
            None
        } else {
            t.count
        },
        mass: if target == Dimension::Mass || ingredient.can_convert(Dimension::Mass, target) {
            None
        } else {
            t.mass
        },
        volume: if target == Dimension::Volume || ingredient.can_convert(Dimension::Volume, target) {
            None
        } else {
            t.volume
        },
        ..*t
    };
    Some((amount.humanized(), next))
}

proof fn lemma_tally_stays_none(qs: Seq<Quantity>, i: int)
    requires
        0 <= i <= qs.len(),
        spec_tally(qs.take(i)) is None,
    ensures
        spec_tally(qs) is None,
    decreases qs.len() - i,
{
    if i < qs.len() {
        assert(qs.take(i + 1).drop_last() =~= qs.take(i));
        lemma_tally_stays_none(qs, i + 1);
    } else {
        assert(qs.take(i) =~= qs);
    }
}

/// One ingredient asked for by one list entry.
pub struct Demand {
    pub ingredient: Seq<char>,
    pub quantity: Quantity,
    pub entry: Seq<char>,
    /// Whether the entry is the ingredient itself, added by hand.
    pub manual: bool,
}

/// What one list entry asks for: a recipe, expanded at the entry's servings;
/// a bare ingredient, as written.
pub open spec fn spec_entry_demands(entry: ListEntry, recipes: RecipeIndex) -> Result<
    Seq<Demand>,
    CartFault,
> {
    match entry.item {
        ListItem::Recipe { recipe, servings } => match recipes.spec_get(recipe@) {
            None => Err(CartFault::UnknownRecipe(recipe@)),
            Some(target) => {
                let factor = make(servings.count(), target.servings.count())->0;
                match spec_expand(recipe@, factor, recipes) {
                    Err(f) => Err(CartFault::Expand(f)),
                    Ok(cs) => Ok(
                        cs.map_values(
                            |c: Contribution|
                                Demand {
                                    ingredient: c.ingredient@,
                                    quantity: c.quantity,
                                    entry: entry.id@,
                                    manual: false,
                                },
                        ),
                    ),
                }
            },
        },
        ListItem::Ingredient { ingredient, quantity } => Ok(
            seq![Demand { ingredient: ingredient@, quantity, entry: entry.id@, manual: true }],
        ),
    }
}

/// What the whole list asks for, entry by entry; the first entry that cannot
/// be expanded decides the error.
pub open spec fn spec_demands(entries: Seq<ListEntry>, recipes: RecipeIndex) -> Result<
    Seq<Demand>,
    CartFault,
>
    decreases entries.len(),
{
    if entries.len() == 0 {
        Ok(seq![])
    } else {
        match spec_demands(entries.drop_last(), recipes) {
            Err(f) => Err(f),
            Ok(ds) => match spec_entry_demands(entries.last(), recipes) {
                Err(f) => Err(f),
                Ok(more) => Ok(ds + more),
            },
        }
    }
}

/// Whether anything in `ds` asks for ingredient `k`.
pub open spec fn asked(ds: Seq<Demand>, k: Seq<char>) -> bool {
    exists|i: int| 0 <= i < ds.len() && (#[trigger] ds[i]).ingredient == k
}

/// Whether entry `e` asks for ingredient `k` in `ds`.
pub open spec fn asked_by(ds: Seq<Demand>, k: Seq<char>, e: Seq<char>) -> bool {
    exists|i: int| 0 <= i < ds.len() && (#[trigger] ds[i]).ingredient == k && ds[i].entry == e
}

/// Whether `k` was added to the list by hand.
pub open spec fn by_hand(ds: Seq<Demand>, k: Seq<char>) -> bool {
    exists|i: int| 0 <= i < ds.len() && (#[trigger] ds[i]).ingredient == k && ds[i].manual
}

/// The amounts `ds` asks of ingredient `k`, in order.
pub open spec fn quantities_for(ds: Seq<Demand>, k: Seq<char>) -> Seq<Quantity>
    decreases ds.len(),
{
    if ds.len() == 0 {
        seq![]
    } else if ds.last().ingredient == k {
        quantities_for(ds.drop_last(), k).push(ds.last().quantity)
    } else {
        quantities_for(ds.drop_last(), k)
    }
}

/// Ids in strictly ascending order, so each at most once.
pub open spec fn ascending(ids: Seq<ListEntryId>) -> bool {
    forall|a: int, b: int| 0 <= a < b < ids.len() ==> seq_lt(#[trigger] ids[a]@, #[trigger] ids[b]@)
}

/// Whether `ids` holds `e`.
pub open spec fn holds(ids: Seq<ListEntryId>, e: Seq<char>) -> bool {
    exists|j: int| 0 <= j < ids.len() && (#[trigger] ids[j])@ == e
}

/// The contributions to one line, gathered while reading the list.
struct Group {
    ingredient: IngredientId,
    quantities: Vec<Quantity>,
    sources: Vec<ListEntryId>,
    by_hand: bool,
}

/// `g` gathers exactly what `ds` asks of its ingredient.
spec fn gathers(g: Group, ds: Seq<Demand>) -> bool {
    let k = g.ingredient@;
    &&& asked(ds, k)
    &&& g.quantities@ == quantities_for(ds, k)
    &&& ascending(g.sources@)
    &&& forall|e: Seq<char>| holds(g.sources@, e) <==> asked_by(ds, k, e)
    &&& g.by_hand == by_hand(ds, k)
}

/// `gs` holds one group per ingredient `ds` asks for.
spec fn grouped(gs: Seq<Group>, ds: Seq<Demand>) -> bool {
    &&& forall|i: int| 0 <= i < gs.len() ==> gathers(#[trigger] gs[i], ds)
    &&& forall|i: int, j: int|
        0 <= i < j < gs.len() ==> (#[trigger] gs[i]).ingredient@ != (#[trigger] gs[j]).ingredient@
    &&& forall|k: Seq<char>|
        asked(ds, k) ==> exists|i: int| 0 <= i < gs.len() && (#[trigger] gs[i]).ingredient@ == k
}

/// Adds `e` to the ascending `ids`, unless it is there already.
fn insert_source(ids: &mut Vec<ListEntryId>, e: &ListEntryId)
    requires
        ascending(old(ids)@),
    ensures
        ascending(final(ids)@),
        forall|x: Seq<char>| holds(final(ids)@, x) <==> (holds(old(ids)@, x) || x == e@),
{
    let ghost before = ids@;
    let mut p: usize = 0;
    while p < ids.len() && ids[p].precedes(e)
        invariant
            p <= ids@.len(),
            ids@ == before,
            ascending(before),
            forall|j: int| 0 <= j < p ==> seq_lt((#[trigger] before[j])@, e@),
        decreases ids@.len() - p,
    {
        p = p + 1;
    }
    if p < ids.len() && ids[p].same(e) {
        return;
    }
    proof {
        if p < ids@.len() {
            lemma_seq_lt_total(before[p as int]@, e@);
        }
    }
    ids.insert(p, e.clone());
    proof {
        let after = ids@;
        assert forall|a: int, b: int| 0 <= a < b < after.len() implies seq_lt(
            #[trigger] after[a]@,
            #[trigger] after[b]@,
        ) by {
            if b < p {
                assert(after[a] == before[a] && after[b] == before[b]);
            } else if b == p {
                assert(after[a] == before[a]);
            } else if a == p {
                assert(after[b] == before[b - 1]);
                if b - 1 > p {
                    assert(seq_lt(before[p as int]@, before[b - 1]@));
                    lemma_seq_lt_transitive(e@, before[p as int]@, before[b - 1]@);
                }
            } else if a < p {
                assert(after[a] == before[a] && after[b] == before[b - 1]);
            } else {
                assert(after[a] == before[a - 1] && after[b] == before[b - 1]);
            }
        }
        assert forall|x: Seq<char>| holds(after, x) <==> (holds(before, x) || x == e@) by {
            if holds(after, x) {
                let j = choose|j: int| 0 <= j < after.len() && (#[trigger] after[j])@ == x;
                if j < p {
                    assert(after[j] == before[j]);
                } else if j > p {
                    assert(after[j] == before[j - 1]);
                }
            }
            if holds(before, x) {
                let j = choose|j: int| 0 <= j < before.len() && (#[trigger] before[j])@ == x;
                if j < p {
                    assert(after[j] == before[j]);
                } else {
                    assert(after[j + 1] == before[j]);
                }
            }
            if x == e@ {
                assert(after[p as int]@ == x);
            }
        }
    }
}

/// Whether `ds.push(d)` asks for `k`.
proof fn lemma_asked_push(ds: Seq<Demand>, d: Demand, k: Seq<char>)
    ensures
        asked(ds.push(d), k) <==> (asked(ds, k) || d.ingredient == k),
        forall|e: Seq<char>|
            asked_by(ds.push(d), k, e) <==> (asked_by(ds, k, e) || (d.ingredient == k && d.entry
                == e)),
        by_hand(ds.push(d), k) <==> (by_hand(ds, k) || (d.ingredient == k && d.manual)),
        quantities_for(ds.push(d), k) == if d.ingredient == k {
            quantities_for(ds, k).push(d.quantity)
        } else {
            quantities_for(ds, k)
        },
{
    let n = ds.push(d);
    assert(n.drop_last() =~= ds);
    assert(n[ds.len() as int] == d);
    if asked(ds, k) {
        let i = choose|i: int| 0 <= i < ds.len() && (#[trigger] ds[i]).ingredient == k;
        assert(n[i] == ds[i]);
    }
    if asked(n, k) {
        let i = choose|i: int| 0 <= i < n.len() && (#[trigger] n[i]).ingredient == k;
        if i < ds.len() {
            assert(n[i] == ds[i]);
        }
    }
    assert forall|e: Seq<char>|
        asked_by(n, k, e) <==> (asked_by(ds, k, e) || (d.ingredient == k && d.entry == e)) by {
        if asked_by(ds, k, e) {
            let i = choose|i: int|
                0 <= i < ds.len() && (#[trigger] ds[i]).ingredient == k && ds[i].entry == e;
            assert(n[i] == ds[i]);
        }
        if asked_by(n, k, e) {
            let i = choose|i: int|
                0 <= i < n.len() && (#[trigger] n[i]).ingredient == k && n[i].entry == e;
            if i < ds.len() {
                assert(n[i] == ds[i]);
            }
        }
    }
    if by_hand(ds, k) {
        let i = choose|i: int| 0 <= i < ds.len() && (#[trigger] ds[i]).ingredient == k && ds[i].manual;
        assert(n[i] == ds[i]);
    }
    if by_hand(n, k) {
        let i = choose|i: int| 0 <= i < n.len() && (#[trigger] n[i]).ingredient == k && n[i].manual;
        if i < ds.len() {
            assert(n[i] == ds[i]);
        }
    }
}

/// Counts one demand into `gs`.
fn add_demand(
    gs: &mut Vec<Group>,
    ingredient: &IngredientId,
    quantity: Quantity,
    entry: &ListEntryId,
    manual: bool,
    Ghost(ds): Ghost<Seq<Demand>>,
)
    requires
        grouped(old(gs)@, ds),
    ensures
        grouped(
            final(gs)@,
            ds.push(Demand { ingredient: ingredient@, quantity, entry: entry@, manual }),
        ),
{
    let ghost d = Demand { ingredient: ingredient@, quantity, entry: entry@, manual };
    let ghost n = ds.push(d);
    let ghost before = gs@;
    let mut i: usize = 0;
    while i < gs.len()
        invariant
            i <= gs@.len(),
            gs@ == before,
            grouped(before, ds),
            d == (Demand { ingredient: ingredient@, quantity, entry: entry@, manual }),
            n == ds.push(d),
            forall|j: int| 0 <= j < i ==> (#[trigger] before[j]).ingredient@ != ingredient@,
        decreases gs@.len() - i,
    {
        if gs[i].ingredient.same(ingredient) {
            let mut g = gs.remove(i);
            let ghost old_g = g;
            proof {
                lemma_asked_push(ds, d, g.ingredient@);
                assert(gathers(before[i as int], ds));
            }
            g.quantities.push(quantity);
            insert_source(&mut g.sources, entry);
            g.by_hand = g.by_hand || manual;
            gs.insert(i, g);
            proof {
                assert(gs@ =~= before.update(i as int, g));
                let k = ingredient@;
                assert(g.ingredient@ == k);
                assert(g.quantities@ =~= quantities_for(n, k));
                assert forall|e: Seq<char>| holds(g.sources@, e) <==> asked_by(n, k, e) by {
                    assert(holds(old_g.sources@, e) <==> asked_by(ds, k, e));
                }
                assert(gathers(gs@[i as int], n));
                assert forall|j: int| 0 <= j < gs@.len() implies gathers(#[trigger] gs@[j], n) by {
                    if j != i {
                        assert(gs@[j] == before[j]);
                        assert(gathers(before[j], ds));
                        if j < i {
                            assert(before[j].ingredient@ != before[i as int].ingredient@);
                        } else {
                            assert(before[i as int].ingredient@ != before[j].ingredient@);
                        }
                        lemma_gathers_other(before[j], ds, d);
                    }
                }
                assert forall|a: int, b: int|
                    0 <= a < b < gs@.len() implies (#[trigger] gs@[a]).ingredient@ != (
                    #[trigger] gs@[b]).ingredient@ by {
                    assert(before[a].ingredient@ != before[b].ingredient@);
                }
                assert forall|k: Seq<char>| asked(n, k) implies exists|j: int|
                    0 <= j < gs@.len() && (#[trigger] gs@[j]).ingredient@ == k by {
                    lemma_asked_push(ds, d, k);
                    if asked(ds, k) {
                        let j = choose|j: int| 0 <= j < before.len() && (#[trigger] before[j]).ingredient@ == k;
                        if j != i {
                            assert(gs@[j] == before[j]);
                        }
                        assert(gs@[j].ingredient@ == k);
                    } else {
                        assert(gs@[i as int].ingredient@ == k);
                    }
                }
            }
            return;
        }
        i = i + 1;
    }
    let mut sources: Vec<ListEntryId> = Vec::new();
    sources.push(entry.clone());
    let mut quantities: Vec<Quantity> = Vec::new();
    quantities.push(quantity);
    gs.push(Group { ingredient: ingredient.clone(), quantities, sources, by_hand: manual });
    proof {
        let k = ingredient@;
        lemma_asked_push(ds, d, k);
        assert(!asked(ds, k)) by {
            if asked(ds, k) {
                let j = choose|j: int| 0 <= j < before.len() && (#[trigger] before[j]).ingredient@ == k;
            }
        }
        assert(quantities_for(ds, k) =~= Seq::<Quantity>::empty()) by {
            lemma_quantities_absent(ds, k);
        }
        assert(!by_hand(ds, k));
        assert forall|e: Seq<char>| !asked_by(ds, k, e) by {}
        let last = gs@[before.len() as int];
        assert forall|e: Seq<char>| holds(last.sources@, e) <==> asked_by(n, k, e) by {
            if holds(last.sources@, e) {
                let j = choose|j: int| 0 <= j < last.sources@.len() && (#[trigger] last.sources@[j])@ == e;
            }
            if asked_by(n, k, e) {
                assert(last.sources@[0]@ == e);
            }
        }
        assert(gathers(last, n));
        assert forall|j: int| 0 <= j < gs@.len() implies gathers(#[trigger] gs@[j], n) by {
            if j < before.len() {
                assert(gs@[j] == before[j]);
                assert(gathers(before[j], ds));
                assert(before[j].ingredient@ != k);
                lemma_gathers_other(before[j], ds, d);
            }
        }
        assert forall|k2: Seq<char>| asked(n, k2) implies exists|j: int|
            0 <= j < gs@.len() && (#[trigger] gs@[j]).ingredient@ == k2 by {
            lemma_asked_push(ds, d, k2);
            if asked(ds, k2) {
                let j = choose|j: int| 0 <= j < before.len() && (#[trigger] before[j]).ingredient@ == k2;
                assert(gs@[j] == before[j]);
            } else {
                assert(gs@[before.len() as int].ingredient@ == k2);
            }
        }
    }
}

proof fn lemma_gathers_other(g: Group, ds: Seq<Demand>, d: Demand)
    requires
        gathers(g, ds),
        g.ingredient@ != d.ingredient,
    ensures
        gathers(g, ds.push(d)),
{
    let k = g.ingredient@;
    lemma_asked_push(ds, d, k);
    assert forall|e: Seq<char>| holds(g.sources@, e) <==> asked_by(ds.push(d), k, e) by {
        assert(holds(g.sources@, e) <==> asked_by(ds, k, e));
    }
}

proof fn lemma_quantities_absent(ds: Seq<Demand>, k: Seq<char>)
    requires
        !asked(ds, k),
    ensures
        quantities_for(ds, k) == Seq::<Quantity>::empty(),
    decreases ds.len(),
{
    if ds.len() > 0 {
        let rest = ds.drop_last();
        assert(ds.last() == ds[ds.len() - 1]);
        assert(!asked(rest, k)) by {
            if asked(rest, k) {
                let i = choose|i: int| 0 <= i < rest.len() && (#[trigger] rest[i]).ingredient == k;
                assert(ds[i] == rest[i]);
            }
        }
        lemma_quantities_absent(rest, k);
    }
}

proof fn lemma_demands_stay_failed(entries: Seq<ListEntry>, recipes: RecipeIndex, i: int)
    requires
        0 <= i <= entries.len(),
        spec_demands(entries.take(i), recipes) is Err,
    ensures
        spec_demands(entries, recipes) == spec_demands(entries.take(i), recipes),
    decreases entries.len() - i,
{
    if i < entries.len() {
        assert(entries.take(i + 1).drop_last() =~= entries.take(i));
        lemma_demands_stay_failed(entries, recipes, i + 1);
    } else {
        assert(entries.take(i) =~= entries);
    }
}

/// Reads the list into one group per ingredient.
fn gather(list: &ShoppingList, recipes: &RecipeIndex) -> (r: Result<Vec<Group>, CartError>)
    ensures
        match (r, spec_demands(list.entries@, *recipes)) {
            (Ok(gs), Ok(ds)) => grouped(gs@, ds),
            (Err(e), Err(f)) => e@ == f,
            _ => false,
        },
{
    let mut gs: Vec<Group> = Vec::new();
    let mut i: usize = 0;
    proof {
        assert(list.entries@.take(0) =~= Seq::<ListEntry>::empty());
    }
    while i < list.entries.len()
        invariant
            i <= list.entries@.len(),
            spec_demands(list.entries@.take(i as int), *recipes) is Ok,
            grouped(gs@, spec_demands(list.entries@.take(i as int), *recipes)->Ok_0),
        decreases list.entries@.len() - i,
    {
        let entry = &list.entries[i];
        let ghost ds = spec_demands(list.entries@.take(i as int), *recipes)->Ok_0;
        proof {
            assert(list.entries@.take(i + 1).drop_last() =~= list.entries@.take(i as int));
            assert(list.entries@.take(i + 1).last() == *entry);
        }
        match &entry.item {
            ListItem::Recipe { recipe, servings } => {
                let target = match recipes.get(recipe) {
                    Some(t) => t,
                    None => {
                        proof {
                            lemma_demands_stay_failed(list.entries@, *recipes, i + 1);
                        }
                        return Err(CartError::UnknownRecipe(recipe.clone()));
                    },
                };
                let factor = target.factor_for_servings(*servings);
                let contributions = match expand(recipe, factor, recipes) {
                    Ok(c) => c,
                    Err(e) => {
                        proof {
                            lemma_demands_stay_failed(list.entries@, *recipes, i + 1);
                        }
                        return Err(CartError::Expand(e));
                    },
                };
                let ghost more = spec_entry_demands(*entry, *recipes)->Ok_0;
                let mut j: usize = 0;
                proof {
                    assert(more.take(0) =~= Seq::<Demand>::empty());
                    assert(ds + more.take(0) =~= ds);
                }
                while j < contributions.len()
                    invariant
                        j <= contributions@.len(),
                        more.len() == contributions@.len(),
                        forall|k: int|
                            0 <= k < more.len() ==> #[trigger] more[k] == (Demand {
                                ingredient: contributions@[k].ingredient@,
                                quantity: contributions@[k].quantity,
                                entry: entry.id@,
                                manual: false,
                            }),
                        grouped(gs@, ds + more.take(j as int)),
                    decreases contributions@.len() - j,
                {
                    let c = &contributions[j];
                    add_demand(&mut gs, &c.ingredient, c.quantity, &entry.id, false, Ghost(ds + more.take(j as int)));
                    proof {
                        assert(ds + more.take(j + 1) =~= (ds + more.take(j as int)).push(more[j as int]));
                    }
                    j = j + 1;
                }
                proof {
                    assert(more.take(j as int) =~= more);
                }
            },
            ListItem::Ingredient { ingredient, quantity } => {
                add_demand(&mut gs, ingredient, *quantity, &entry.id, true, Ghost(ds));
                proof {
                    let more = spec_entry_demands(*entry, *recipes)->Ok_0;
                    assert(ds + more =~= ds.push(more[0]));
                }
            },
        }
        i = i + 1;
    }
    proof {
        assert(list.entries@.take(i as int) =~= list.entries@);
    }
    Ok(gs)
}

/// What, if anything, keeps the line of ingredient `k` from being drawn up:
/// an ingredient missing from the library, or amounts that leave the exact
/// range.
#[verifier::opaque]
pub open spec fn line_fault(ds: Seq<Demand>, k: Seq<char>, ingredients: IngredientIndex) -> Option<
    CartFault,
> {
    match ingredients.spec_get(k) {
        None => Some(CartFault::UnknownIngredient(k)),
        Some(ing) => match spec_merge(ing, quantities_for(ds, k)) {
            None => Some(CartFault::Overflow),
            Some(_) => None,
        },
    }
}

/// `k` is the first ingredient, in id order, whose line cannot be drawn up.
pub open spec fn first_fault(ds: Seq<Demand>, ingredients: IngredientIndex, k: Seq<char>) -> bool {
    &&& asked(ds, k)
    &&& line_fault(ds, k, ingredients) is Some
    &&& forall|k2: Seq<char>|
        asked(ds, k2) && (#[trigger] line_fault(ds, k2, ingredients)) is Some ==> !seq_lt(k2, k)
}

/// The walking order through the shop: by aisle, then by name, then by id.
pub open spec fn line_before(a: CartLine, b: CartLine) -> bool {
    ||| a.aisle.rank() < b.aisle.rank()
    ||| a.aisle.rank() == b.aisle.rank() && seq_lt(a.name@, b.name@)
    ||| a.aisle.rank() == b.aisle.rank() && a.name@ == b.name@ && seq_lt(
        a.ingredient@,
        b.ingredient@,
    )
}

/// Lines in strictly ascending walking order.
pub open spec fn in_walking_order(lines: Seq<CartLine>) -> bool {
    forall|i: int, j: int| 0 <= i < j < lines.len() ==> line_before(#[trigger] lines[i], #[trigger] lines[j])
}

/// `line` is the line of its ingredient, drawn from `ds`.
#[verifier::opaque]
pub open spec fn describes(line: CartLine, ds: Seq<Demand>, ingredients: IngredientIndex, overlay: Overlay) -> bool {
    let k = line.ingredient@;
    match ingredients.spec_get(k) {
        None => false,
        Some(ing) => {
            &&& asked(ds, k)
            &&& line.name@ == ing.name@
            &&& line.aisle == ing.aisle
            &&& line.staple == ing.staple
            &&& spec_merge(ing, quantities_for(ds, k)) == Some(line.amounts@)
            &&& line.state == spec_resolve(overlay.spec_get(k), ing.staple, by_hand(ds, k))
            &&& ascending(line.sources@)
            &&& forall|e: Seq<char>| line.sourced_by(e) <==> asked_by(ds, k, e)
        },
    }
}

/// `lines` are the cart of `ds`: one line per ingredient asked for, in
/// walking order.
pub open spec fn shows(lines: Seq<CartLine>, ds: Seq<Demand>, ingredients: IngredientIndex, overlay: Overlay) -> bool {
    &&& forall|i: int| 0 <= i < lines.len() ==> describes(#[trigger] lines[i], ds, ingredients, overlay)
    &&& forall|k: Seq<char>|
        asked(ds, k) ==> exists|i: int| 0 <= i < lines.len() && (#[trigger] lines[i]).ingredient@ == k
    &&& in_walking_order(lines)
}

proof fn lemma_line_order(a: CartLine, b: CartLine, c: CartLine)
    ensures
        !line_before(a, a),
        line_before(a, b) ==> !line_before(b, a),
        line_before(a, b) && line_before(b, c) ==> line_before(a, c),
        a.ingredient@ != b.ingredient@ ==> line_before(a, b) || line_before(b, a),
{
    lemma_seq_lt_irreflexive(a.name@);
    lemma_seq_lt_irreflexive(a.ingredient@);
    if seq_lt(a.name@, b.name@) {
        lemma_seq_lt_asymmetric(a.name@, b.name@);
        if seq_lt(b.name@, c.name@) {
            lemma_seq_lt_transitive(a.name@, b.name@, c.name@);
        }
    }
    if seq_lt(a.ingredient@, b.ingredient@) {
        lemma_seq_lt_asymmetric(a.ingredient@, b.ingredient@);
        if seq_lt(b.ingredient@, c.ingredient@) {
            lemma_seq_lt_transitive(a.ingredient@, b.ingredient@, c.ingredient@);
        }
    }
    lemma_seq_lt_total(a.name@, b.name@);
    lemma_seq_lt_total(a.ingredient@, b.ingredient@);
}

fn line_precedes(a: &CartLine, b: &CartLine) -> (r: bool)
    ensures
        r == line_before(*a, *b),
{
    let x = a.aisle.order();
    let y = b.aisle.order();
    if x != y {
        return x < y;
    }
    if !(a.name == b.name) {
        return str_lt(a.name.as_str(), b.name.as_str());
    }
    proof {
        lemma_seq_lt_irreflexive(a.name@);
    }
    a.ingredient.precedes(&b.ingredient)
}

/// Puts `line` in its place in the walking order.
fn insert_line(lines: &mut Vec<CartLine>, line: CartLine)
    requires
        in_walking_order(old(lines)@),
        forall|i: int| 0 <= i < old(lines)@.len() ==> (#[trigger] old(lines)@[i]).ingredient@ != line.ingredient@,
    ensures
        in_walking_order(final(lines)@),
        exists|p: int| 0 <= p <= old(lines)@.len() && final(lines)@ == old(lines)@.insert(p, line),
{
    let ghost before = lines@;
    let mut p: usize = 0;
    while p < lines.len() && line_precedes(&lines[p], &line)
        invariant
            p <= lines@.len(),
            lines@ == before,
            forall|j: int| 0 <= j < p ==> line_before(#[trigger] before[j], line),
        decreases lines@.len() - p,
    {
        p = p + 1;
    }
    proof {
        if p < before.len() {
            lemma_line_order(before[p as int], line, line);
        }
    }
    let ghost l = line;
    lines.insert(p, line);
    proof {
        let after = lines@;
        assert forall|a: int, b: int| 0 <= a < b < after.len() implies line_before(
            #[trigger] after[a],
            #[trigger] after[b],
        ) by {
            if b < p {
                assert(after[a] == before[a] && after[b] == before[b]);
            } else if b == p {
                assert(after[a] == before[a]);
            } else if a == p {
                assert(after[b] == before[b - 1]);
                if b - 1 > p {
                    lemma_line_order(l, before[p as int], before[b - 1]);
                }
            } else if a < p {
                assert(after[a] == before[a] && after[b] == before[b - 1]);
            } else {
                assert(after[a] == before[a - 1] && after[b] == before[b - 1]);
            }
        }
    }
}

/// `worst` holds the first fault among the groups `all[from..]`, in id
/// order, if there is one.
spec fn worst_so_far(
    all: Seq<Group>,
    from: int,
    ds: Seq<Demand>,
    ingredients: IngredientIndex,
    worst: Option<(IngredientId, CartError)>,
) -> bool {
    match worst {
        None => forall|j: int|
            from <= j < all.len() ==> line_fault(ds, (#[trigger] all[j]).ingredient@, ingredients) is None,
        Some((k, e)) => {
            &&& exists|j: int| from <= j < all.len() && (#[trigger] all[j]).ingredient@ == k@
            &&& line_fault(ds, k@, ingredients) == Some(e@)
            &&& forall|j: int|
                from <= j < all.len() && line_fault(ds, (#[trigger] all[j]).ingredient@, ingredients) is Some
                    ==> !seq_lt(all[j].ingredient@, k@)
        },
    }
}

/// Every line belongs to one of the groups `all[from..]`.
spec fn from_groups(lines: Seq<CartLine>, all: Seq<Group>, from: int) -> bool {
    forall|i: int| 0 <= i < lines.len() ==> exists|j: int| from <= j < all.len() && (#[trigger] all[j]).ingredient@ == (#[trigger] lines[i]).ingredient@
}

/// Every group of `all[from..]` without a fault has its line.
spec fn groups_drawn(lines: Seq<CartLine>, all: Seq<Group>, from: int, ds: Seq<Demand>, ingredients: IngredientIndex) -> bool {
    forall|j: int|
        from <= j < all.len() && line_fault(ds, (#[trigger] all[j]).ingredient@, ingredients) is None
            ==> exists|i: int| 0 <= i < lines.len() && (#[trigger] lines[i]).ingredient@ == all[j].ingredient@
}

/// Every line is drawn from `ds`.
spec fn all_described(lines: Seq<CartLine>, ds: Seq<Demand>, ingredients: IngredientIndex, overlay: Overlay) -> bool {
    forall|i: int| 0 <= i < lines.len() ==> describes(#[trigger] lines[i], ds, ingredients, overlay)
}

/// The groups `all[from..]` have been dealt with: `worst` holds the first
/// fault among them, in id order, and `lines` the lines of the others.
spec fn drawn_up(
    all: Seq<Group>,
    from: int,
    ds: Seq<Demand>,
    ingredients: IngredientIndex,
    overlay: Overlay,
    lines: Seq<CartLine>,
    worst: Option<(IngredientId, CartError)>,
) -> bool {
    &&& worst_so_far(all, from, ds, ingredients, worst)
    &&& all_described(lines, ds, ingredients, overlay)
    &&& from_groups(lines, all, from)
    &&& groups_drawn(lines, all, from, ds, ingredients)
}

proof fn lemma_line_drawn(
    all: Seq<Group>,
    n: int,
    ds: Seq<Demand>,
    ingredients: IngredientIndex,
    overlay: Overlay,
    before: Seq<CartLine>,
    after: Seq<CartLine>,
    l: CartLine,
    worst: Option<(IngredientId, CartError)>,
)
    requires
        0 <= n < all.len(),
        drawn_up(all, n + 1, ds, ingredients, overlay, before, worst),
        l.ingredient@ == all[n].ingredient@,
        describes(l, ds, ingredients, overlay),
        line_fault(ds, l.ingredient@, ingredients) is None,
        exists|p: int| 0 <= p <= before.len() && after == before.insert(p, l),
    ensures
        drawn_up(all, n, ds, ingredients, overlay, after, worst),
{
    let p = choose|p: int| 0 <= p <= before.len() && after == before.insert(p, l);
    lemma_inserted(before, after, l, p);
    lemma_described_after_insert(before, after, l, p, ds, ingredients, overlay);
    lemma_from_groups_after_insert(before, after, l, p, all, n);
    lemma_drawn_after_insert(before, after, l, p, all, n, ds, ingredients);
    lemma_worst_after_line(all, n, ds, ingredients, worst);
}

proof fn lemma_described_after_insert(
    before: Seq<CartLine>,
    after: Seq<CartLine>,
    l: CartLine,
    p: int,
    ds: Seq<Demand>,
    ingredients: IngredientIndex,
    overlay: Overlay,
)
    requires
        0 <= p <= before.len(),
        after == before.insert(p, l),
        all_described(before, ds, ingredients, overlay),
        describes(l, ds, ingredients, overlay),
    ensures
        all_described(after, ds, ingredients, overlay),
{
    lemma_inserted(before, after, l, p);
    assert forall|i: int| 0 <= i < after.len() implies describes(#[trigger] after[i], ds, ingredients, overlay) by {
        if i < p {
            assert(after[i] == before[i]);
        } else if i > p {
            assert(after[i] == before[i - 1]);
        }
    }
}

proof fn lemma_from_groups_after_insert(
    before: Seq<CartLine>,
    after: Seq<CartLine>,
    l: CartLine,
    p: int,
    all: Seq<Group>,
    n: int,
)
    requires
        0 <= p <= before.len(),
        0 <= n < all.len(),
        after == before.insert(p, l),
        from_groups(before, all, n + 1),
        l.ingredient@ == all[n].ingredient@,
    ensures
        from_groups(after, all, n),
{
    lemma_inserted(before, after, l, p);
    assert forall|i: int| 0 <= i < after.len() implies exists|j: int| n <= j < all.len() && (#[trigger] all[j]).ingredient@ == (#[trigger] after[i]).ingredient@ by {
        if i == p {
            assert(all[n].ingredient@ == after[i].ingredient@);
        } else {
            let i0 = if i < p { i } else { i - 1 };
            assert(after[i] == before[i0]);
            let j = choose|j: int| n + 1 <= j < all.len() && (#[trigger] all[j]).ingredient@ == (#[trigger] before[i0]).ingredient@;
            assert(all[j].ingredient@ == after[i].ingredient@);
        }
    }
}

proof fn lemma_drawn_after_insert(
    before: Seq<CartLine>,
    after: Seq<CartLine>,
    l: CartLine,
    p: int,
    all: Seq<Group>,
    n: int,
    ds: Seq<Demand>,
    ingredients: IngredientIndex,
)
    requires
        0 <= p <= before.len(),
        0 <= n < all.len(),
        after == before.insert(p, l),
        groups_drawn(before, all, n + 1, ds, ingredients),
        l.ingredient@ == all[n].ingredient@,
    ensures
        groups_drawn(after, all, n, ds, ingredients),
{
    lemma_inserted(before, after, l, p);
    assert forall|j: int|
        n <= j < all.len() && line_fault(ds, (#[trigger] all[j]).ingredient@, ingredients) is None
            implies exists|i: int| 0 <= i < after.len() && (#[trigger] after[i]).ingredient@ == all[j].ingredient@ by {
        if j == n {
            assert(after[p].ingredient@ == all[j].ingredient@);
        } else {
            let i = choose|i: int| 0 <= i < before.len() && (#[trigger] before[i]).ingredient@ == all[j].ingredient@;
            let i1 = if i < p { i } else { i + 1 };
            assert(after[i1] == before[i]);
        }
    }
}

proof fn lemma_worst_after_line(
    all: Seq<Group>,
    n: int,
    ds: Seq<Demand>,
    ingredients: IngredientIndex,
    worst: Option<(IngredientId, CartError)>,
)
    requires
        0 <= n < all.len(),
        worst_so_far(all, n + 1, ds, ingredients, worst),
        line_fault(ds, all[n].ingredient@, ingredients) is None,
    ensures
        worst_so_far(all, n, ds, ingredients, worst),
{
    match worst {
        None => {},
        Some((k, e)) => {
            let j = choose|j: int| n + 1 <= j < all.len() && (#[trigger] all[j]).ingredient@ == k@;
            assert(n <= j < all.len() && all[j].ingredient@ == k@);
        },
    }
}

proof fn lemma_inserted(before: Seq<CartLine>, after: Seq<CartLine>, l: CartLine, p: int)
    requires
        0 <= p <= before.len(),
        after == before.insert(p, l),
    ensures
        after.len() == before.len() + 1,
        after[p] == l,
        forall|i: int| 0 <= i < p ==> after[i] == before[i],
        forall|i: int| p < i < after.len() ==> after[i] == before[i - 1],
{
}

/// The id of the fault noted so far, if any.
spec fn worst_key(w: Option<(IngredientId, CartError)>) -> Seq<char> {
    match w {
        Some((k, _)) => k@,
        None => Seq::empty(),
    }
}

proof fn lemma_fault_noted(
    all: Seq<Group>,
    n: int,
    ds: Seq<Demand>,
    ingredients: IngredientIndex,
    overlay: Overlay,
    lines: Seq<CartLine>,
    before: Option<(IngredientId, CartError)>,
    after: Option<(IngredientId, CartError)>,
)
    requires
        0 <= n < all.len(),
        drawn_up(all, n + 1, ds, ingredients, overlay, lines, before),
        forall|i: int| 0 <= i < lines.len() ==> (#[trigger] lines[i]).ingredient@ != all[n].ingredient@,
        line_fault(ds, all[n].ingredient@, ingredients) is Some,
        after is Some,
        ({
            let (k, e) = after->0;
            k@ == all[n].ingredient@ && line_fault(ds, k@, ingredients) == Some(e@) && (before is Some
                ==> seq_lt(k@, worst_key(before)))
        }) || (after == before && before is Some && !seq_lt(all[n].ingredient@, worst_key(before))),
    ensures
        drawn_up(all, n, ds, ingredients, overlay, lines, after),
{
    assert forall|i: int| 0 <= i < lines.len() implies exists|j: int| n <= j < all.len() && (#[trigger] all[j]).ingredient@ == (#[trigger] lines[i]).ingredient@ by {
        let j = choose|j: int| n + 1 <= j < all.len() && (#[trigger] all[j]).ingredient@ == lines[i].ingredient@;
    }
    match after {
        None => {},
        Some((k, e)) => {
            if k@ == all[n].ingredient@ && line_fault(ds, k@, ingredients) == Some(e@) && (before is Some ==> seq_lt(k@, worst_key(before))) {
                assert(all[n].ingredient@ == k@);
                assert forall|j: int|
                    n <= j < all.len() && line_fault(ds, (#[trigger] all[j]).ingredient@, ingredients) is Some
                        implies !seq_lt(all[j].ingredient@, k@) by {
                    if j == n {
                        lemma_seq_lt_irreflexive(k@);
                    } else {
                        match before {
                            None => {},
                            Some((w, _)) => {
                                if seq_lt(all[j].ingredient@, k@) {
                                    lemma_seq_lt_transitive(all[j].ingredient@, k@, w@);
                                }
                            },
                        }
                    }
                }
            } else {
                let j0 = choose|j: int| n + 1 <= j < all.len() && (#[trigger] all[j]).ingredient@ == k@;
                assert(n <= j0 < all.len() && all[j0].ingredient@ == k@);
                assert forall|j: int|
                    n <= j < all.len() && line_fault(ds, (#[trigger] all[j]).ingredient@, ingredients) is Some
                        implies !seq_lt(all[j].ingredient@, k@) by {
                    if j == n {
                    }
                }
            }
        },
    }
}

/// Derives the cart. See the module docs for the pipeline.
///
/// The first list entry that cannot be expanded decides the error; failing
/// that, the first ingredient in id order whose line cannot be drawn up.
pub fn derive(
    list: &ShoppingList,
    recipes: &RecipeIndex,
    ingredients: &IngredientIndex,
    overlay: &Overlay,
) -> (r: Result<Cart, CartError>)
    ensures
        match spec_demands(list.entries@, *recipes) {
            Err(f) => r matches Err(e) && e@ == f,
            Ok(ds) => match r {
                Ok(cart) => (forall|k: Seq<char>| asked(ds, k) ==> line_fault(ds, k, *ingredients) is None)
                    && shows(cart.lines@, ds, *ingredients, *overlay),
                Err(e) => exists|k: Seq<char>|
                    first_fault(ds, *ingredients, k) && line_fault(ds, k, *ingredients) == Some(e@),
            },
        },
{
    let gs = match gather(list, recipes) {
        Ok(gs) => gs,
        Err(e) => return Err(e),
    };
    let ghost ds = spec_demands(list.entries@, *recipes)->Ok_0;
    let ghost all = gs@;
    let mut gs = gs;
    let mut lines: Vec<CartLine> = Vec::new();
    let mut worst: Option<(IngredientId, CartError)> = None;
    proof {
        assert(all.take(all.len() as int) =~= all);
    }
    while gs.len() > 0
        invariant
            grouped(all, ds),
            gs@.len() <= all.len(),
            gs@ == all.take(gs@.len() as int),
            drawn_up(all, gs@.len() as int, ds, *ingredients, *overlay, lines@, worst),
            in_walking_order(lines@),
        decreases gs@.len(),
    {
        let ghost n = gs@.len() - 1;
        let g = match gs.pop() {
            Some(g) => g,
            None => return Err(CartError::Overflow),
        };
        proof {
            assert(g == all[n]);
            assert(gs@ =~= all.take(n));
            assert(gathers(all[n], ds));
        }
        let key = g.ingredient.clone();
        let ghost k = key@;
        let ghost old_lines = lines@;
        let ghost old_worst = worst;
        let fault = match ingredients.get(&key) {
            None => Some(CartError::UnknownIngredient(key.clone())),
            Some(ing) => match merge(ing, &g.quantities) {
                None => Some(CartError::Overflow),
                Some(amounts) => {
                    let state = resolve(overlay.get(&key), ing.staple, g.by_hand);
                    let line = CartLine {
                        ingredient: g.ingredient,
                        name: ing.name.clone(),
                        aisle: ing.aisle,
                        staple: ing.staple,
                        amounts,
                        state,
                        sources: g.sources,
                    };
                    let ghost l = line;
                    proof {
                        reveal(describes);
                        assert(describes(line, ds, *ingredients, *overlay));
                        assert forall|i: int| 0 <= i < old_lines.len() implies (#[trigger] old_lines[i]).ingredient@ != k by {
                            let j = choose|j: int| n + 1 <= j < all.len() && (#[trigger] all[j]).ingredient@ == old_lines[i].ingredient@;
                            assert(all[n].ingredient@ != all[j].ingredient@);
                        }
                    }
                    insert_line(&mut lines, line);
                    proof {
                        reveal(line_fault);
                        lemma_line_drawn(all, n, ds, *ingredients, *overlay, old_lines, lines@, l, worst);
                    }
                    None
                },
            },
        };
        if let Some(e) = fault {
            proof {
                reveal(line_fault);
                assert(line_fault(ds, k, *ingredients) == Some(e@));
            }
            let replace = match &worst {
                None => true,
                Some((w, _)) => key.precedes(w),
            };
            if replace {
                worst = Some((key, e));
            }
            proof {
                lemma_fault_noted(all, n, ds, *ingredients, *overlay, lines@, old_worst, worst);
            }
        }
    }
    proof {
        assert(all.take(0) =~= Seq::<Group>::empty());
    }
    match worst {
        Some((_, e)) => Err(e),
        None => Ok(Cart { lines }),
    }
}

/// Every line `entry` asked for is settled, and it asked for at least one.
pub open spec fn done(lines: Seq<CartLine>, entry: Seq<char>) -> bool {
    lines_from(lines, entry) > 0 && settled_from(lines, entry) == lines_from(lines, entry)
}

/// An entry of `entries` with id `id` is complete.
pub open spec fn completed(entries: Seq<ListEntry>, lines: Seq<CartLine>, id: Seq<char>) -> bool {
    (exists|i: int| 0 <= i < entries.len() && (#[trigger] entries[i]).id@ == id) && done(lines, id)
}

/// Every entry that asked for `line` is completed, so the line goes away.
pub open spec fn goes_away(line: CartLine, entries: Seq<ListEntry>, lines: Seq<CartLine>) -> bool {
    forall|j: int| 0 <= j < line.sources@.len() ==> completed(entries, lines, (#[trigger] line.sources@[j])@)
}

/// Keeps the entries that are not done.
pub open spec fn unfinished(lines: Seq<CartLine>) -> spec_fn(ListEntry) -> bool {
    |e: ListEntry| !done(lines, e.id@)
}

/// Ends the trip: removes every completed entry and drops the overlay entries
/// that went with them.
///
/// The overlay is *not* cleared wholesale. An entry you could not finish —
/// the shop was out of one item — stays on the list, and clearing everything
/// would reset the five things you did buy back to unchecked. So an overlay
/// entry is dropped only when every list entry that asked for that ingredient
/// is going away, which is exactly when its cart line disappears too.
pub fn finish_shopping(list: &mut ShoppingList, cart: &Cart, overlay: &mut Overlay)
    ensures
        final(list).entries@ == old(list).entries@.filter(unfinished(cart.lines@)),
        forall|k: Seq<char>|
            #![trigger final(overlay).spec_get(k)]
            final(overlay).spec_get(k) == if exists|i: int|
                0 <= i < cart.lines@.len() && (#[trigger] cart.lines@[i]).ingredient@ == k && goes_away(
                    cart.lines@[i],
                    old(list).entries@,
                    cart.lines@,
                ) {
                None
            } else {
                old(overlay).spec_get(k)
            },
{
    let ghost entries = list.entries@;
    let ghost lines = cart.lines@;
    let ghost start = *overlay;
    let progress = cart.progress(list);
    let mut finished: Vec<ListEntryId> = Vec::new();
    let mut i: usize = 0;
    while i < progress.len()
        invariant
            i <= progress@.len(),
            progress@.len() == entries.len(),
            list.entries@ == entries,
            forall|j: int|
                #![trigger progress@[j]]
                0 <= j < progress@.len() ==> {
                    &&& progress@[j].entry == entries[j].id
                    &&& progress@[j].total == lines_from(lines, entries[j].id@)
                    &&& progress@[j].settled == settled_from(lines, entries[j].id@)
                },
            forall|x: Seq<char>|
                holds(finished@, x) <==> exists|j: int|
                    0 <= j < i && (#[trigger] entries[j]).id@ == x && done(lines, x),
        decreases progress@.len() - i,
    {
        let ghost before = finished@;
        if progress[i].is_complete() {
            finished.push(progress[i].entry.clone());
        }
        proof {
            assert forall|x: Seq<char>|
                holds(finished@, x) <==> exists|j: int|
                    0 <= j < i + 1 && (#[trigger] entries[j]).id@ == x && done(lines, x) by {
                if holds(finished@, x) {
                    let m = choose|m: int| 0 <= m < finished@.len() && (#[trigger] finished@[m])@ == x;
                    if m < before.len() {
                        assert(finished@[m] == before[m]);
                        assert(holds(before, x));
                    } else {
                        assert(entries[i as int].id@ == x);
                    }
                }
                if exists|j: int| 0 <= j < i + 1 && (#[trigger] entries[j]).id@ == x && done(lines, x) {
                    let j = choose|j: int| 0 <= j < i + 1 && (#[trigger] entries[j]).id@ == x && done(lines, x);
                    if j < i {
                        assert(exists|j2: int| 0 <= j2 < i && (#[trigger] entries[j2]).id@ == x && done(lines, x));
                        assert(holds(before, x));
                        let m = choose|m: int| 0 <= m < before.len() && (#[trigger] before[m])@ == x;
                        assert(finished@[m] == before[m]);
                    } else {
                        assert(finished@[before.len() as int]@ == x);
                    }
                }
            }
        }
        i = i + 1;
    }
    let mut l: usize = 0;
    while l < cart.lines.len()
        invariant
            l <= lines.len(),
            cart.lines@ == lines,
            forall|x: Seq<char>| holds(finished@, x) <==> completed(entries, lines, x),
            forall|k: Seq<char>|
                #![trigger overlay.spec_get(k)]
                overlay.spec_get(k) == if exists|m: int|
                    0 <= m < l && (#[trigger] lines[m]).ingredient@ == k && goes_away(lines[m], entries, lines) {
                    None
                } else {
                    start.spec_get(k)
                },
        decreases lines.len() - l,
    {
        let line = &cart.lines[l];
        let mut all_finished = true;
        let mut j: usize = 0;
        while j < line.sources.len()
            invariant
                j <= line.sources@.len(),
                forall|x: Seq<char>| holds(finished@, x) <==> completed(entries, lines, x),
                all_finished == forall|m: int| 0 <= m < j ==> completed(entries, lines, (#[trigger] line.sources@[m])@),
            decreases line.sources@.len() - j,
        {
            let mut found = false;
            let mut f: usize = 0;
            while f < finished.len()
                invariant
                    f <= finished@.len(),
                    j < line.sources@.len(),
                    found == exists|m: int| 0 <= m < f && (#[trigger] finished@[m])@ == line.sources@[j as int]@,
                decreases finished@.len() - f,
            {
                if finished[f].same(&line.sources[j]) {
                    found = true;
                }
                f = f + 1;
            }
            proof {
                assert(found == holds(finished@, line.sources@[j as int]@));
            }
            all_finished = all_finished && found;
            j = j + 1;
        }
        let ghost prev = *overlay;
        if all_finished {
            overlay.remove(&line.ingredient);
        }
        proof {
            assert(all_finished == goes_away(*line, entries, lines));
            assert forall|k: Seq<char>|
                #![trigger overlay.spec_get(k)]
                overlay.spec_get(k) == if exists|m: int|
                    0 <= m < l + 1 && (#[trigger] lines[m]).ingredient@ == k && goes_away(lines[m], entries, lines) {
                    None
                } else {
                    start.spec_get(k)
                } by {
                if exists|m: int| 0 <= m < l && (#[trigger] lines[m]).ingredient@ == k && goes_away(lines[m], entries, lines) {
                    let m = choose|m: int| 0 <= m < l && (#[trigger] lines[m]).ingredient@ == k && goes_away(lines[m], entries, lines);
                    assert(0 <= m < l + 1);
                }
                if exists|m: int| 0 <= m < l + 1 && (#[trigger] lines[m]).ingredient@ == k && goes_away(lines[m], entries, lines) {
                    let m = choose|m: int| 0 <= m < l + 1 && (#[trigger] lines[m]).ingredient@ == k && goes_away(lines[m], entries, lines);
                    if m < l {
                        assert(prev.spec_get(k) is None);
                    }
                }
            }
        }
        l = l + 1;
    }
    let mut kept: Vec<ListEntry> = Vec::new();
    let mut e: usize = 0;
    while e < list.entries.len()
        invariant
            e <= entries.len(),
            list.entries@ == entries,
            forall|x: Seq<char>| holds(finished@, x) <==> completed(entries, lines, x),
            kept@ == entries.take(e as int).filter(unfinished(lines)),
        decreases entries.len() - e,
    {
        proof {
            reveal_with_fuel(Seq::filter, 1);
            assert(entries.take(e + 1).drop_last() =~= entries.take(e as int));
        }
        let mut found = false;
        let mut f: usize = 0;
        while f < finished.len()
            invariant
                f <= finished@.len(),
                e < list.entries@.len(),
                found == exists|m: int| 0 <= m < f && (#[trigger] finished@[m])@ == list.entries@[e as int].id@,
            decreases finished@.len() - f,
        {
            if finished[f].same(&list.entries[e].id) {
                found = true;
            }
            f = f + 1;
        }
        proof {
            assert(found == holds(finished@, entries[e as int].id@));
            assert(found == done(lines, entries[e as int].id@));
        }
        if !found {
            kept.push(list.entries[e].clone());
        }
        e = e + 1;
    }
    proof {
        assert(entries.take(e as int) =~= entries);
    }
    list.entries = kept;
}

/// Whether some line of `lines` was asked for by `entry`.
pub open spec fn any_from(lines: Seq<CartLine>, entry: Seq<char>) -> bool {
    exists|i: int| 0 <= i < lines.len() && (#[trigger] lines[i]).sourced_by(entry)
}

/// Whether every line of `lines` asked for by `entry` is settled.
pub open spec fn all_settled_from(lines: Seq<CartLine>, entry: Seq<char>) -> bool {
    forall|i: int|
        0 <= i < lines.len() && (#[trigger] lines[i]).sourced_by(entry) ==> lines[i].state.spec_is_settled()
}

proof fn lemma_counts_meaning(lines: Seq<CartLine>, entry: Seq<char>)
    ensures
        lines_from(lines, entry) > 0 <==> any_from(lines, entry),
        settled_from(lines, entry) == lines_from(lines, entry) <==> all_settled_from(lines, entry),
    decreases lines.len(),
{
    if lines.len() > 0 {
        let rest = lines.drop_last();
        let n = lines.len() - 1;
        lemma_counts_meaning(rest, entry);
        lemma_counts_bounded(rest, entry);
        assert(lines[n] == lines.last());
        assert forall|i: int| 0 <= i < rest.len() implies rest[i] == lines[i] by {}
        if any_from(rest, entry) {
            let i = choose|i: int| 0 <= i < rest.len() && (#[trigger] rest[i]).sourced_by(entry);
            assert(lines[i].sourced_by(entry));
        }
        if any_from(lines, entry) {
            let i = choose|i: int| 0 <= i < lines.len() && (#[trigger] lines[i]).sourced_by(entry);
            if i < n {
                assert(rest[i].sourced_by(entry));
            }
        }
        if !all_settled_from(rest, entry) {
            let i = choose|i: int|
                !(0 <= i < rest.len() && (#[trigger] rest[i]).sourced_by(entry) ==> rest[i].state.spec_is_settled());
            assert(lines[i].sourced_by(entry) && !lines[i].state.spec_is_settled());
        }
        if all_settled_from(rest, entry) && (lines[n].sourced_by(entry) ==> lines[n].state.spec_is_settled()) {
            assert forall|i: int|
                0 <= i < lines.len() && (#[trigger] lines[i]).sourced_by(entry) implies lines[i].state.spec_is_settled() by {
                if i < n {
                    assert(rest[i].sourced_by(entry));
                }
            }
        }
    }
}

/// An entry is done exactly when it asked for at least one line and every
/// line it asked for is settled — so a recipe shows "5/7" until every
/// ingredient it contributed is settled, and checking one shared line
/// advances every entry that asked for it at once.
pub proof fn law_done_when_every_line_is_settled(lines: Seq<CartLine>, entry: Seq<char>)
    ensures
        done(lines, entry) <==> any_from(lines, entry) && all_settled_from(lines, entry),
{
    lemma_counts_meaning(lines, entry);
}

/// A cart drawn up from the list holds exactly one line per ingredient.
pub proof fn law_one_line_per_ingredient(
    lines: Seq<CartLine>,
    ds: Seq<Demand>,
    ingredients: IngredientIndex,
    overlay: Overlay,
)
    requires
        shows(lines, ds, ingredients, overlay),
    ensures
        forall|i: int, j: int|
            0 <= i < j < lines.len() ==> (#[trigger] lines[i]).ingredient@ != (#[trigger] lines[j]).ingredient@,
{
    reveal(describes);
    assert forall|i: int, j: int| 0 <= i < j < lines.len() implies (#[trigger] lines[i]).ingredient@ != (
    #[trigger] lines[j]).ingredient@ by {
        assert(describes(lines[i], ds, ingredients, overlay));
        assert(describes(lines[j], ds, ingredients, overlay));
        lemma_seq_lt_irreflexive(lines[i].ingredient@);
        lemma_seq_lt_irreflexive(lines[i].name@);
        assert(line_before(lines[i], lines[j]));
    }
}

/// Every quantity of `qs` scaled by `f`.
pub open spec fn scaled_all(qs: Seq<Quantity>, f: Rational) -> Seq<Quantity> {
    qs.map_values(|q: Quantity| q.spec_scaled(f)->0)
}

proof fn lemma_regroup3(a: int, b: int, c: int)
    ensures
        (a * b) * c == (a * c) * b,
{
    assert((a * b) * c == (a * c) * b) by (nonlinear_arith);
}

/// `(tn·fn)(xd·fd) + (xn·fn)(td·fd)` over `(td·fd)(xd·fd)` is
/// `(tn·xd + xn·td)·fn` over `(td·xd)·fd`.
proof fn lemma_scaled_sum(tn: int, td: int, xn: int, xd: int, f_n: int, fd: int)
    requires
        fd != 0,
    ensures
        same_ratio(
            (tn * f_n) * (xd * fd) + (xn * f_n) * (td * fd),
            (td * fd) * (xd * fd),
            (tn * xd + xn * td) * f_n,
            (td * xd) * fd,
        ),
{
    let a = tn * xd;
    let b = xn * td;
    let c = td * xd;
    assert((tn * f_n) * (xd * fd) == a * (f_n * fd)) by (nonlinear_arith)
        requires
            a == tn * xd,
    ;
    assert((xn * f_n) * (td * fd) == b * (f_n * fd)) by (nonlinear_arith)
        requires
            b == xn * td,
    ;
    assert((td * fd) * (xd * fd) == c * (fd * fd)) by (nonlinear_arith)
        requires
            c == td * xd,
    ;
    let p = a + b;
    assert(a * (f_n * fd) + b * (f_n * fd) == p * (f_n * fd)) by (nonlinear_arith)
        requires
            p == a + b,
    ;
    assert((p * (f_n * fd)) * (c * fd) == (p * f_n) * (c * (fd * fd))) by (nonlinear_arith);
}

/// Scaling then aggregating equals aggregating then scaling: the mass total
/// of contributions each scaled by `f` is the number their mass total,
/// scaled by `f`, is.
///
/// Stated on mass only, deliberately: rounding a countable line up is not a
/// linear operation, so the identity genuinely does not hold there.
pub proof fn law_scaling_commutes_with_aggregation(qs: Seq<Quantity>, f: Rational)
    requires
        f.in_range(),
        forall|i: int|
            0 <= i < qs.len() ==> (#[trigger] qs[i]).value.in_range() && qs[i].spec_dimension()
                == Dimension::Mass && qs[i].spec_scaled(f) is Some,
        spec_tally(qs) is Some,
        spec_tally(scaled_all(qs, f)) is Some,
    ensures
        match ((spec_tally(qs)->0).mass, (spec_tally(scaled_all(qs, f))->0).mass) {
            (Some(t), Some(s)) => denotes(s, t.num() * f.num(), t.den() * f.den()) && t.in_range()
                && s.in_range(),
            (None, None) => qs.len() == 0,
            _ => false,
        },
    decreases qs.len(),
{
    if qs.len() > 0 {
        let p = qs.drop_last();
        let q = qs.last();
        let sq = q.spec_scaled(f)->0;
        let sp = scaled_all(p, f);
        assert(scaled_all(qs, f) =~= sp.push(sq));
        assert(scaled_all(qs, f).drop_last() =~= sp);
        assert(q == qs[qs.len() - 1]);
        assert forall|i: int| 0 <= i < p.len() implies (#[trigger] p[i]).value.in_range() && p[i].spec_dimension()
            == Dimension::Mass && p[i].spec_scaled(f) is Some by {
            assert(p[i] == qs[i]);
        }
        let tp = spec_tally(p)->0;
        let spt = spec_tally(sp)->0;
        law_scaling_commutes_with_aggregation(p, f);
        let m = match q.unit {
            Unit::Mass(m) => m,
            _ => MassUnit::Gram,
        };
        m.lemma_grams();
        let g = m.spec_grams();
        let v = q.value;
        lemma_arith_denotes(v, g);
        lemma_arith_denotes(v, f);
        let sv = v.spec_mul(f)->0;
        assert(sq.value == sv && sq.unit == q.unit);
        lemma_arith_denotes(sv, g);
        let x = v.spec_mul(g)->0;
        let xs = sv.spec_mul(g)->0;
        lemma_arith_denotes(x, f);
        // The scaled contribution is the contribution, scaled.
        lemma_same_ratio_mul(sv.num(), sv.den(), v.num() * f.num(), v.den() * f.den(), g.num(), g.den(), g.num(), g.den());
        lemma_same_ratio_mul(x.num(), x.den(), v.num() * g.num(), v.den() * g.den(), f.num(), f.den(), f.num(), f.den());
        lemma_regroup3(v.num(), f.num(), g.num());
        lemma_regroup3(v.den(), f.den(), g.den());
        assert(sv.den() * g.den() > 0) by (nonlinear_arith)
            requires sv.den() > 0, g.den() > 0;
        assert(same_ratio(xs.num(), xs.den(), (v.num() * f.num()) * g.num(), (v.den() * f.den()) * g.den())) by {
            lemma_same_ratio_trans(xs.num(), xs.den(), sv.num() * g.num(), sv.den() * g.den(), (v.num() * f.num()) * g.num(), (v.den() * f.den()) * g.den());
        }
        assert((v.den() * f.den()) * g.den() > 0) by (nonlinear_arith)
            requires v.den() > 0, f.den() > 0, g.den() > 0;
        assert(same_ratio(xs.num(), xs.den(), x.num() * f.num(), x.den() * f.den())) by {
            lemma_same_ratio_trans(xs.num(), xs.den(), (v.num() * f.num()) * g.num(), (v.den() * f.den()) * g.den(), x.num() * f.num(), x.den() * f.den());
        }
        assert(x.den() * f.den() > 0) by (nonlinear_arith)
            requires x.den() > 0, f.den() > 0;
        lemma_from_int(0);
        let zero = from_int(0);
        match (tp.mass, spt.mass) {
            (None, None) => {
                lemma_arith_denotes(zero, x);
                lemma_arith_denotes(zero, xs);
                let t = zero.spec_add(x)->0;
                let s = zero.spec_add(xs)->0;
                lemma_arith_denotes(t, f);
                lemma_same_ratio_mul(t.num(), t.den(), x.num(), x.den(), f.num(), f.den(), f.num(), f.den());
                assert(same_ratio(s.num(), s.den(), x.num() * f.num(), x.den() * f.den())) by {
                    lemma_same_ratio_trans(s.num(), s.den(), xs.num(), xs.den(), x.num() * f.num(), x.den() * f.den());
                }
                lemma_same_ratio_trans(s.num(), s.den(), x.num() * f.num(), x.den() * f.den(), t.num() * f.num(), t.den() * f.den());
            },
            (Some(tm), Some(sm)) => {
                lemma_arith_denotes(tm, x);
                lemma_arith_denotes(sm, xs);
                lemma_arith_denotes(tm, f);
                let t = tm.spec_add(x)->0;
                let s = sm.spec_add(xs)->0;
                lemma_arith_denotes(t, f);
                lemma_same_ratio_add(sm.num(), sm.den(), tm.num() * f.num(), tm.den() * f.den(), xs.num(), xs.den(), x.num() * f.num(), x.den() * f.den());
                lemma_scaled_sum(tm.num(), tm.den(), x.num(), x.den(), f.num(), f.den());
                lemma_same_ratio_mul(t.num(), t.den(), tm.num() * x.den() + x.num() * tm.den(), tm.den() * x.den(), f.num(), f.den(), f.num(), f.den());
                assert(sm.den() * xs.den() > 0) by (nonlinear_arith)
                    requires sm.den() > 0, xs.den() > 0;
                assert((tm.den() * f.den()) * (x.den() * f.den()) > 0) by (nonlinear_arith)
                    requires tm.den() > 0, f.den() > 0, x.den() > 0;
                assert((tm.den() * x.den()) * f.den() > 0) by (nonlinear_arith)
                    requires tm.den() > 0, f.den() > 0, x.den() > 0;
                lemma_same_ratio_trans(
                    s.num(), s.den(),
                    sm.num() * xs.den() + xs.num() * sm.den(), sm.den() * xs.den(),
                    (tm.num() * f.num()) * (x.den() * f.den()) + (x.num() * f.num()) * (tm.den() * f.den()), (tm.den() * f.den()) * (x.den() * f.den()),
                );
                lemma_same_ratio_trans(
                    s.num(), s.den(),
                    (tm.num() * f.num()) * (x.den() * f.den()) + (x.num() * f.num()) * (tm.den() * f.den()), (tm.den() * f.den()) * (x.den() * f.den()),
                    (tm.num() * x.den() + x.num() * tm.den()) * f.num(), (tm.den() * x.den()) * f.den(),
                );
                lemma_same_ratio_trans(
                    s.num(), s.den(),
                    (tm.num() * x.den() + x.num() * tm.den()) * f.num(), (tm.den() * x.den()) * f.den(),
                    t.num() * f.num(), t.den() * f.den(),
                );
            },
            _ => {},
        }
    }
}

/// The exact sum, as a plain fraction, of the base amounts of the
/// quantities of `qs` that measure `d`; nothing sums to `0 / 1`.
pub open spec fn base_total(qs: Seq<Quantity>, d: Dimension) -> (int, int)
    decreases qs.len(),
{
    if qs.len() == 0 {
        (0, 1)
    } else {
        let t = base_total(qs.drop_last(), d);
        let b = qs.last().base_parts();
        if qs.last().spec_dimension() == d {
            (t.0 * b.1 + b.0 * t.1, t.1 * b.1)
        } else {
            t
        }
    }
}

/// Aggregation adds up every contribution of a dimension: the total a
/// tally keeps for a measurable dimension is there exactly when some
/// quantity measures that dimension, and it is the sum of the base amounts
/// of all the quantities that do, each its magnitude times its unit's size
/// (200 ml and 300 ml of milk tally to 500 ml). This holds of count, mass
/// and volume alike.
pub proof fn law_tally_sums_each_dimension(qs: Seq<Quantity>, d: Dimension)
    requires
        d != Dimension::Unmeasured,
        forall|i: int| 0 <= i < qs.len() ==> (#[trigger] qs[i]).value.in_range(),
        spec_tally(qs) is Some,
    ensures
        base_total(qs, d).1 > 0,
        slot_of(spec_tally(qs)->0, d) is Some <==> exists|i: int|
            0 <= i < qs.len() && (#[trigger] qs[i]).spec_dimension() == d,
        slot_of(spec_tally(qs)->0, d) is None ==> base_total(qs, d) == (0int, 1int),
        slot_of(spec_tally(qs)->0, d) matches Some(s) ==> s.in_range() && denotes(
            s,
            base_total(qs, d).0,
            base_total(qs, d).1,
        ),
    decreases qs.len(),
{
    if qs.len() > 0 {
        let p = qs.drop_last();
        let q = qs.last();
        let n = (qs.len() - 1) as int;
        assert(q == qs[n]);
        assert forall|i: int| 0 <= i < p.len() implies (#[trigger] p[i]).value.in_range() by {
            assert(p[i] == qs[i]);
        }
        law_tally_sums_each_dimension(p, d);
        let tp = spec_tally(p)->0;
        let t = spec_tally(qs)->0;
        let tt = base_total(p, d);
        if q.spec_dimension() == d {
            lemma_factor_size(q.unit);
            let f = q.unit.spec_base_factor()->0;
            lemma_arith_denotes(q.value, f);
            let b = q.spec_in_base()->0;
            let bp = q.base_parts();
            lemma_from_int(0);
            let prior = match slot_of(tp, d) {
                Some(x) => x,
                None => from_int(0),
            };
            lemma_arith_denotes(prior, b);
            let v = prior.spec_add(b)->0;
            assert(slot_of(t, d) == Some(v));
            assert(same_ratio(prior.num(), prior.den(), tt.0, tt.1));
            lemma_same_ratio_add(prior.num(), prior.den(), tt.0, tt.1, b.num(), b.den(), bp.0, bp.1);
            assert(prior.den() * b.den() > 0) by (nonlinear_arith)
                requires
                    prior.den() > 0,
                    b.den() > 0,
            ;
            lemma_same_ratio_trans(
                v.num(),
                v.den(),
                prior.num() * b.den() + b.num() * prior.den(),
                prior.den() * b.den(),
                tt.0 * bp.1 + bp.0 * tt.1,
                tt.1 * bp.1,
            );
            assert(tt.1 * bp.1 > 0) by (nonlinear_arith)
                requires
                    tt.1 > 0,
                    bp.1 == q.value.den() * f.den(),
                    q.value.den() > 0,
                    f.den() > 0,
            ;
        } else {
            assert(slot_of(t, d) == slot_of(tp, d));
            assert(base_total(qs, d) == tt);
            if exists|i: int| 0 <= i < qs.len() && (#[trigger] qs[i]).spec_dimension() == d {
                let i = choose|i: int| 0 <= i < qs.len() && (#[trigger] qs[i]).spec_dimension() == d;
                assert(i != n);
                assert(p[i] == qs[i]);
            }
            if exists|i: int| 0 <= i < p.len() && (#[trigger] p[i]).spec_dimension() == d {
                let i = choose|i: int| 0 <= i < p.len() && (#[trigger] p[i]).spec_dimension() == d;
                assert(p[i] == qs[i]);
            }
        }
    }
}

/// The exact sum, as a plain fraction, of the pinches among `qs`.
pub open spec fn pinch_total(qs: Seq<Quantity>) -> (int, int)
    decreases qs.len(),
{
    if qs.len() == 0 {
        (0, 1)
    } else {
        let t = pinch_total(qs.drop_last());
        let q = qs.last();
        if q.unit == Unit::Pinch {
            (t.0 * q.value.den() + q.value.num() * t.1, t.1 * q.value.den())
        } else {
            t
        }
    }
}

/// Pinches add up and "to taste" is presence: a tally keeps a pinch total
/// exactly when some quantity is in pinches, and it is the sum of all of
/// them; it says "to taste" exactly when some quantity does, however many.
pub proof fn law_tally_keeps_pinches_and_taste(qs: Seq<Quantity>)
    requires
        forall|i: int| 0 <= i < qs.len() ==> (#[trigger] qs[i]).value.in_range(),
        spec_tally(qs) is Some,
    ensures
        pinch_total(qs).1 > 0,
        (spec_tally(qs)->0).pinch is Some <==> exists|i: int|
            0 <= i < qs.len() && (#[trigger] qs[i]).unit == Unit::Pinch,
        (spec_tally(qs)->0).pinch is None ==> pinch_total(qs) == (0int, 1int),
        (spec_tally(qs)->0).pinch matches Some(s) ==> s.in_range() && denotes(
            s,
            pinch_total(qs).0,
            pinch_total(qs).1,
        ),
        (spec_tally(qs)->0).to_taste <==> exists|i: int|
            0 <= i < qs.len() && (#[trigger] qs[i]).unit == Unit::ToTaste,
    decreases qs.len(),
{
    if qs.len() > 0 {
        let p = qs.drop_last();
        let q = qs.last();
        let n = (qs.len() - 1) as int;
        assert(q == qs[n]);
        assert forall|i: int| 0 <= i < p.len() implies (#[trigger] p[i]).value.in_range() by {
            assert(p[i] == qs[i]);
        }
        law_tally_keeps_pinches_and_taste(p);
        let tp = spec_tally(p)->0;
        let t = spec_tally(qs)->0;
        let tt = pinch_total(p);
        if q.unit == Unit::Pinch {
            lemma_from_int(0);
            let prior = match tp.pinch {
                Some(x) => x,
                None => from_int(0),
            };
            lemma_arith_denotes(prior, q.value);
            let v = prior.spec_add(q.value)->0;
            assert(t.pinch == Some(v));
            assert(same_ratio(prior.num(), prior.den(), tt.0, tt.1));
            assert(same_ratio(q.value.num(), q.value.den(), q.value.num(), q.value.den()));
            lemma_same_ratio_add(
                prior.num(),
                prior.den(),
                tt.0,
                tt.1,
                q.value.num(),
                q.value.den(),
                q.value.num(),
                q.value.den(),
            );
            assert(prior.den() * q.value.den() > 0) by (nonlinear_arith)
                requires
                    prior.den() > 0,
                    q.value.den() > 0,
            ;
            lemma_same_ratio_trans(
                v.num(),
                v.den(),
                prior.num() * q.value.den() + q.value.num() * prior.den(),
                prior.den() * q.value.den(),
                tt.0 * q.value.den() + q.value.num() * tt.1,
                tt.1 * q.value.den(),
            );
            assert(tt.1 * q.value.den() > 0) by (nonlinear_arith)
                requires
                    tt.1 > 0,
                    q.value.den() > 0,
            ;
        } else {
            assert(t.pinch == tp.pinch);
            assert(pinch_total(qs) == tt);
            if exists|i: int| 0 <= i < qs.len() && (#[trigger] qs[i]).unit == Unit::Pinch {
                let i = choose|i: int| 0 <= i < qs.len() && (#[trigger] qs[i]).unit == Unit::Pinch;
                assert(i != n);
                assert(p[i] == qs[i]);
            }
            if exists|i: int| 0 <= i < p.len() && (#[trigger] p[i]).unit == Unit::Pinch {
                let i = choose|i: int| 0 <= i < p.len() && (#[trigger] p[i]).unit == Unit::Pinch;
                assert(p[i] == qs[i]);
            }
        }
        if q.unit == Unit::ToTaste {
            assert(t.to_taste);
        } else {
            assert(t.to_taste == tp.to_taste);
            if exists|i: int| 0 <= i < qs.len() && (#[trigger] qs[i]).unit == Unit::ToTaste {
                let i = choose|i: int| 0 <= i < qs.len() && (#[trigger] qs[i]).unit == Unit::ToTaste;
                assert(i != n);
                assert(p[i] == qs[i]);
            }
            if exists|i: int| 0 <= i < p.len() && (#[trigger] p[i]).unit == Unit::ToTaste {
                let i = choose|i: int| 0 <= i < p.len() && (#[trigger] p[i]).unit == Unit::ToTaste;
                assert(p[i] == qs[i]);
            }
        }
    }
}

/// Adding a value in lowest terms to nothing gives the value itself.
proof fn lemma_zero_plus(v: Rational)
    requires
        v.in_range(),
        reduced(v),
    ensures
        from_int(0).spec_add(v) == Some(v),
{
    lemma_in_range(v);
    lemma_add_whole(0, v);
    assert(0 * v.den() + v.num() == v.num());
}

/// A tally of mass alone: only its mass slot can be filled, it is filled as
/// soon as anything was counted, and what it holds is in lowest terms.
proof fn lemma_mass_tally(qs: Seq<Quantity>)
    requires
        forall|i: int|
            0 <= i < qs.len() ==> (#[trigger] qs[i]).value.in_range() && qs[i].spec_dimension()
                == Dimension::Mass,
        spec_tally(qs) is Some,
    ensures
        ({
            let t = spec_tally(qs)->0;
            &&& t.count is None
            &&& t.volume is None
            &&& t.pinch is None
            &&& !t.to_taste
            &&& (t.mass is Some <==> qs.len() > 0)
            &&& t.mass matches Some(m) ==> m.in_range() && reduced(m)
        }),
    decreases qs.len(),
{
    if qs.len() > 0 {
        let p = qs.drop_last();
        let q = qs.last();
        assert(q == qs[qs.len() - 1]);
        assert forall|i: int| 0 <= i < p.len() implies (#[trigger] p[i]).value.in_range()
            && p[i].spec_dimension() == Dimension::Mass by {
            assert(p[i] == qs[i]);
        }
        lemma_mass_tally(p);
        let tp = spec_tally(p)->0;
        let m = match q.unit {
            Unit::Mass(m) => m,
            _ => MassUnit::Gram,
        };
        m.lemma_grams();
        let g = m.spec_grams();
        lemma_arith_denotes(q.value, g);
        let b = q.value.spec_mul(g)->0;
        lemma_in_range(b);
        let prior = match tp.mass {
            Some(x) => x,
            None => from_int(0),
        };
        lemma_from_int(0);
        lemma_in_range(prior);
        lemma_spec_ops(prior, b);
        assert(prior.den() * b.den() > 0) by (nonlinear_arith)
            requires
                prior.den() > 0,
                b.den() > 0,
        ;
        let sum = prior.spec_add(b);
        if sum is Some {
            let nn = prior.num() * b.den() + b.num() * prior.den();
            lemma_make_reduced(nn, prior.den() * b.den());
            lemma_make_range(nn, prior.den() * b.den());
        }
    }
}

/// A tally holding one mass total merges into that one amount.
proof fn lemma_merge_single_mass(ing: Ingredient, t: Tally)
    requires
        t.count is None,
        t.volume is None,
        t.pinch is None,
        !t.to_taste,
        t.mass matches Some(m) && m.in_range() && reduced(m),
    ensures
        spec_merge_measured(ing, t) == Some(seq![round_amount(t.mass->0, Dimension::Mass)]),
        unmeasured_amounts(t) == Seq::<Quantity>::empty(),
{
    let m = t.mass->0;
    lemma_zero_plus(m);
    assert(round_total(ing, t, Dimension::Mass) == Some(m));
    let after = after_round(ing, t, Dimension::Mass);
    assert(measured_left(after) == 0);
    assert(spec_merge_measured(ing, after) == Some(Seq::<Quantity>::empty()));
    assert(measured_left(t) == 1);
    assert(preferred(t) == Dimension::Mass);
    assert(seq![round_amount(m, Dimension::Mass)] + Seq::<Quantity>::empty() =~= seq![
        round_amount(m, Dimension::Mass),
    ]);
    assert(unmeasured_amounts(t) =~= Seq::<Quantity>::empty());
}

/// Scaling then aggregating equals aggregating then scaling, as the amounts
/// a cart line shows: merging mass contributions each scaled by `f` yields
/// the one amount their mass total, scaled by `f`, reads as.
pub proof fn law_merging_scaled_masses(ing: Ingredient, qs: Seq<Quantity>, f: Rational)
    requires
        f.in_range(),
        reduced(f),
        qs.len() > 0,
        forall|i: int|
            0 <= i < qs.len() ==> (#[trigger] qs[i]).value.in_range() && qs[i].spec_dimension()
                == Dimension::Mass && qs[i].spec_scaled(f) is Some,
        spec_tally(qs) is Some,
        spec_tally(scaled_all(qs, f)) is Some,
    ensures
        ({
            let t = (spec_tally(qs)->0).mass->0;
            &&& spec_merge(ing, qs) == Some(seq![round_amount(t, Dimension::Mass)])
            &&& t.spec_mul(f) is Some
            &&& spec_merge(ing, scaled_all(qs, f)) == Some(
                seq![round_amount(t.spec_mul(f)->0, Dimension::Mass)],
            )
        }),
{
    let sq = scaled_all(qs, f);
    assert forall|i: int| 0 <= i < sq.len() implies (#[trigger] sq[i]).value.in_range()
        && sq[i].spec_dimension() == Dimension::Mass by {
        lemma_arith_denotes(qs[i].value, f);
    }
    lemma_mass_tally(qs);
    lemma_mass_tally(sq);
    law_scaling_commutes_with_aggregation(qs, f);
    let tt = spec_tally(qs)->0;
    let st = spec_tally(sq)->0;
    let t = tt.mass->0;
    let s = st.mass->0;
    lemma_merge_single_mass(ing, tt);
    lemma_merge_single_mass(ing, st);
    assert(seq![round_amount(t, Dimension::Mass)] + Seq::<Quantity>::empty() =~= seq![
        round_amount(t, Dimension::Mass),
    ]);
    assert(seq![round_amount(s, Dimension::Mass)] + Seq::<Quantity>::empty() =~= seq![
        round_amount(s, Dimension::Mass),
    ]);
    lemma_in_range(t);
    lemma_in_range(s);
    lemma_in_range(f);
    lemma_mul_exact(t, f);
    assert(t.den() * f.den() > 0) by (nonlinear_arith)
        requires
            t.den() > 0,
            f.den() > 0,
    ;
    lemma_make_same(s.num(), s.den(), t.num() * f.num(), t.den() * f.den());
}

/// The amounts the plain usages among `cs` ask of ingredient `k`, in order.
pub open spec fn usage_amounts(cs: Seq<Component>, k: Seq<char>) -> Seq<Quantity>
    decreases cs.len(),
{
    if cs.len() == 0 {
        seq![]
    } else {
        let rest = usage_amounts(cs.drop_last(), k);
        match cs.last() {
            Component::Ingredient(u) => if u.ingredient@ == k {
                rest.push(u.quantity)
            } else {
                rest
            },
            Component::SubRecipe(_) => rest,
        }
    }
}

/// A usage of a mass of some ingredient, in range and in lowest terms.
pub open spec fn plain_mass(c: Component) -> bool {
    match c {
        Component::Ingredient(u) => {
            &&& u.quantity.spec_dimension() == Dimension::Mass
            &&& u.quantity.value.in_range()
            &&& reduced(u.quantity.value)
        },
        Component::SubRecipe(_) => false,
    }
}

/// What a plain usage contributes at `factor`.
pub open spec fn plain_contribution(c: Component, factor: Rational) -> Contribution {
    match c {
        Component::Ingredient(u) => Contribution {
            ingredient: u.ingredient,
            quantity: u.quantity.spec_scaled(factor)->0,
            usage: u.id,
        },
        Component::SubRecipe(_) => vstd::pervasive::arbitrary(),
    }
}

/// Whether `c` is a plain usage of the amount `q`.
pub open spec fn usage_of(c: Component, q: Quantity) -> bool {
    c matches Component::Ingredient(u) && u.quantity == q
}

/// Whether `c` is a plain usage whose amount scales by `factor` in range.
pub open spec fn scales(c: Component, factor: Rational) -> bool {
    c matches Component::Ingredient(u) && u.quantity.spec_scaled(factor) is Some
}

/// Components that are all plain usages expand, when they expand at all, to
/// their own amounts scaled, in order.
proof fn lemma_plain_expand(
    cs: Seq<Component>,
    factor: Rational,
    recipes: RecipeIndex,
    path: Seq<Seq<char>>,
)
    requires
        forall|i: int| 0 <= i < cs.len() ==> plain_mass(#[trigger] cs[i]),
        spec_expand_components(cs, factor, recipes, path) is Ok,
    ensures
        forall|i: int| 0 <= i < cs.len() ==> scales(#[trigger] cs[i], factor),
        spec_expand_components(cs, factor, recipes, path) == Ok::<Seq<Contribution>, ExpandFault>(
            cs.map_values(|c: Component| plain_contribution(c, factor)),
        ),
    decreases cs.len(),
{
    if cs.len() == 0 {
        assert(cs.map_values(|c: Component| plain_contribution(c, factor)) =~= seq![]);
    } else {
        let rest = cs.drop_first();
        assert(plain_mass(cs[0]));
        assert forall|i: int| 0 <= i < rest.len() implies plain_mass(#[trigger] rest[i]) by {
            assert(rest[i] == cs[i + 1]);
        }
        lemma_plain_expand(rest, factor, recipes, path);
        assert forall|i: int| 0 <= i < cs.len() implies scales(#[trigger] cs[i], factor) by {
            if i > 0 {
                assert(cs[i] == rest[i - 1]);
            }
        }
        assert(seq![plain_contribution(cs[0], factor)] + rest.map_values(
            |c: Component| plain_contribution(c, factor),
        ) =~= cs.map_values(|c: Component| plain_contribution(c, factor)));
    }
}

/// The demands a list entry makes from plain usages.
pub open spec fn plain_demands(cs: Seq<Component>, factor: Rational, entry: Seq<char>) -> Seq<
    Demand,
> {
    cs.map_values(
        |c: Component|
            Demand {
                ingredient: plain_contribution(c, factor).ingredient@,
                quantity: plain_contribution(c, factor).quantity,
                entry,
                manual: false,
            },
    )
}

/// What plain demands ask of one ingredient is what the usages ask of it,
/// each scaled.
proof fn lemma_plain_amounts(cs: Seq<Component>, factor: Rational, entry: Seq<char>, k: Seq<char>)
    requires
        forall|i: int| 0 <= i < cs.len() ==> plain_mass(#[trigger] cs[i]),
    ensures
        quantities_for(plain_demands(cs, factor, entry), k) == scaled_all(usage_amounts(cs, k), factor),
        usage_amounts(cs, k).len() == quantities_for(plain_demands(cs, factor, entry), k).len(),
        forall|j: int|
            #![trigger usage_amounts(cs, k)[j]]
            0 <= j < usage_amounts(cs, k).len() ==> exists|i: int|
                0 <= i < cs.len() && usage_of(#[trigger] cs[i], usage_amounts(cs, k)[j]),
    decreases cs.len(),
{
    let ds = plain_demands(cs, factor, entry);
    if cs.len() == 0 {
        assert(scaled_all(seq![], factor) =~= seq![]);
    } else {
        let p = cs.drop_last();
        assert forall|i: int| 0 <= i < p.len() implies plain_mass(#[trigger] p[i]) by {
            assert(p[i] == cs[i]);
        }
        lemma_plain_amounts(p, factor, entry, k);
        assert(ds.drop_last() =~= plain_demands(p, factor, entry));
        let c = cs.last();
        assert(c == cs[cs.len() - 1]);
        assert(plain_mass(c));
        let before = usage_amounts(p, k);
        match c {
            Component::Ingredient(u) => {
                if u.ingredient@ == k {
                    assert(scaled_all(before.push(u.quantity), factor) =~= scaled_all(before, factor).push(
                        u.quantity.spec_scaled(factor)->0,
                    ));
                    assert forall|j: int|
                        #![trigger usage_amounts(cs, k)[j]]
                        0 <= j < usage_amounts(cs, k).len() implies exists|i: int|
                        0 <= i < cs.len() && usage_of(#[trigger] cs[i], usage_amounts(cs, k)[j]) by {
                        if j < before.len() {
                            let i = choose|i: int|
                                0 <= i < p.len() && usage_of(#[trigger] p[i], before[j]);
                            assert(cs[i] == p[i]);
                        } else {
                            assert(cs[cs.len() - 1] == c);
                        }
                    }
                } else {
                    assert forall|j: int|
                        #![trigger usage_amounts(cs, k)[j]]
                        0 <= j < usage_amounts(cs, k).len() implies exists|i: int|
                        0 <= i < cs.len() && usage_of(#[trigger] cs[i], usage_amounts(cs, k)[j]) by {
                        let i = choose|i: int|
                            0 <= i < p.len() && usage_of(#[trigger] p[i], before[j]);
                        assert(cs[i] == p[i]);
                    }
                }
            },
            Component::SubRecipe(_) => {},
        }
    }
}

/// Whoever asks for `k` makes its amounts non-empty.
proof fn lemma_asked_amounts(ds: Seq<Demand>, k: Seq<char>)
    requires
        asked(ds, k),
    ensures
        quantities_for(ds, k).len() > 0,
    decreases ds.len(),
{
    if ds.last().ingredient != k {
        let i = choose|i: int| 0 <= i < ds.len() && (#[trigger] ds[i]).ingredient == k;
        assert(ds.drop_last()[i] == ds[i]);
        lemma_asked_amounts(ds.drop_last(), k);
    }
}

/// A list holding one recipe whose components are all masses of
/// ingredients: each line of its cart is the mass total of what the recipe
/// asks of that ingredient, scaled from the servings the recipe is written
/// for to the servings wanted, and read in the unit a person would use.
/// Scaling then aggregating is aggregating then scaling, end to end.
pub proof fn law_a_recipe_line_is_its_scaled_total(
    entry: ListEntry,
    recipes: RecipeIndex,
    ingredients: IngredientIndex,
    overlay: Overlay,
    lines: Seq<CartLine>,
    i: int,
)
    requires
        entry.item matches ListItem::Recipe { recipe, servings } && servings.count() > 0 && (
        recipes.spec_get(recipe@) matches Some(r) && r.servings.count() > 0 && forall|j: int|
            0 <= j < r.components@.len() ==> plain_mass(#[trigger] r.components@[j])),
        spec_demands(seq![entry], recipes) is Ok,
        shows(lines, spec_demands(seq![entry], recipes)->Ok_0, ingredients, overlay),
        0 <= i < lines.len(),
        ({
            let r = recipes.spec_get(entry.item->recipe@)->0;
            spec_tally(usage_amounts(r.components@, lines[i].ingredient@)) is Some
        }),
    ensures
        ({
            let r = recipes.spec_get(entry.item->recipe@)->0;
            let f = make(entry.item->servings.count(), r.servings.count())->0;
            let t = (spec_tally(usage_amounts(r.components@, lines[i].ingredient@))->0).mass->0;
            &&& t.spec_mul(f) is Some
            &&& lines[i].amounts@ == seq![round_amount(t.spec_mul(f)->0, Dimension::Mass)]
        }),
{
    let id = entry.item->recipe;
    let servings = entry.item->servings;
    let r = recipes.spec_get(id@)->0;
    let cs = r.components@;
    servings.lemma_count_fits();
    r.servings.lemma_count_fits();
    let n = servings.count();
    let d = r.servings.count();
    lemma_make_small(n, d);
    lemma_make_reduced(n, d);
    lemma_make_range(n, d);
    let f = make(n, d)->0;
    let entries = seq![entry];
    assert(entries.drop_last() =~= Seq::<ListEntry>::empty());
    assert(entries.last() == entry);
    assert(spec_demands(Seq::<ListEntry>::empty(), recipes) == Ok::<Seq<Demand>, CartFault>(seq![]));
    assert(!seq![].contains(id@));
    assert(spec_expand(id@, f, recipes) == spec_expand_components(cs, f, recipes, seq![].push(id@)));
    let contributions = spec_expand(id@, f, recipes)->Ok_0;
    lemma_plain_expand(cs, f, recipes, seq![].push(id@));
    let ds = spec_demands(entries, recipes)->Ok_0;
    assert(ds =~= plain_demands(cs, f, entry.id@));
    let k = lines[i].ingredient@;
    let line = lines[i];
    assert(describes(line, ds, ingredients, overlay));
    reveal(describes);
    assert(ingredients.spec_get(k) is Some);
    let ing = ingredients.spec_get(k)->0;
    assert(asked(ds, k));
    assert(spec_merge(ing, quantities_for(ds, k)) == Some(line.amounts@));
    lemma_plain_amounts(cs, f, entry.id@, k);
    lemma_asked_amounts(ds, k);
    let qs = usage_amounts(cs, k);
    assert forall|j: int| 0 <= j < qs.len() implies (#[trigger] qs[j]).value.in_range()
        && qs[j].spec_dimension() == Dimension::Mass && qs[j].spec_scaled(f) is Some by {
        let c = choose|c: int|
            0 <= c < cs.len() && usage_of(#[trigger] cs[c], qs[j]);
        assert(plain_mass(cs[c]));
        assert(scales(cs[c], f));
    }
    assert(quantities_for(ds, k) == scaled_all(qs, f));
    assert(spec_tally(scaled_all(qs, f)) is Some);
    law_merging_scaled_masses(ing, qs, f);
}

/// Every line of a cart stands in exactly one of its three sections — still
/// to pick up, picked, at home already — so the sections together hold the
/// cart's lines, each once.
pub proof fn law_sections_partition_the_cart(lines: Seq<CartLine>)
    ensures
        forall|l: CartLine|
            #![trigger to_pick(l.state)]
            (to_pick(l.state) || picked(l.state) || at_home(l.state)) && !(to_pick(l.state) && picked(l.state))
                && !(to_pick(l.state) && at_home(l.state)) && !(picked(l.state) && at_home(l.state)),
        lines_where(lines, |s: CheckState| to_pick(s)).len() + lines_where(lines, |s: CheckState| picked(s)).len()
            + lines_where(lines, |s: CheckState| at_home(s)).len() == lines.len(),
        lines_where(lines, |s: CheckState| to_pick(s)).to_multiset().add(
            lines_where(lines, |s: CheckState| picked(s)).to_multiset(),
        ).add(lines_where(lines, |s: CheckState| at_home(s)).to_multiset()) == lines.to_multiset(),
    decreases lines.len(),
{
    broadcast use vstd::seq_lib::group_to_multiset_ensures, vstd::multiset::group_multiset_axioms;
    let a = |s: CheckState| to_pick(s);
    let b = |s: CheckState| picked(s);
    let c = |s: CheckState| at_home(s);
    if lines.len() == 0 {
        assert(lines_where(lines, a).to_multiset() =~= Multiset::empty());
        assert(lines_where(lines, b).to_multiset() =~= Multiset::empty());
        assert(lines_where(lines, c).to_multiset() =~= Multiset::empty());
        assert(lines.to_multiset() =~= Multiset::empty());
    } else {
        let rest = lines.drop_last();
        let x = lines.last();
        law_sections_partition_the_cart(rest);
        assert(lines =~= rest.push(x));
        let ma = lines_where(rest, a).to_multiset();
        let mb = lines_where(rest, b).to_multiset();
        let mc = lines_where(rest, c).to_multiset();
        if to_pick(x.state) {
            assert(lines_where(lines, a) == lines_where(rest, a).push(x));
            assert(lines_where(lines, b) == lines_where(rest, b));
            assert(lines_where(lines, c) == lines_where(rest, c));
            assert(ma.insert(x).add(mb).add(mc) =~= ma.add(mb).add(mc).insert(x));
        } else if picked(x.state) {
            assert(lines_where(lines, a) == lines_where(rest, a));
            assert(lines_where(lines, b) == lines_where(rest, b).push(x));
            assert(lines_where(lines, c) == lines_where(rest, c));
            assert(ma.add(mb.insert(x)).add(mc) =~= ma.add(mb).add(mc).insert(x));
        } else {
            assert(lines_where(lines, a) == lines_where(rest, a));
            assert(lines_where(lines, b) == lines_where(rest, b));
            assert(lines_where(lines, c) == lines_where(rest, c).push(x));
            assert(ma.add(mb).add(mc.insert(x)) =~= ma.add(mb).add(mc).insert(x));
        }
    }
}

} // verus!
