//! Canonical ingredients — the aggregation key of the cart.
//!
//! Two spellings that do not resolve to the same [`IngredientId`] will not
//! merge, which is why free-text entry has to go through the alias table
//! before it reaches anything here.

use vstd::prelude::*;

use crate::ids::IngredientId;
use crate::quantity::Quantity;
use crate::rational::{
    exact_div, exact_mul, lemma_div_is_exact, lemma_mul_is_exact, reduced, abs, lemma_div_small, lemma_in_range, lemma_mul_small, lemma_ratio, ratio, Rational,
};
use crate::text::{chars_eq_ignore_ascii_case, chars_of, eq_ignore_ascii_case, trim_chars, trimmed};
use crate::units::{
    exact_convert, lemma_convert_is_exact, lemma_factor_reduced, lemma_factor_size, Dimension,
    MassUnit, Unit, VolumeUnit,
};

verus! {

/// Where an item is found in the shop. Declaration order **is** the walking
/// order used to sort the cart.
#[derive(Debug, Clone, Copy, PartialEq, Eq, PartialOrd, Ord, Hash, Structural)]
pub enum Aisle {
    Produce,
    Butcher,
    Fish,
    Deli,
    Dairy,
    Bakery,
    Grocery,
    Frozen,
    Beverages,
    Household,
    Other,
}

impl Aisle {
    /// Position in the walking order.
    pub open spec fn rank(self) -> int {
        match self {
            Aisle::Produce => 0,
            Aisle::Butcher => 1,
            Aisle::Fish => 2,
            Aisle::Deli => 3,
            Aisle::Dairy => 4,
            Aisle::Bakery => 5,
            Aisle::Grocery => 6,
            Aisle::Frozen => 7,
            Aisle::Beverages => 8,
            Aisle::Household => 9,
            Aisle::Other => 10,
        }
    }

    /// Position in the walking order, as a number.
    pub fn order(self) -> (r: u8)
        ensures
            r == self.rank(),
    {
        match self {
            Aisle::Produce => 0,
            Aisle::Butcher => 1,
            Aisle::Fish => 2,
            Aisle::Deli => 3,
            Aisle::Dairy => 4,
            Aisle::Bakery => 5,
            Aisle::Grocery => 6,
            Aisle::Frozen => 7,
            Aisle::Beverages => 8,
            Aisle::Household => 9,
            Aisle::Other => 10,
        }
    }
}

/// The aisles as a shopper meets them walking through the shop, which is
/// the order they are declared in.
pub open spec fn walking_order() -> Seq<Aisle> {
    seq![
        Aisle::Produce,
        Aisle::Butcher,
        Aisle::Fish,
        Aisle::Deli,
        Aisle::Dairy,
        Aisle::Bakery,
        Aisle::Grocery,
        Aisle::Frozen,
        Aisle::Beverages,
        Aisle::Household,
        Aisle::Other,
    ]
}

/// An aisle's rank is its place in the walk: every aisle has exactly one
/// place, the rank of the aisle at place `i` is `i`, so an aisle met
/// earlier always ranks strictly lower than one met later, and two aisles
/// share a rank only when they are the same aisle.
pub proof fn law_rank_is_walking_position()
    ensures
        walking_order().len() == 11,
        forall|i: int| 0 <= i < 11 ==> (#[trigger] walking_order()[i]).rank() == i,
        forall|i: int, j: int|
            0 <= i < j < 11 ==> (#[trigger] walking_order()[i]).rank()
                < (#[trigger] walking_order()[j]).rank(),
        forall|a: Aisle| #[trigger] walking_order()[a.rank()] == a && 0 <= a.rank() < 11,
        forall|a: Aisle, b: Aisle| #[trigger] a.rank() == #[trigger] b.rank() ==> a == b,
{
    let w = walking_order();
    assert(w[0] == Aisle::Produce);
    assert(w[1] == Aisle::Butcher);
    assert(w[2] == Aisle::Fish);
    assert(w[3] == Aisle::Deli);
    assert(w[4] == Aisle::Dairy);
    assert(w[5] == Aisle::Bakery);
    assert(w[6] == Aisle::Grocery);
    assert(w[7] == Aisle::Frozen);
    assert(w[8] == Aisle::Beverages);
    assert(w[9] == Aisle::Household);
    assert(w[10] == Aisle::Other);
    assert forall|i: int| 0 <= i < 11 implies (#[trigger] walking_order()[i]).rank() == i by {
        assert(w[i] == walking_order()[i]);
    }
    assert forall|a: Aisle| #[trigger] walking_order()[a.rank()] == a && 0 <= a.rank() < 11 by {
        match a {
            Aisle::Produce => assert(w[0] == a),
            Aisle::Butcher => assert(w[1] == a),
            Aisle::Fish => assert(w[2] == a),
            Aisle::Deli => assert(w[3] == a),
            Aisle::Dairy => assert(w[4] == a),
            Aisle::Bakery => assert(w[5] == a),
            Aisle::Grocery => assert(w[6] == a),
            Aisle::Frozen => assert(w[7] == a),
            Aisle::Beverages => assert(w[8] == a),
            Aisle::Household => assert(w[9] == a),
            Aisle::Other => assert(w[10] == a),
        }
    }
    assert forall|a: Aisle, b: Aisle| #[trigger] a.rank() == #[trigger] b.rank() implies a == b by {
        assert(walking_order()[a.rank()] == a);
        assert(walking_order()[b.rank()] == b);
    }
}

/// An elementary component. Quantities of the same ingredient sum; quantities
/// of different ingredients never do.
#[derive(Debug, PartialEq, Eq)]
pub struct Ingredient {
    pub id: IngredientId,
    pub name: String,
    /// Alternative spellings that resolve to this ingredient.
    pub aliases: Vec<String>,
    pub aisle: Aisle,
    /// Salt, pepper, oil, flour: excluded from the cart by default when it is
    /// only recipes that asked for them. Not stock tracking.
    pub staple: bool,
    /// Grams per millilitre. Enables mass ↔ volume.
    pub density: Option<Rational>,
    /// Grams per piece. Enables count ↔ mass.
    pub unit_weight: Option<Rational>,
}

/// Two ingredients that hold the same values.
pub open spec fn same_ingredient(a: Ingredient, b: Ingredient) -> bool {
    &&& a.id == b.id
    &&& a.name@ == b.name@
    &&& a.aliases@.len() == b.aliases@.len()
    &&& (forall|i: int| 0 <= i < a.aliases@.len() ==> (#[trigger] a.aliases@[i])@ == b.aliases@[i]@)
    &&& a.aisle == b.aisle
    &&& a.staple == b.staple
    &&& a.density == b.density
    &&& a.unit_weight == b.unit_weight
}

impl Clone for Ingredient {
    fn clone(&self) -> (r: Self)
        ensures
            same_ingredient(r, *self),
    {
        let mut aliases: Vec<String> = Vec::new();
        let mut i: usize = 0;
        while i < self.aliases.len()
            invariant
                i <= self.aliases@.len(),
                aliases@.len() == i,
                forall|k: int| 0 <= k < i ==> (#[trigger] aliases@[k])@ == self.aliases@[k]@,
            decreases self.aliases@.len() - i,
        {
            aliases.push(self.aliases[i].clone());
            i = i + 1;
        }
        Ingredient {
            id: self.id.clone(),
            name: self.name.clone(),
            aliases,
            aisle: self.aisle,
            staple: self.staple,
            density: self.density,
            unit_weight: self.unit_weight,
        }
    }
}

/// A coefficient is usable only if it is strictly positive — a zero density
/// would otherwise divide by zero, and a negative one is meaningless.
pub open spec fn spec_positive(coefficient: Option<Rational>) -> Option<Rational> {
    match coefficient {
        Some(c) => if c.num() > 0 {
            Some(c)
        } else {
            None
        },
        None => None,
    }
}

pub fn positive(coefficient: Option<Rational>) -> (r: Option<Rational>)
    ensures
        r == spec_positive(coefficient),
        r matches Some(c) ==> c.num() > 0,
{
    match coefficient {
        Some(c) => if c.numer() > 0 && c.denom() > 0 {
            Some(c)
        } else {
            None
        },
        None => None,
    }
}

impl Ingredient {
    /// `name` denotes this ingredient: it equals, ignoring ASCII case and
    /// surrounding white space, the canonical name or one of the aliases.
    pub open spec fn spec_matches(&self, name: Seq<char>) -> bool {
        let wanted = trimmed(name);
        ||| eq_ignore_ascii_case(self.name@, wanted)
        ||| exists|i: int|
            0 <= i < self.aliases@.len() && eq_ignore_ascii_case(
                #[trigger] self.aliases@[i]@,
                wanted,
            )
    }

    /// Whether the coefficients let `from` become `to`.
    pub open spec fn spec_can_convert(&self, from: Dimension, to: Dimension) -> bool {
        if from == to {
            from != Dimension::Unmeasured
        } else {
            self.reaches_grams(from) && self.reaches_grams(to)
        }
    }

    /// Whether a quantity of `dimension` can pass through grams.
    pub open spec fn reaches_grams(&self, dimension: Dimension) -> bool {
        match dimension {
            Dimension::Mass => true,
            Dimension::Volume => spec_positive(self.density) is Some,
            Dimension::Count => spec_positive(self.unit_weight) is Some,
            Dimension::Unmeasured => false,
        }
    }

    pub open spec fn spec_to_grams(&self, quantity: Quantity) -> Option<Rational> {
        match quantity.spec_in_base() {
            None => None,
            Some(base) => match quantity.spec_dimension() {
                Dimension::Mass => Some(base),
                Dimension::Volume => match spec_positive(self.density) {
                    Some(d) => base.spec_mul(d),
                    None => None,
                },
                Dimension::Count => match spec_positive(self.unit_weight) {
                    Some(w) => base.spec_mul(w),
                    None => None,
                },
                Dimension::Unmeasured => None,
            },
        }
    }

    pub open spec fn spec_grams_to(&self, grams: Rational, target: Dimension) -> Option<Quantity> {
        match target {
            Dimension::Mass => Some(Quantity { value: grams, unit: Unit::Mass(MassUnit::Gram) }),
            Dimension::Volume => match spec_positive(self.density) {
                Some(d) => match grams.spec_div(d) {
                    Some(v) => Some(Quantity { value: v, unit: Unit::Volume(VolumeUnit::Milliliter) }),
                    None => None,
                },
                None => None,
            },
            Dimension::Count => match spec_positive(self.unit_weight) {
                Some(w) => match grams.spec_div(w) {
                    Some(v) => Some(Quantity { value: v, unit: Unit::Piece }),
                    None => None,
                },
                None => None,
            },
            Dimension::Unmeasured => None,
        }
    }

    /// A quantity of this ingredient in the base unit of `target`: a plain
    /// unit change within a dimension, otherwise through grams with the
    /// coefficients; `None` without them, or out of range.
    pub open spec fn spec_convert(&self, quantity: Quantity, target: Dimension) -> Option<Quantity> {
        if quantity.spec_dimension() == target {
            match target.spec_base_unit() {
                Some(u) => quantity.spec_convert_to(u),
                None => None,
            }
        } else {
            match self.spec_to_grams(quantity) {
                Some(g) => self.spec_grams_to(g, target),
                None => None,
            }
        }
    }

    /// A plain ingredient with no conversion coefficients.
    pub fn new(id: IngredientId, name: &str, aisle: Aisle) -> (r: Ingredient)
        ensures
            r.id == id,
            r.name@ == name@,
            r.aliases@.len() == 0,
            r.aisle == aisle,
            !r.staple,
            r.density is None,
            r.unit_weight is None,
    {
        Ingredient {
            id,
            name: name.to_owned(),
            aliases: Vec::new(),
            aisle,
            staple: false,
            density: None,
            unit_weight: None,
        }
    }

    pub fn with_density(self, grams_per_ml: Rational) -> (r: Ingredient)
        ensures
            r == (Ingredient { density: Some(grams_per_ml), ..self }),
    {
        Ingredient { density: Some(grams_per_ml), ..self }
    }

    pub fn with_unit_weight(self, grams_per_piece: Rational) -> (r: Ingredient)
        ensures
            r == (Ingredient { unit_weight: Some(grams_per_piece), ..self }),
    {
        Ingredient { unit_weight: Some(grams_per_piece), ..self }
    }

    pub fn as_staple(self) -> (r: Ingredient)
        ensures
            r == (Ingredient { staple: true, ..self }),
    {
        Ingredient { staple: true, ..self }
    }

    /// Does `name` denote this ingredient? Case-insensitive over the canonical
    /// name and every alias.
    pub fn matches(&self, name: &str) -> (b: bool)
        ensures
            b == self.spec_matches(name@),
    {
        let wanted = trim_chars(&chars_of(name));
        if chars_eq_ignore_ascii_case(&chars_of(self.name.as_str()), &wanted) {
            return true;
        }
        let mut i: usize = 0;
        while i < self.aliases.len()
            invariant
                i <= self.aliases@.len(),
                wanted@ == trimmed(name@),
                forall|j: int|
                    0 <= j < i ==> !eq_ignore_ascii_case(#[trigger] self.aliases@[j]@, wanted@),
            decreases self.aliases@.len() - i,
        {
            if chars_eq_ignore_ascii_case(&chars_of(self.aliases[i].as_str()), &wanted) {
                return true;
            }
            i = i + 1;
        }
        false
    }

    /// Converts a quantity of *this* ingredient into `target`, crossing
    /// dimensions when — and only when — the needed coefficient is present.
    /// Grams are the pivot.
    ///
    /// Returns `None` rather than an approximation: a plausible wrong
    /// conversion produces a shopping quantity nobody can trace back, whereas
    /// two honest lines are merely slightly less tidy.
    pub fn convert(&self, quantity: &Quantity, target: Dimension) -> (r: Option<Quantity>)
        ensures
            r == self.spec_convert(*quantity, target),
    {
        if quantity.dimension() == target {
            return match target.base_unit() {
                Some(u) => quantity.convert_to(u),
                None => None,
            };
        }
        match self.to_grams(quantity) {
            Some(g) => self.grams_to(g, target),
            None => None,
        }
    }

    /// Whether [`Ingredient::convert`] can succeed, without doing the work.
    pub fn can_convert(&self, from: Dimension, to: Dimension) -> (b: bool)
        ensures
            b == self.spec_can_convert(from, to),
    {
        if from == to {
            return from.is_measurable();
        }
        let pivot = match from {
            Dimension::Mass => true,
            Dimension::Volume => positive(self.density).is_some(),
            Dimension::Count => positive(self.unit_weight).is_some(),
            Dimension::Unmeasured => false,
        };
        let out = match to {
            Dimension::Mass => true,
            Dimension::Volume => positive(self.density).is_some(),
            Dimension::Count => positive(self.unit_weight).is_some(),
            Dimension::Unmeasured => false,
        };
        pivot && out
    }

    fn to_grams(&self, quantity: &Quantity) -> (r: Option<Rational>)
        ensures
            r == self.spec_to_grams(*quantity),
    {
        let base = match quantity.in_base() {
            Some(b) => b,
            None => return None,
        };
        match quantity.dimension() {
            Dimension::Mass => Some(base),
            Dimension::Volume => match positive(self.density) {
                Some(d) => base.checked_mul(&d),
                None => None,
            },
            Dimension::Count => match positive(self.unit_weight) {
                Some(w) => base.checked_mul(&w),
                None => None,
            },
            Dimension::Unmeasured => None,
        }
    }

    fn grams_to(&self, grams: Rational, target: Dimension) -> (r: Option<Quantity>)
        ensures
            r == self.spec_grams_to(grams, target),
    {
        match target {
            Dimension::Mass => Some(Quantity::new(grams, Unit::Mass(MassUnit::Gram))),
            Dimension::Volume => match positive(self.density) {
                Some(d) => match grams.checked_div(&d) {
                    Some(v) => Some(Quantity::new(v, Unit::Volume(VolumeUnit::Milliliter))),
                    None => None,
                },
                None => None,
            },
            Dimension::Count => match positive(self.unit_weight) {
                Some(w) => match grams.checked_div(&w) {
                    Some(v) => Some(Quantity::new(v, Unit::Piece)),
                    None => None,
                },
                None => None,
            },
            Dimension::Unmeasured => None,
        }
    }
}

/// Conversion never invents a coefficient: whenever [`Ingredient::convert`]
/// yields a quantity, [`Ingredient::can_convert`] agreed that the dimensions
/// are bridgeable — so without the coefficient there is no result at all.
pub proof fn law_convert_needs_the_coefficient(
    ingredient: Ingredient,
    quantity: Quantity,
    target: Dimension,
)
    ensures
        ingredient.spec_convert(quantity, target) is Some ==> ingredient.spec_can_convert(
            quantity.spec_dimension(),
            target,
        ),
{
}

/// A quantity's magnitude in its dimension's base unit, with exact
/// arithmetic.
pub open spec fn exact_in_base(q: Quantity) -> Option<Rational> {
    match q.unit.spec_base_factor() {
        Some(f) => exact_mul(q.value, f),
        None => None,
    }
}

/// [`Ingredient::spec_to_grams`] with exact arithmetic.
pub open spec fn exact_to_grams(ing: Ingredient, q: Quantity) -> Option<Rational> {
    match exact_in_base(q) {
        None => None,
        Some(base) => match q.spec_dimension() {
            Dimension::Mass => Some(base),
            Dimension::Volume => match spec_positive(ing.density) {
                Some(d) => exact_mul(base, d),
                None => None,
            },
            Dimension::Count => match spec_positive(ing.unit_weight) {
                Some(w) => exact_mul(base, w),
                None => None,
            },
            Dimension::Unmeasured => None,
        },
    }
}

/// [`Ingredient::spec_grams_to`] with exact arithmetic.
pub open spec fn exact_grams_to(ing: Ingredient, grams: Rational, target: Dimension) -> Option<Quantity> {
    match target {
        Dimension::Mass => Some(Quantity { value: grams, unit: Unit::Mass(MassUnit::Gram) }),
        Dimension::Volume => match spec_positive(ing.density) {
            Some(d) => match exact_div(grams, d) {
                Some(v) => Some(Quantity { value: v, unit: Unit::Volume(VolumeUnit::Milliliter) }),
                None => None,
            },
            None => None,
        },
        Dimension::Count => match spec_positive(ing.unit_weight) {
            Some(w) => match exact_div(grams, w) {
                Some(v) => Some(Quantity { value: v, unit: Unit::Piece }),
                None => None,
            },
            None => None,
        },
        Dimension::Unmeasured => None,
    }
}

/// An ingredient's conversion with exact arithmetic: `None` only where the
/// coefficients do not bridge the dimensions or an exact intermediate,
/// reduced, is past what 128-bit integers hold.
pub open spec fn exact_ingredient_convert(ing: Ingredient, q: Quantity, target: Dimension) -> Option<
    Quantity,
> {
    if q.spec_dimension() == target {
        match target.spec_base_unit() {
            Some(u) => match exact_convert(q.value, q.unit, u) {
                Some(v) => Some(Quantity { value: v, unit: u }),
                None => None,
            },
            None => None,
        }
    } else {
        match exact_to_grams(ing, q) {
            Some(g) => exact_grams_to(ing, g, target),
            None => None,
        }
    }
}

/// Conversion is exact arithmetic. For an amount and coefficients in lowest
/// terms it gives the exact conversion, and it succeeds exactly when the
/// coefficients bridge the dimensions and every exact intermediate, reduced,
/// stays within what 128-bit integers hold: `can_convert` answers whether a
/// conversion exists for every amount whose exact arithmetic stays in range.
pub proof fn law_convert_is_exact(ingredient: Ingredient, quantity: Quantity, target: Dimension)
    requires
        quantity.value.in_range(),
        reduced(quantity.value),
        ingredient.density matches Some(d) ==> d.in_range() && reduced(d),
        ingredient.unit_weight matches Some(w) ==> w.in_range() && reduced(w),
    ensures
        ingredient.spec_convert(quantity, target) == exact_ingredient_convert(ingredient, quantity, target),
        ingredient.spec_convert(quantity, target) is Some <==> (ingredient.spec_can_convert(
            quantity.spec_dimension(),
            target,
        ) && exact_ingredient_convert(ingredient, quantity, target) is Some),
{
    let v = quantity.value;
    if quantity.spec_dimension() == target {
        match target.spec_base_unit() {
            Some(u) => lemma_convert_is_exact(v, quantity.unit, u),
            None => {},
        }
    } else {
        lemma_factor_reduced(quantity.unit);
        lemma_factor_size(quantity.unit);
        match quantity.unit.spec_base_factor() {
            Some(f) => {
                lemma_mul_is_exact(v, f);
                match exact_mul(v, f) {
                    Some(base) => {
                        let g = match quantity.spec_dimension() {
                            Dimension::Volume => match spec_positive(ingredient.density) {
                                Some(d) => {
                                    lemma_mul_is_exact(base, d);
                                    exact_mul(base, d)
                                },
                                None => None,
                            },
                            Dimension::Count => match spec_positive(ingredient.unit_weight) {
                                Some(w) => {
                                    lemma_mul_is_exact(base, w);
                                    exact_mul(base, w)
                                },
                                None => None,
                            },
                            Dimension::Mass => Some(base),
                            Dimension::Unmeasured => None,
                        };
                        assert(ingredient.spec_to_grams(quantity) == g);
                        assert(exact_to_grams(ingredient, quantity) == g);
                        if g is Some {
                            let gv = g->0;
                            match target {
                                Dimension::Volume => match spec_positive(ingredient.density) {
                                    Some(d) => lemma_div_is_exact(gv, d),
                                    None => {},
                                },
                                Dimension::Count => match spec_positive(ingredient.unit_weight) {
                                    Some(w) => lemma_div_is_exact(gv, w),
                                    None => {},
                                },
                                _ => {},
                            }
                        }
                    },
                    None => {},
                }
            },
            None => {},
        }
    }
}

/// An amount of everyday size: numerator and denominator below 2^32.
pub open spec fn everyday(r: Rational) -> bool {
    &&& r.in_range()
    &&& abs(r.num()) < 0x1_0000_0000
    &&& 0 < r.den() < 0x1_0000_0000
}

/// Between dimensions that the coefficients bridge, an everyday amount
/// always converts: a refusal means a missing coefficient, not an unlucky
/// amount.
pub proof fn law_a_bridge_always_converts(
    ingredient: Ingredient,
    quantity: Quantity,
    target: Dimension,
)
    requires
        ingredient.spec_can_convert(quantity.spec_dimension(), target),
        everyday(quantity.value),
        ingredient.density matches Some(d) ==> everyday(d),
        ingredient.unit_weight matches Some(w) ==> everyday(w),
    ensures
        ingredient.spec_convert(quantity, target) is Some,
{
    let v = quantity.value;
    lemma_factor_size(quantity.unit);
    lemma_ratio(1, 1);
    let f = quantity.unit.spec_base_factor()->0;
    lemma_bound_product(abs(v.num()) as int, f.num(), 0x1_0000_0000, 0x2000_0000);
    lemma_bound_product(v.den(), f.den(), 0x1_0000_0000, 0x2000_0000);
    lemma_mul_small(v, f);
    let base = v.spec_mul(f)->0;
    assert(v.spec_mul(f) is Some);
    assert(base.den() < 0x2000_0000_0000_0000);
    assert(abs(base.num()) < 0x2000_0000_0000_0000);
    lemma_in_range(base);
    if quantity.spec_dimension() == target {
        let u = target.spec_base_unit()->0;
        if quantity.unit != u {
            let t = ratio(1, 1);
            assert(abs(t.num()) == 1);
            assert(base.den() * abs(t.num()) == base.den());
            lemma_div_small(base, t);
        }
    } else {
        let g = match quantity.spec_dimension() {
            Dimension::Mass => base,
            Dimension::Volume => {
                let d = ingredient.density->0;
                lemma_bound_product(abs(base.num()) as int, abs(d.num()) as int, 0x2000_0000_0000_0000, 0x1_0000_0000);
                lemma_bound_product(base.den(), d.den(), 0x2000_0000_0000_0000, 0x1_0000_0000);
                lemma_mul_small(base, d);
                base.spec_mul(d)->0
            },
            _ => {
                let w = ingredient.unit_weight->0;
                lemma_bound_product(abs(base.num()) as int, abs(w.num()) as int, 0x2000_0000_0000_0000, 0x1_0000_0000);
                lemma_bound_product(base.den(), w.den(), 0x2000_0000_0000_0000, 0x1_0000_0000);
                lemma_mul_small(base, w);
                base.spec_mul(w)->0
            },
        };
        assert(ingredient.spec_to_grams(quantity) == Some(g));
        lemma_in_range(g);
        assert(abs(g.num()) < 0x2000_0000_0000_0000_0000_0000 && 0 < g.den() < 0x2000_0000_0000_0000_0000_0000);
        match target {
            Dimension::Volume => {
                let d = ingredient.density->0;
                lemma_bound_product(abs(g.num()) as int, d.den(), 0x2000_0000_0000_0000_0000_0000, 0x1_0000_0000);
                lemma_bound_product(g.den(), abs(d.num()) as int, 0x2000_0000_0000_0000_0000_0000, 0x1_0000_0000);
                lemma_div_small(g, d);
            },
            Dimension::Count => {
                let w = ingredient.unit_weight->0;
                lemma_bound_product(abs(g.num()) as int, w.den(), 0x2000_0000_0000_0000_0000_0000, 0x1_0000_0000);
                lemma_bound_product(g.den(), abs(w.num()) as int, 0x2000_0000_0000_0000_0000_0000, 0x1_0000_0000);
                lemma_div_small(g, w);
            },
            _ => {},
        }
    }
}

/// `0 <= x < X` and `0 <= y < Y` give `x·y < X·Y`.
proof fn lemma_bound_product(x: int, y: int, xx: int, yy: int)
    requires
        0 <= x < xx,
        0 <= y < yy,
    ensures
        0 <= x * y < xx * yy,
        x * y <= xx * yy,
{
    assert(0 <= x * y < xx * yy) by (nonlinear_arith)
        requires
            0 <= x < xx,
            0 <= y < yy,
    ;
}

/// A coefficient that is zero or negative counts as none: volume and mass
/// are not bridged without a positive density, nor count and mass without a
/// positive unit weight, and across dimensions that are not bridged nothing
/// converts.
pub proof fn law_a_non_positive_coefficient_is_none(
    ingredient: Ingredient,
    quantity: Quantity,
    target: Dimension,
)
    ensures
        spec_positive(ingredient.density) is None ==> !ingredient.spec_can_convert(
            Dimension::Volume,
            Dimension::Mass,
        ) && !ingredient.spec_can_convert(Dimension::Mass, Dimension::Volume),
        spec_positive(ingredient.unit_weight) is None ==> !ingredient.spec_can_convert(
            Dimension::Count,
            Dimension::Mass,
        ) && !ingredient.spec_can_convert(Dimension::Mass, Dimension::Count),
        !ingredient.spec_can_convert(quantity.spec_dimension(), target) ==> ingredient.spec_convert(
            quantity,
            target,
        ) is None,
        ingredient.spec_can_convert(quantity.spec_dimension(), quantity.spec_dimension())
            == (quantity.spec_dimension() != Dimension::Unmeasured),
{
}

/// The index of the first candidate that `text` denotes.
pub open spec fn first_match(candidates: Seq<Ingredient>, text: Seq<char>, i: int) -> bool {
    &&& 0 <= i < candidates.len()
    &&& candidates[i].spec_matches(text)
    &&& forall|j: int| 0 <= j < i ==> !(#[trigger] candidates[j]).spec_matches(text)
}

/// Resolves free text to a canonical ingredient, by name or by alias.
///
/// Deliberately stops at "not found" rather than creating one: minting an
/// ingredient is a write, and deciding whether an unknown word becomes a new
/// ingredient or a prompt is the caller's business.
pub fn resolve<'a>(candidates: &'a [Ingredient], text: &str) -> (r: Option<&'a Ingredient>)
    ensures
        r is None <==> forall|j: int|
            0 <= j < candidates@.len() ==> !(#[trigger] candidates@[j]).spec_matches(text@),
        r matches Some(x) ==> exists|i: int| first_match(candidates@, text@, i) && *x == candidates@[i],
{
    let mut i: usize = 0;
    while i < candidates.len()
        invariant
            i <= candidates@.len(),
            forall|j: int| 0 <= j < i ==> !(#[trigger] candidates@[j]).spec_matches(text@),
        decreases candidates@.len() - i,
    {
        if candidates[i].matches(text) {
            assert(first_match(candidates@, text@, i as int));
            return Some(&candidates[i]);
        }
        i = i + 1;
    }
    None
}

} // verus!
