//! A magnitude paired with a unit, and the arithmetic allowed on it.

use vstd::prelude::*;

use crate::rational::{
    from_int, lemma_div_small, lemma_from_int, lemma_in_range, lemma_make_denotes, lemma_make_range,
    lemma_make_reduced, lemma_make_same, lemma_mul_exact, lemma_mul_whole, lemma_ratio,
    lemma_ratio_whole, make, reduced, Rational, BOUND,
};
use crate::units::{
    convert, law_grams_to_kilograms_and_back, spec_convert, Dimension, MassUnit, Unit, VolumeUnit,
};

verus! {

/// An amount of something: `200 g`, `1/3 cup`, `3 pieces`, `to taste`.
///
/// The value of a [`Unit::ToTaste`] quantity is meaningless and ignored by
/// every operation here.
#[derive(Debug, Clone, Copy, PartialEq, Eq, Hash, Structural)]
pub struct Quantity {
    pub value: Rational,
    pub unit: Unit,
}

impl Quantity {
    pub open spec fn spec_dimension(self) -> Dimension {
        self.unit.spec_dimension()
    }

    /// The magnitude in the dimension's base unit; `None` for unmeasured
    /// quantities, or when it is out of range.
    pub open spec fn spec_in_base(self) -> Option<Rational> {
        match self.unit.spec_base_factor() {
            Some(f) => self.value.spec_mul(f),
            None => None,
        }
    }

    /// The base amount as a plain fraction, numerator first: the magnitude
    /// times the size of the unit in the base unit of its dimension.
    pub open spec fn base_parts(self) -> (int, int) {
        let f = self.unit.spec_base_factor()->0;
        (self.value.num() * f.num(), self.value.den() * f.den())
    }

    pub open spec fn spec_convert_to(self, unit: Unit) -> Option<Quantity> {
        match spec_convert(self.value, self.unit, unit) {
            Some(v) => Some(Quantity { value: v, unit }),
            None => None,
        }
    }

    /// The magnitude multiplied by `factor`, unmeasured quantities untouched;
    /// `None` only when the product is out of range.
    pub open spec fn spec_scaled(self, factor: Rational) -> Option<Quantity> {
        if self.spec_dimension() == Dimension::Unmeasured {
            Some(self)
        } else {
            match self.value.spec_mul(factor) {
                Some(v) => Some(Quantity { value: v, unit: self.unit }),
                None => None,
            }
        }
    }

    /// `self + other` expressed in `self`'s unit.
    pub open spec fn spec_try_add(self, other: Quantity) -> Option<Quantity> {
        if self.spec_dimension() == Dimension::Unmeasured {
            if self.unit == other.unit {
                match self.value.spec_add(other.value) {
                    Some(v) => Some(Quantity { value: v, unit: self.unit }),
                    None => None,
                }
            } else {
                None
            }
        } else {
            match other.spec_convert_to(self.unit) {
                Some(c) => match self.value.spec_add(c.value) {
                    Some(v) => Some(Quantity { value: v, unit: self.unit }),
                    None => None,
                },
                None => None,
            }
        }
    }

    pub open spec fn spec_ceil_to_whole(self) -> Quantity {
        Quantity { value: self.value.spec_ceil(), unit: self.unit }
    }

    /// The metric unit a person would read `self` in, given its base amount.
    pub open spec fn humane_unit(self, base: Rational) -> Unit {
        match self.unit {
            Unit::Mass(MassUnit::Milligram)
            | Unit::Mass(MassUnit::Gram)
            | Unit::Mass(MassUnit::Kilogram) => if !base.spec_lt(from_int(1000)) {
                Unit::Mass(MassUnit::Kilogram)
            } else if base.spec_lt(from_int(1)) {
                Unit::Mass(MassUnit::Milligram)
            } else {
                Unit::Mass(MassUnit::Gram)
            },
            Unit::Volume(VolumeUnit::Milliliter)
            | Unit::Volume(VolumeUnit::Centiliter)
            | Unit::Volume(VolumeUnit::Deciliter)
            | Unit::Volume(VolumeUnit::Liter) => if !base.spec_lt(from_int(1000)) {
                Unit::Volume(VolumeUnit::Liter)
            } else {
                Unit::Volume(VolumeUnit::Milliliter)
            },
            other => other,
        }
    }

    pub open spec fn spec_humanized(self) -> Quantity {
        match self.spec_in_base() {
            None => self,
            Some(base) => if base.num() == 0 {
                self
            } else {
                match self.spec_convert_to(self.humane_unit(base)) {
                    Some(q) => q,
                    None => self,
                }
            },
        }
    }

    pub fn new(value: Rational, unit: Unit) -> (q: Quantity)
        ensures
            q == (Quantity { value, unit }),
    {
        Quantity { value, unit }
    }

    /// Convenience for whole amounts: `Quantity::whole(200, Unit::Mass(Gram))`.
    pub fn whole(value: i128, unit: Unit) -> (q: Quantity)
        requires
            -BOUND <= value <= BOUND,
        ensures
            q == (Quantity { value: from_int(value as int), unit }),
    {
        Quantity { value: Rational::from_integer(value), unit }
    }

    pub fn to_taste() -> (q: Quantity)
        ensures
            q == (Quantity { value: from_int(1), unit: Unit::ToTaste }),
    {
        Quantity { value: Rational::from_integer(1), unit: Unit::ToTaste }
    }

    pub fn dimension(&self) -> (d: Dimension)
        ensures
            d == self.spec_dimension(),
    {
        self.unit.dimension()
    }

    /// The magnitude expressed in the dimension's base unit (g, ml, piece).
    /// `None` for unmeasured quantities.
    pub fn in_base(&self) -> (r: Option<Rational>)
        ensures
            r == self.spec_in_base(),
            self.spec_dimension() == Dimension::Unmeasured ==> r is None,
    {
        match self.unit.base_factor() {
            Some(f) => self.value.checked_mul(&f),
            None => None,
        }
    }

    /// Same dimension only; see [`convert`].
    pub fn convert_to(&self, unit: Unit) -> (r: Option<Quantity>)
        ensures
            r == self.spec_convert_to(unit),
    {
        match convert(self.value, self.unit, unit) {
            Some(v) => Some(Quantity { value: v, unit }),
            None => None,
        }
    }

    /// [`Quantity::scaled`], answering `None` when the product is out of range.
    pub fn checked_scaled(&self, factor: Rational) -> (r: Option<Quantity>)
        ensures
            r == self.spec_scaled(factor),
    {
        if self.dimension() == Dimension::Unmeasured {
            return Some(*self);
        }
        match self.value.checked_mul(&factor) {
            Some(v) => Some(Quantity { value: v, unit: self.unit }),
            None => None,
        }
    }

    /// Multiplies the magnitude. Unmeasured quantities are returned unchanged:
    /// doubling a recipe does not make "to taste" twice as much, and it does
    /// not make a pinch 2.5 pinches either — the cook rounds, not the model.
    pub fn scaled(&self, factor: Rational) -> (q: Quantity)
        requires
            self.spec_scaled(factor) is Some,
        ensures
            q == self.spec_scaled(factor)->0,
    {
        match self.checked_scaled(factor) {
            Some(q) => q,
            None => *self,
        }
    }

    /// Adds `other`, expressing the result in `self`'s unit.
    ///
    /// `None` unless both sides share a dimension, and — for unmeasured
    /// quantities — the very same unit: two pinches plus one pinch is three
    /// pinches, but a pinch plus "to taste" is two separate lines.
    pub fn try_add(&self, other: &Quantity) -> (r: Option<Quantity>)
        ensures
            r == self.spec_try_add(*other),
            self.spec_dimension() != other.spec_dimension() ==> r is None,
            self.spec_dimension() == Dimension::Unmeasured && self.unit != other.unit ==> r is None,
    {
        if self.dimension() == Dimension::Unmeasured {
            if self.unit == other.unit {
                return match self.value.checked_add(&other.value) {
                    Some(v) => Some(Quantity { value: v, unit: self.unit }),
                    None => None,
                };
            }
            return None;
        }
        match other.convert_to(self.unit) {
            Some(c) => match self.value.checked_add(&c.value) {
                Some(v) => Some(Quantity { value: v, unit: self.unit }),
                None => None,
            },
            None => None,
        }
    }

    /// Rounds up to a whole number of units — what a cart does to a countable
    /// line, because scaling a recipe by 3/2 asks for 1.5 eggs and the shop
    /// sells 2. The recipe itself keeps the exact value.
    pub fn ceil_to_whole(&self) -> (q: Quantity)
        ensures
            q == self.spec_ceil_to_whole(),
    {
        Quantity { value: self.value.ceil(), unit: self.unit }
    }

    /// Re-expresses the quantity in the unit a human would read it in, without
    /// changing what it denotes: 1500 g becomes 1.5 kg, 0.5 g becomes 500 mg,
    /// 2000 ml becomes 2 L.
    ///
    /// Only ever moves within the metric ladder — a quantity entered in cups
    /// or ounces stays there, because rewriting a cook's own unit is not this
    /// function's business.
    pub fn humanized(&self) -> (q: Quantity)
        ensures
            q == self.spec_humanized(),
    {
        let base = match self.in_base() {
            Some(b) => b,
            None => return *self,
        };
        if base.is_zero() {
            return *self;
        }
        let target = match self.unit {
            Unit::Mass(MassUnit::Milligram)
            | Unit::Mass(MassUnit::Gram)
            | Unit::Mass(MassUnit::Kilogram) => {
                if !base.lt_whole(1000) {
                    Unit::Mass(MassUnit::Kilogram)
                } else if base.lt_whole(1) {
                    Unit::Mass(MassUnit::Milligram)
                } else {
                    Unit::Mass(MassUnit::Gram)
                }
            },
            Unit::Volume(VolumeUnit::Milliliter)
            | Unit::Volume(VolumeUnit::Centiliter)
            | Unit::Volume(VolumeUnit::Deciliter)
            | Unit::Volume(VolumeUnit::Liter) => {
                if !base.lt_whole(1000) {
                    Unit::Volume(VolumeUnit::Liter)
                } else {
                    Unit::Volume(VolumeUnit::Milliliter)
                }
            },
            other => other,
        };
        match self.convert_to(target) {
            Some(q) => q,
            None => *self,
        }
    }
}

/// Scaling a quantity in lowest terms by a factor in lowest terms fails only
/// when the exact product, reduced, is past what 128-bit integers hold.
pub proof fn law_scaling_fails_only_out_of_range(q: Quantity, f: Rational)
    requires
        q.value.in_range(),
        reduced(q.value),
        f.in_range(),
        reduced(f),
    ensures
        q.spec_scaled(f) is None <==> (q.spec_dimension() != Dimension::Unmeasured && make(
            q.value.num() * f.num(),
            q.value.den() * f.den(),
        ) is None),
{
    lemma_mul_exact(q.value, f);
}

/// Scaling by a factor and then by its reciprocal gives back the very
/// quantity, exactly: 200 g times 3/2 is 300 g, and times 2/3 is 200 g again.
pub proof fn law_scaling_is_reversible(q: Quantity, f: Rational, g: Rational)
    requires
        q.value.in_range(),
        reduced(q.value),
        f.in_range(),
        reduced(f),
        g.in_range(),
        reduced(g),
        f.num() * g.num() == f.den() * g.den(),
        q.spec_scaled(f) is Some,
    ensures
        (q.spec_scaled(f)->0).spec_scaled(g) == Some(q),
{
    if q.spec_dimension() != Dimension::Unmeasured {
        let v = q.value;
        lemma_in_range(v);
        lemma_in_range(f);
        lemma_in_range(g);
        lemma_mul_exact(v, f);
        assert(v.den() * f.den() > 0) by (nonlinear_arith)
            requires
                v.den() > 0,
                f.den() > 0,
        ;
        let x = v.spec_mul(f)->0;
        lemma_make_denotes(v.num() * f.num(), v.den() * f.den());
        lemma_make_reduced(v.num() * f.num(), v.den() * f.den());
        lemma_make_range(v.num() * f.num(), v.den() * f.den());
        lemma_in_range(x);
        lemma_mul_exact(x, g);
        let (xn, xd, n, d, fa, fb, ga, gb) = (
            x.num(),
            x.den(),
            v.num(),
            v.den(),
            f.num(),
            f.den(),
            g.num(),
            g.den(),
        );
        assert(xn * (d * fb) == (n * fa) * xd);
        assert((xn * ga) * d * fb == (xn * (d * fb)) * ga) by (nonlinear_arith);
        assert(((n * fa) * xd) * ga == (n * xd) * (fa * ga)) by (nonlinear_arith);
        assert((n * xd) * (fa * ga) == (n * xd) * (fb * gb)) by (nonlinear_arith)
            requires
                fa * ga == fb * gb,
        ;
        assert((n * xd) * (fb * gb) == n * (xd * gb) * fb) by (nonlinear_arith);
        assert((xn * ga) * d * fb == n * (xd * gb) * fb);
        assert((xn * ga) * d == n * (xd * gb)) by (nonlinear_arith)
            requires
                (xn * ga) * d * fb == n * (xd * gb) * fb,
                fb > 0,
        ;
        assert(x.den() * g.den() > 0) by (nonlinear_arith)
            requires
                x.den() > 0,
                g.den() > 0,
        ;
        lemma_make_same(x.num() * g.num(), x.den() * g.den(), v.num(), v.den());
    }
}

/// A quantity in grams converts to kilograms, and back to the very same
/// quantity: the kilogram is exactly a thousand grams.
pub proof fn law_grams_to_kilograms_round_trip(q: Quantity)
    requires
        q.unit == Unit::Mass(MassUnit::Gram),
        q.value.in_range(),
        reduced(q.value),
        q.value.den() * 1000 <= BOUND,
    ensures
        q.spec_convert_to(Unit::Mass(MassUnit::Kilogram)) is Some,
        (q.spec_convert_to(Unit::Mass(MassUnit::Kilogram))->0).spec_convert_to(
            Unit::Mass(MassUnit::Gram),
        ) == Some(q),
{
    let v = q.value;
    lemma_in_range(v);
    lemma_ratio(1, 1);
    lemma_ratio(1000, 1);
    lemma_ratio_whole(1);
    lemma_ratio_whole(1000);
    lemma_mul_whole(v, 1);
    assert(v.num() * 1 == v.num());
    assert(v.spec_mul(from_int(1)) == Some(v));
    lemma_from_int(1000);
    lemma_div_small(v, from_int(1000));
    law_grams_to_kilograms_and_back(v);
}

} // verus!
