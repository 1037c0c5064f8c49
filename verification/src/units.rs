//! Dimensions, units and exact conversion.
//!
//! Three measurable dimensions convert internally through a canonical base
//! unit (gram, millilitre, piece); a fourth, [`Dimension::Unmeasured`], has no
//! base at all and only ever merges with a unit identical to itself.
//!
//! Every factor is an exact rational. The imperial ones are exact decimals by
//! definition — one ounce is 28.349523125 g — which is why they can be written
//! as ratios. Locale variants are carried from the start: a French tablespoon
//! is 15 ml and a US one 14.79.

use vstd::prelude::*;

use crate::rational::{
    exact_div, exact_mul, gcd, lemma_div_is_exact, lemma_mul_is_exact, lemma_ratio_reduced,
    from_int, lemma_div_by_whole, lemma_from_int, lemma_in_range, lemma_make_denotes,
    lemma_make_range, lemma_make_reduced, lemma_make_same, lemma_make_small, lemma_mul_exact,
    lemma_mul_whole, lemma_ratio, lemma_ratio_whole, lemma_spec_ops, lemma_whole_reduced, make, ratio, reduced, Rational,
    denotes, lemma_arith_denotes, lemma_same_ratio_mul, lemma_same_ratio_trans, same_ratio,
};

verus! {

/// What a quantity measures. Quantities only ever sum within one dimension;
/// crossing between them requires the ingredient's own coefficient.
#[derive(Debug, Clone, Copy, PartialEq, Eq, PartialOrd, Ord, Hash, Structural)]
pub enum Dimension {
    /// Countable pieces: 3 tomatoes, 2 eggs.
    Count,
    Mass,
    Volume,
    /// "To taste", "a pinch" — no meaningful magnitude to convert.
    Unmeasured,
}

/// Dimensions a cart line prefers to be expressed in, most preferred first:
/// count (you pick up items), then mass (shops have scales), then volume.
/// [`Dimension::Unmeasured`] is absent on purpose; it never merges.
pub const MERGE_PREFERENCE: [Dimension; 3] = [Dimension::Count, Dimension::Mass, Dimension::Volume];

impl Dimension {
    pub open spec fn spec_base_unit(self) -> Option<Unit> {
        match self {
            Dimension::Count => Some(Unit::Piece),
            Dimension::Mass => Some(Unit::Mass(MassUnit::Gram)),
            Dimension::Volume => Some(Unit::Volume(VolumeUnit::Milliliter)),
            Dimension::Unmeasured => None,
        }
    }

    /// The unit every quantity of this dimension is normalised to before
    /// summing. `None` for [`Dimension::Unmeasured`].
    pub fn base_unit(self) -> (u: Option<Unit>)
        ensures
            u == self.spec_base_unit(),
    {
        match self {
            Dimension::Count => Some(Unit::Piece),
            Dimension::Mass => Some(Unit::Mass(MassUnit::Gram)),
            Dimension::Volume => Some(Unit::Volume(VolumeUnit::Milliliter)),
            Dimension::Unmeasured => None,
        }
    }

    /// Whether quantities of this dimension can be added at all.
    pub fn is_measurable(self) -> (b: bool)
        ensures
            b == (self != Dimension::Unmeasured),
            b == self.spec_base_unit() is Some,
    {
        self.base_unit().is_some()
    }
}

#[derive(Debug, Clone, Copy, PartialEq, Eq, PartialOrd, Ord, Hash, Structural)]
pub enum MassUnit {
    Milligram,
    Gram,
    Kilogram,
    Ounce,
    Pound,
}

impl MassUnit {
    /// Grams per unit, in lowest terms.
    pub open spec fn spec_grams(self) -> Rational {
        match self {
            MassUnit::Milligram => ratio(1, 1000),
            MassUnit::Gram => ratio(1, 1),
            MassUnit::Kilogram => ratio(1000, 1),
            MassUnit::Ounce => ratio(45_359_237, 1_600_000),
            MassUnit::Pound => ratio(45_359_237, 100_000),
        }
    }

    /// Every factor is a positive value within the bounds.
    pub proof fn lemma_grams(self)
        ensures
            self.spec_grams().in_range(),
            self.spec_grams().num() > 0,
            self.spec_grams().den() > 0,
    {
        match self {
            MassUnit::Milligram => lemma_ratio(1, 1000),
            MassUnit::Gram => lemma_ratio(1, 1),
            MassUnit::Kilogram => lemma_ratio(1000, 1),
            MassUnit::Ounce => lemma_ratio(45_359_237, 1_600_000),
            MassUnit::Pound => lemma_ratio(45_359_237, 100_000),
        }
    }

    /// Grams per unit, exact: 28.349523125 g to the ounce and 453.59237 g to
    /// the pound, by international definition.
    pub fn grams(self) -> (r: Rational)
        ensures
            r == self.spec_grams(),
            r.num() > 0,
    {
        match self {
            MassUnit::Milligram => Rational::lit(1, 1000),
            MassUnit::Gram => Rational::lit(1, 1),
            MassUnit::Kilogram => Rational::lit(1000, 1),
            MassUnit::Ounce => Rational::lit(45_359_237, 1_600_000),
            MassUnit::Pound => Rational::lit(45_359_237, 100_000),
        }
    }
}

#[derive(Debug, Clone, Copy, PartialEq, Eq, PartialOrd, Ord, Hash, Structural)]
pub enum VolumeUnit {
    Milliliter,
    Centiliter,
    Deciliter,
    Liter,
    /// French teaspoon — 5 ml by convention.
    TeaspoonFr,
    /// French tablespoon — 15 ml by convention.
    TablespoonFr,
    /// Metric cup — 250 ml.
    CupMetric,
    /// US teaspoon — 4.92892159375 ml.
    TeaspoonUs,
    /// US tablespoon — 14.78676478125 ml.
    TablespoonUs,
    /// US legal cup as used in recipes — 236.5882365 ml.
    CupUs,
    /// US fluid ounce — 29.5735295625 ml.
    FluidOunceUs,
}

impl VolumeUnit {
    /// Millilitres per unit, in lowest terms.
    pub open spec fn spec_milliliters(self) -> Rational {
        match self {
            VolumeUnit::Milliliter => ratio(1, 1),
            VolumeUnit::Centiliter => ratio(10, 1),
            VolumeUnit::Deciliter => ratio(100, 1),
            VolumeUnit::Liter => ratio(1000, 1),
            VolumeUnit::TeaspoonFr => ratio(5, 1),
            VolumeUnit::TablespoonFr => ratio(15, 1),
            VolumeUnit::CupMetric => ratio(250, 1),
            VolumeUnit::TeaspoonUs => ratio(157_725_491, 32_000_000),
            VolumeUnit::TablespoonUs => ratio(473_176_473, 32_000_000),
            VolumeUnit::CupUs => ratio(473_176_473, 2_000_000),
            VolumeUnit::FluidOunceUs => ratio(473_176_473, 16_000_000),
        }
    }

    /// Millilitres per unit, exact.
    pub fn milliliters(self) -> (r: Rational)
        ensures
            r == self.spec_milliliters(),
            r.num() > 0,
    {
        match self {
            VolumeUnit::Milliliter => Rational::lit(1, 1),
            VolumeUnit::Centiliter => Rational::lit(10, 1),
            VolumeUnit::Deciliter => Rational::lit(100, 1),
            VolumeUnit::Liter => Rational::lit(1000, 1),
            VolumeUnit::TeaspoonFr => Rational::lit(5, 1),
            VolumeUnit::TablespoonFr => Rational::lit(15, 1),
            VolumeUnit::CupMetric => Rational::lit(250, 1),
            VolumeUnit::TeaspoonUs => Rational::lit(157_725_491, 32_000_000),
            VolumeUnit::TablespoonUs => Rational::lit(473_176_473, 32_000_000),
            VolumeUnit::CupUs => Rational::lit(473_176_473, 2_000_000),
            VolumeUnit::FluidOunceUs => Rational::lit(473_176_473, 16_000_000),
        }
    }
}

/// A unit a quantity can be expressed in.
#[derive(Debug, Clone, Copy, PartialEq, Eq, PartialOrd, Ord, Hash, Structural)]
pub enum Unit {
    Mass(MassUnit),
    Volume(VolumeUnit),
    /// Countable pieces.
    Piece,
    /// A pinch. Unmeasured: it keeps a count so an instruction can read "2
    /// pinches of salt", but it never converts to a volume.
    Pinch,
    /// "To taste". The numeric value is meaningless and ignored.
    ToTaste,
}

impl Unit {
    pub open spec fn spec_dimension(self) -> Dimension {
        match self {
            Unit::Mass(_) => Dimension::Mass,
            Unit::Volume(_) => Dimension::Volume,
            Unit::Piece => Dimension::Count,
            Unit::Pinch | Unit::ToTaste => Dimension::Unmeasured,
        }
    }

    pub fn dimension(self) -> (d: Dimension)
        ensures
            d == self.spec_dimension(),
    {
        match self {
            Unit::Mass(_) => Dimension::Mass,
            Unit::Volume(_) => Dimension::Volume,
            Unit::Piece => Dimension::Count,
            Unit::Pinch | Unit::ToTaste => Dimension::Unmeasured,
        }
    }

    pub open spec fn spec_base_factor(self) -> Option<Rational> {
        match self {
            Unit::Mass(m) => Some(m.spec_grams()),
            Unit::Volume(v) => Some(v.spec_milliliters()),
            Unit::Piece => Some(ratio(1, 1)),
            Unit::Pinch | Unit::ToTaste => None,
        }
    }

    /// How many base units of its dimension one of this unit is worth.
    /// `None` for unmeasured units.
    pub fn base_factor(self) -> (f: Option<Rational>)
        ensures
            f == self.spec_base_factor(),
            f is Some <==> self.spec_dimension() != Dimension::Unmeasured,
            f matches Some(x) ==> x.num() > 0,
    {
        match self {
            Unit::Mass(m) => Some(m.grams()),
            Unit::Volume(v) => Some(v.milliliters()),
            Unit::Piece => Some(Rational::lit(1, 1)),
            Unit::Pinch | Unit::ToTaste => None,
        }
    }
}

/// `value` re-expressed from `from` into `to`: the identity when the units are
/// the same, `None` across dimensions or without a factor, and otherwise
/// `value × factor(from) ÷ factor(to)` — `None` again if that leaves the
/// representable range.
pub open spec fn spec_convert(value: Rational, from: Unit, to: Unit) -> Option<Rational> {
    if from == to {
        Some(value)
    } else if from.spec_dimension() != to.spec_dimension() {
        None
    } else {
        match (from.spec_base_factor(), to.spec_base_factor()) {
            (Some(f), Some(t)) => match value.spec_mul(f) {
                Some(x) => x.spec_div(t),
                None => None,
            },
            _ => None,
        }
    }
}

/// Converts `value` from one unit to another **within a single dimension**.
///
/// Returns `None` across dimensions and for unmeasured units — deliberately,
/// so a caller has to reach for the ingredient's own coefficients rather than
/// get a silently wrong number.
pub fn convert(value: Rational, from: Unit, to: Unit) -> (r: Option<Rational>)
    ensures
        r == spec_convert(value, from, to),
{
    if from == to {
        return Some(value);
    }
    if from.dimension() != to.dimension() {
        return None;
    }
    let f = match from.base_factor() {
        Some(f) => f,
        None => return None,
    };
    let t = match to.base_factor() {
        Some(t) => t,
        None => return None,
    };
    match value.checked_mul(&f) {
        Some(x) => x.checked_div(&t),
        None => None,
    }
}

/// `value` re-expressed from `from` into `to` with exact arithmetic: the
/// identity for the same unit, `None` across dimensions or without a
/// factor, and otherwise the exact `value × factor(from) ÷ factor(to)`,
/// each step reduced and `None` past the bounds.
pub open spec fn exact_convert(value: Rational, from: Unit, to: Unit) -> Option<Rational> {
    if from == to {
        Some(value)
    } else if from.spec_dimension() != to.spec_dimension() {
        None
    } else {
        match (from.spec_base_factor(), to.spec_base_factor()) {
            (Some(f), Some(t)) => match exact_mul(value, f) {
                Some(x) => exact_div(x, t),
                None => None,
            },
            _ => None,
        }
    }
}

/// Every unit's factor is in lowest terms.
pub proof fn lemma_factor_reduced(u: Unit)
    ensures
        u.spec_base_factor() matches Some(f) ==> reduced(f) && f.in_range(),
{
    match u {
        Unit::Mass(m) => match m {
            MassUnit::Milligram => {
                assert(gcd(1, 1000) == 1) by {
                    reveal_with_fuel(gcd, 40);
                }
                lemma_ratio_reduced(1, 1000);
            },
            MassUnit::Gram => {
                assert(gcd(1, 1) == 1) by {
                    reveal_with_fuel(gcd, 40);
                }
                lemma_ratio_reduced(1, 1);
            },
            MassUnit::Kilogram => {
                assert(gcd(1000, 1) == 1) by {
                    reveal_with_fuel(gcd, 40);
                }
                lemma_ratio_reduced(1000, 1);
            },
            MassUnit::Ounce => {
                assert(gcd(45_359_237, 1_600_000) == 1) by {
                    reveal_with_fuel(gcd, 2);
                    assert(gcd(8, 1) == 1);
                    assert(gcd(49, 8) == 1);
                    assert(gcd(106, 49) == 1);
                    assert(gcd(261, 106) == 1);
                    assert(gcd(1150, 261) == 1);
                    assert(gcd(1411, 1150) == 1);
                    assert(gcd(15260, 1411) == 1);
                    assert(gcd(77711, 15260) == 1);
                    assert(gcd(481526, 77711) == 1);
                    assert(gcd(559237, 481526) == 1);
                    assert(gcd(1600000, 559237) == 1);
                    assert(gcd(45359237, 1600000) == 1);
                }
                lemma_ratio_reduced(45_359_237, 1_600_000);
            },
            MassUnit::Pound => {
                assert(gcd(45_359_237, 100_000) == 1) by {
                    reveal_with_fuel(gcd, 2);
                    assert(gcd(26, 1) == 1);
                    assert(gcd(183, 26) == 1);
                    assert(gcd(209, 183) == 1);
                    assert(gcd(601, 209) == 1);
                    assert(gcd(3214, 601) == 1);
                    assert(gcd(3815, 3214) == 1);
                    assert(gcd(18474, 3815) == 1);
                    assert(gcd(40763, 18474) == 1);
                    assert(gcd(59237, 40763) == 1);
                    assert(gcd(100000, 59237) == 1);
                    assert(gcd(45359237, 100000) == 1);
                }
                lemma_ratio_reduced(45_359_237, 100_000);
            },
        },
        Unit::Volume(v) => match v {
            VolumeUnit::Milliliter => {
                assert(gcd(1, 1) == 1) by {
                    reveal_with_fuel(gcd, 40);
                }
                lemma_ratio_reduced(1, 1);
            },
            VolumeUnit::Centiliter => {
                assert(gcd(10, 1) == 1) by {
                    reveal_with_fuel(gcd, 40);
                }
                lemma_ratio_reduced(10, 1);
            },
            VolumeUnit::Deciliter => {
                assert(gcd(100, 1) == 1) by {
                    reveal_with_fuel(gcd, 40);
                }
                lemma_ratio_reduced(100, 1);
            },
            VolumeUnit::Liter => {
                assert(gcd(1000, 1) == 1) by {
                    reveal_with_fuel(gcd, 40);
                }
                lemma_ratio_reduced(1000, 1);
            },
            VolumeUnit::TeaspoonFr => {
                assert(gcd(5, 1) == 1) by {
                    reveal_with_fuel(gcd, 40);
                }
                lemma_ratio_reduced(5, 1);
            },
            VolumeUnit::TablespoonFr => {
                assert(gcd(15, 1) == 1) by {
                    reveal_with_fuel(gcd, 40);
                }
                lemma_ratio_reduced(15, 1);
            },
            VolumeUnit::CupMetric => {
                assert(gcd(250, 1) == 1) by {
                    reveal_with_fuel(gcd, 40);
                }
                lemma_ratio_reduced(250, 1);
            },
            VolumeUnit::TeaspoonUs => {
                assert(gcd(157_725_491, 32_000_000) == 1) by {
                    reveal_with_fuel(gcd, 2);
                    assert(gcd(2, 1) == 1);
                    assert(gcd(3, 2) == 1);
                    assert(gcd(29, 3) == 1);
                    assert(gcd(90, 29) == 1);
                    assert(gcd(119, 90) == 1);
                    assert(gcd(209, 119) == 1);
                    assert(gcd(328, 209) == 1);
                    assert(gcd(78273, 328) == 1);
                    assert(gcd(156874, 78273) == 1);
                    assert(gcd(2274509, 156874) == 1);
                    assert(gcd(29725491, 2274509) == 1);
                    assert(gcd(32000000, 29725491) == 1);
                    assert(gcd(157725491, 32000000) == 1);
                }
                lemma_ratio_reduced(157_725_491, 32_000_000);
            },
            VolumeUnit::TablespoonUs => {
                assert(gcd(473_176_473, 32_000_000) == 1) by {
                    reveal_with_fuel(gcd, 2);
                    assert(gcd(2, 1) == 1);
                    assert(gcd(9, 2) == 1);
                    assert(gcd(29, 9) == 1);
                    assert(gcd(299, 29) == 1);
                    assert(gcd(328, 299) == 1);
                    assert(gcd(235147, 328) == 1);
                    assert(gcd(470622, 235147) == 1);
                    assert(gcd(2117635, 470622) == 1);
                    assert(gcd(4705892, 2117635) == 1);
                    assert(gcd(6823527, 4705892) == 1);
                    assert(gcd(25176473, 6823527) == 1);
                    assert(gcd(32000000, 25176473) == 1);
                    assert(gcd(473176473, 32000000) == 1);
                }
                lemma_ratio_reduced(473_176_473, 32_000_000);
            },
            VolumeUnit::CupUs => {
                assert(gcd(473_176_473, 2_000_000) == 1) by {
                    reveal_with_fuel(gcd, 2);
                    assert(gcd(5, 1) == 1);
                    assert(gcd(6, 5) == 1);
                    assert(gcd(41, 6) == 1);
                    assert(gcd(117635, 41) == 1);
                    assert(gcd(352946, 117635) == 1);
                    assert(gcd(823527, 352946) == 1);
                    assert(gcd(1176473, 823527) == 1);
                    assert(gcd(2000000, 1176473) == 1);
                    assert(gcd(473176473, 2000000) == 1);
                }
                lemma_ratio_reduced(473_176_473, 2_000_000);
            },
            VolumeUnit::FluidOunceUs => {
                assert(gcd(473_176_473, 16_000_000) == 1) by {
                    reveal_with_fuel(gcd, 2);
                    assert(gcd(9, 1) == 1);
                    assert(gcd(10, 9) == 1);
                    assert(gcd(19, 10) == 1);
                    assert(gcd(29, 19) == 1);
                    assert(gcd(135, 29) == 1);
                    assert(gcd(164, 135) == 1);
                    assert(gcd(235147, 164) == 1);
                    assert(gcd(235311, 235147) == 1);
                    assert(gcd(2117635, 235311) == 1);
                    assert(gcd(2352946, 2117635) == 1);
                    assert(gcd(6823527, 2352946) == 1);
                    assert(gcd(9176473, 6823527) == 1);
                    assert(gcd(16000000, 9176473) == 1);
                    assert(gcd(473176473, 16000000) == 1);
                }
                lemma_ratio_reduced(473_176_473, 16_000_000);
            },
        },
        Unit::Piece => {
            assert(gcd(1, 1) == 1) by {
                    reveal_with_fuel(gcd, 40);
                }
            lemma_ratio_reduced(1, 1);
        },
        _ => {},
    }
}

/// Converting a value in lowest terms is the exact conversion: it fails
/// only across dimensions, for a unit without a factor, or where an exact
/// intermediate is past what 128-bit integers hold; and what it gives is in
/// lowest terms.
pub proof fn lemma_convert_is_exact(value: Rational, from: Unit, to: Unit)
    requires
        value.in_range(),
        reduced(value),
    ensures
        spec_convert(value, from, to) == exact_convert(value, from, to),
        spec_convert(value, from, to) matches Some(r) ==> r.in_range() && reduced(r),
{
    lemma_factor_reduced(from);
    lemma_factor_reduced(to);
    lemma_factor_size(to);
    if from != to && from.spec_dimension() == to.spec_dimension() {
        match (from.spec_base_factor(), to.spec_base_factor()) {
            (Some(f), Some(t)) => {
                lemma_mul_is_exact(value, f);
                if exact_mul(value, f) is Some {
                    let x = exact_mul(value, f)->0;
                    lemma_in_range(t);
                    lemma_div_is_exact(x, t);
                }
            },
            _ => {},
        }
    }
}

/// Every unit's factor is a positive fraction of modest size, and a base
/// unit belongs to its own dimension.
pub proof fn lemma_factor_size(u: Unit)
    ensures
        u.spec_base_factor() matches Some(f) ==> f.in_range() && 0 < f.num() < 0x2000_0000 && 0
            < f.den() < 0x2000_0000,
        u.spec_base_factor() is Some <==> u.spec_dimension() != Dimension::Unmeasured,
        u.spec_dimension().spec_base_unit() matches Some(b) ==> b.spec_dimension()
            == u.spec_dimension() && b.spec_base_factor() == Some(ratio(1, 1)),
{
    lemma_ratio(1, 1000);
    lemma_ratio(1, 1);
    lemma_ratio(1000, 1);
    lemma_ratio(45_359_237, 1_600_000);
    lemma_ratio(45_359_237, 100_000);
    lemma_ratio(10, 1);
    lemma_ratio(100, 1);
    lemma_ratio(5, 1);
    lemma_ratio(15, 1);
    lemma_ratio(250, 1);
    lemma_ratio(157_725_491, 32_000_000);
    lemma_ratio(473_176_473, 32_000_000);
    lemma_ratio(473_176_473, 2_000_000);
    lemma_ratio(473_176_473, 16_000_000);
}

/// Grams converted to kilograms and back are the same amount: the kilogram
/// is exactly a thousand grams, so the round trip loses nothing. What comes
/// back is the amount in lowest terms, which is the very value for a value
/// already in lowest terms.
pub proof fn law_grams_to_kilograms_and_back(v: Rational)
    requires
        v.in_range(),
        spec_convert(v, Unit::Mass(MassUnit::Gram), Unit::Mass(MassUnit::Kilogram)) is Some,
    ensures
        spec_convert(
            spec_convert(v, Unit::Mass(MassUnit::Gram), Unit::Mass(MassUnit::Kilogram))->0,
            Unit::Mass(MassUnit::Kilogram),
            Unit::Mass(MassUnit::Gram),
        ) == make(v.num(), v.den()),
        make(v.num(), v.den()) is Some,
        reduced(v) ==> spec_convert(
            spec_convert(v, Unit::Mass(MassUnit::Gram), Unit::Mass(MassUnit::Kilogram))->0,
            Unit::Mass(MassUnit::Kilogram),
            Unit::Mass(MassUnit::Gram),
        ) == Some(v),
{
    let g = ratio(1, 1);
    let kg = ratio(1000, 1);
    lemma_ratio(1, 1);
    lemma_ratio(1000, 1);
    lemma_from_int(1);
    lemma_from_int(1000);
    lemma_ratio_whole(1);
    lemma_ratio_whole(1000);
    lemma_whole_reduced(1000);
    lemma_in_range(v);
    let n = v.num();
    let d = v.den();
    lemma_make_small(n, d);
    lemma_make_denotes(n, d);
    lemma_make_reduced(n, d);
    let a = make(n, d)->0;
    lemma_in_range(a);
    lemma_mul_whole(v, 1);
    assert(n * 1 == n);
    assert(v.spec_mul(g) == Some(a));
    let x = a.spec_div(kg)->0;
    lemma_spec_ops(a, kg);
    assert(a.spec_div(kg) == make(a.num() * 1, a.den() * 1000));
    lemma_make_denotes(a.num() * 1, a.den() * 1000);
    lemma_make_reduced(a.num() * 1, a.den() * 1000);
    lemma_make_range(a.num() * 1, a.den() * 1000);
    lemma_mul_exact(x, kg);
    assert(x.num() * 1000 * d == n * (x.den() * 1)) by (nonlinear_arith)
        requires
            x.num() * (a.den() * 1000) == (a.num() * 1) * x.den(),
            a.num() * d == n * a.den(),
            a.den() > 0,
    ;
    lemma_make_same(x.num() * 1000, x.den() * 1, n, d);
    assert(x.spec_mul(kg) == Some(a));
    lemma_div_by_whole(a, 1);
    assert(a.den() * 1 == a.den());
    assert(a.spec_div(g) == Some(a));
}

/// Converting into the base unit of the dimension multiplies by the unit's
/// factor, exactly: for a value in lowest terms the result is the product
/// reduced, or `None` when that leaves the bounds.
proof fn lemma_convert_to_base(v: Rational, u: Unit)
    requires
        v.in_range(),
        reduced(v),
        u.spec_dimension() != Dimension::Unmeasured,
    ensures
        u.spec_base_factor() is Some,
        spec_convert(v, u, u.spec_dimension().spec_base_unit()->0) == make(
            v.num() * (u.spec_base_factor()->0).num(),
            v.den() * (u.spec_base_factor()->0).den(),
        ),
{
    let b = u.spec_dimension().spec_base_unit()->0;
    lemma_factor_size(u);
    lemma_factor_reduced(u);
    lemma_ratio(1, 1);
    lemma_convert_is_exact(v, u, b);
    let f = u.spec_base_factor()->0;
    lemma_in_range(v);
    if u == b {
        assert(f == ratio(1, 1));
        assert(f.num() == 1 && f.den() == 1);
        assert(v.num() * 1 == v.num() && v.den() * 1 == v.den());
    } else {
        lemma_mul_is_exact(v, f);
        if exact_mul(v, f) is Some {
            let x = exact_mul(v, f)->0;
            assert(x.num() * 1 == x.num() && x.den() * 1 == x.den());
            assert(exact_div(x, ratio(1, 1)) == make(x.num(), x.den()));
        }
    }
}

/// The same number written with a factor `a / b` or `c / e` reduces alike.
proof fn lemma_rescale(n: int, d: int, a: int, b: int, c: int, e: int)
    requires
        d > 0,
        b > 0,
        e > 0,
        a * e == c * b,
    ensures
        make(n * a, d * b) == make(n * c, d * e),
{
    assert((n * a) * (d * e) == (n * c) * (d * b)) by (nonlinear_arith)
        requires
            a * e == c * b,
    ;
    assert(d * b > 0 && d * e > 0) by (nonlinear_arith)
        requires
            d > 0,
            b > 0,
            e > 0,
    ;
    lemma_make_same(n * a, d * b, n * c, d * e);
}

/// Every unit is its defined size in the base unit of its dimension:
/// converting any amount in lowest terms into grams or millilitres
/// multiplies it by that size, exactly — a milligram is a thousandth of a
/// gram, a kilogram a thousand grams, an ounce 28.349523125 g and a pound
/// 453.59237 g; a centilitre is 10 ml, a decilitre 100 ml, a litre 1000
/// ml, a French teaspoon 5 ml and tablespoon 15 ml, a metric cup 250 ml, a
/// US teaspoon 4.92892159375 ml, tablespoon 14.78676478125 ml, cup
/// 236.5882365 ml and fluid ounce 29.5735295625 ml. The result is `None`
/// only where that product leaves the bounds.
pub proof fn law_unit_sizes(v: Rational)
    requires
        v.in_range(),
        reduced(v),
    ensures
        spec_convert(v, Unit::Mass(MassUnit::Milligram), Unit::Mass(MassUnit::Gram)) == make(
            v.num(),
            v.den() * 1000,
        ),
        spec_convert(v, Unit::Mass(MassUnit::Gram), Unit::Mass(MassUnit::Gram)) == Some(v),
        spec_convert(v, Unit::Mass(MassUnit::Kilogram), Unit::Mass(MassUnit::Gram)) == make(
            v.num() * 1000,
            v.den(),
        ),
        spec_convert(v, Unit::Mass(MassUnit::Ounce), Unit::Mass(MassUnit::Gram)) == make(
            v.num() * 28_349_523_125,
            v.den() * 1_000_000_000,
        ),
        spec_convert(v, Unit::Mass(MassUnit::Pound), Unit::Mass(MassUnit::Gram)) == make(
            v.num() * 45_359_237,
            v.den() * 100_000,
        ),
        spec_convert(v, Unit::Volume(VolumeUnit::Milliliter), Unit::Volume(VolumeUnit::Milliliter))
            == Some(v),
        spec_convert(v, Unit::Volume(VolumeUnit::Centiliter), Unit::Volume(VolumeUnit::Milliliter))
            == make(v.num() * 10, v.den()),
        spec_convert(v, Unit::Volume(VolumeUnit::Deciliter), Unit::Volume(VolumeUnit::Milliliter))
            == make(v.num() * 100, v.den()),
        spec_convert(v, Unit::Volume(VolumeUnit::Liter), Unit::Volume(VolumeUnit::Milliliter))
            == make(v.num() * 1000, v.den()),
        spec_convert(v, Unit::Volume(VolumeUnit::TeaspoonFr), Unit::Volume(VolumeUnit::Milliliter))
            == make(v.num() * 5, v.den()),
        spec_convert(
            v,
            Unit::Volume(VolumeUnit::TablespoonFr),
            Unit::Volume(VolumeUnit::Milliliter),
        ) == make(v.num() * 15, v.den()),
        spec_convert(v, Unit::Volume(VolumeUnit::CupMetric), Unit::Volume(VolumeUnit::Milliliter))
            == make(v.num() * 250, v.den()),
        spec_convert(v, Unit::Volume(VolumeUnit::TeaspoonUs), Unit::Volume(VolumeUnit::Milliliter))
            == make(v.num() * 492_892_159_375, v.den() * 100_000_000_000),
        spec_convert(
            v,
            Unit::Volume(VolumeUnit::TablespoonUs),
            Unit::Volume(VolumeUnit::Milliliter),
        ) == make(v.num() * 1_478_676_478_125, v.den() * 100_000_000_000),
        spec_convert(v, Unit::Volume(VolumeUnit::CupUs), Unit::Volume(VolumeUnit::Milliliter))
            == make(v.num() * 2_365_882_365, v.den() * 10_000_000),
        spec_convert(
            v,
            Unit::Volume(VolumeUnit::FluidOunceUs),
            Unit::Volume(VolumeUnit::Milliliter),
        ) == make(v.num() * 295_735_295_625, v.den() * 10_000_000_000),
        spec_convert(v, Unit::Piece, Unit::Piece) == Some(v),
{
    lemma_in_range(v);
    let n = v.num();
    let d = v.den();
    lemma_ratio(1, 1000);
    lemma_ratio(1000, 1);
    lemma_ratio(45_359_237, 1_600_000);
    lemma_ratio(45_359_237, 100_000);
    lemma_ratio(10, 1);
    lemma_ratio(100, 1);
    lemma_ratio(5, 1);
    lemma_ratio(15, 1);
    lemma_ratio(250, 1);
    lemma_ratio(157_725_491, 32_000_000);
    lemma_ratio(473_176_473, 32_000_000);
    lemma_ratio(473_176_473, 2_000_000);
    lemma_ratio(473_176_473, 16_000_000);
    assert(n * 1 == n && d * 1 == d);
    lemma_convert_to_base(v, Unit::Mass(MassUnit::Milligram));
    lemma_convert_to_base(v, Unit::Mass(MassUnit::Kilogram));
    lemma_convert_to_base(v, Unit::Mass(MassUnit::Ounce));
    lemma_rescale(n, d, 45_359_237, 1_600_000, 28_349_523_125, 1_000_000_000);
    lemma_convert_to_base(v, Unit::Mass(MassUnit::Pound));
    lemma_convert_to_base(v, Unit::Volume(VolumeUnit::Centiliter));
    lemma_convert_to_base(v, Unit::Volume(VolumeUnit::Deciliter));
    lemma_convert_to_base(v, Unit::Volume(VolumeUnit::Liter));
    lemma_convert_to_base(v, Unit::Volume(VolumeUnit::TeaspoonFr));
    lemma_convert_to_base(v, Unit::Volume(VolumeUnit::TablespoonFr));
    lemma_convert_to_base(v, Unit::Volume(VolumeUnit::CupMetric));
    lemma_convert_to_base(v, Unit::Volume(VolumeUnit::TeaspoonUs));
    lemma_rescale(n, d, 157_725_491, 32_000_000, 492_892_159_375, 100_000_000_000);
    lemma_convert_to_base(v, Unit::Volume(VolumeUnit::TablespoonUs));
    lemma_rescale(n, d, 473_176_473, 32_000_000, 1_478_676_478_125, 100_000_000_000);
    lemma_convert_to_base(v, Unit::Volume(VolumeUnit::CupUs));
    lemma_rescale(n, d, 473_176_473, 2_000_000, 2_365_882_365, 10_000_000);
    lemma_convert_to_base(v, Unit::Volume(VolumeUnit::FluidOunceUs));
    lemma_rescale(n, d, 473_176_473, 16_000_000, 295_735_295_625, 10_000_000_000);
}

/// Converting between two units of one dimension multiplies by the size of
/// the first and divides by the size of the second: whatever comes back is
/// the number `v × size(from) ÷ size(to)`, and within the bounds.
pub proof fn law_convert_scales_by_unit_sizes(v: Rational, from: Unit, to: Unit)
    requires
        v.in_range(),
        from.spec_dimension() == to.spec_dimension(),
        from.spec_dimension() != Dimension::Unmeasured,
    ensures
        spec_convert(v, from, to) matches Some(r) ==> r.in_range() && denotes(
            r,
            v.num() * (from.spec_base_factor()->0).num() * (to.spec_base_factor()->0).den(),
            v.den() * (from.spec_base_factor()->0).den() * (to.spec_base_factor()->0).num(),
        ),
{
    lemma_factor_size(from);
    lemma_factor_size(to);
    let f = from.spec_base_factor()->0;
    let t = to.spec_base_factor()->0;
    lemma_in_range(v);
    if from == to {
        assert(same_ratio(v.num(), v.den(), v.num() * f.num() * f.den(), v.den() * f.den() * f.num()))
            by (nonlinear_arith);
    } else if spec_convert(v, from, to) is Some {
        lemma_arith_denotes(v, f);
        let x = v.spec_mul(f)->0;
        lemma_in_range(x);
        lemma_spec_ops(x, t);
        assert(x.den() * t.num() != 0) by (nonlinear_arith)
            requires
                x.den() > 0,
                t.num() > 0,
        ;
        lemma_make_denotes(x.num() * t.den(), x.den() * t.num());
        let r = spec_convert(v, from, to)->0;
        lemma_same_ratio_mul(x.num(), x.den(), v.num() * f.num(), v.den() * f.den(), t.den(), t.num(), t.den(), t.num());
        lemma_same_ratio_trans(
            r.num(),
            r.den(),
            x.num() * t.den(),
            x.den() * t.num(),
            v.num() * f.num() * t.den(),
            v.den() * f.den() * t.num(),
        );
    }
}

} // verus!
