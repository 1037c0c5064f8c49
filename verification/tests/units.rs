use cabas::units::{convert, Dimension, MassUnit, Unit, VolumeUnit, MERGE_PREFERENCE};
use cabas::Rational;

fn q(n: i128, d: i128) -> Rational {
    Rational::new(n, d)
}

#[test]
fn metric_mass_conversions_are_exact() {
    let one_kg = q(1, 1);
    assert_eq!(
        convert(one_kg, Unit::Mass(MassUnit::Kilogram), Unit::Mass(MassUnit::Gram)),
        Some(q(1000, 1))
    );
    assert_eq!(
        convert(q(500, 1), Unit::Mass(MassUnit::Gram), Unit::Mass(MassUnit::Kilogram)),
        Some(q(1, 2))
    );
}

#[test]
fn a_third_of_a_cup_stays_a_third() {
    let third = q(1, 3);
    let ml = convert(
        third,
        Unit::Volume(VolumeUnit::CupMetric),
        Unit::Volume(VolumeUnit::Milliliter),
    )
    .expect("same dimension");
    assert_eq!(ml, q(250, 3));
    let back = convert(
        ml,
        Unit::Volume(VolumeUnit::Milliliter),
        Unit::Volume(VolumeUnit::CupMetric),
    )
    .expect("same dimension");
    assert_eq!(back, third);
}

#[test]
fn locale_variants_differ() {
    let fr = VolumeUnit::TablespoonFr.milliliters();
    let us = VolumeUnit::TablespoonUs.milliliters();
    assert_ne!(fr, us);
    assert_eq!(fr, q(15, 1));
    assert_eq!(us, q(1_478_676_478_125, 100_000_000_000));
}

#[test]
fn imperial_factors_do_not_overflow_i128() {
    let ounces = convert(q(1, 1), Unit::Mass(MassUnit::Pound), Unit::Mass(MassUnit::Ounce))
        .expect("same dimension");
    assert_eq!(ounces, q(16, 1));
}

#[test]
fn cross_dimension_conversion_is_refused() {
    assert_eq!(
        convert(q(1, 1), Unit::Mass(MassUnit::Gram), Unit::Volume(VolumeUnit::Milliliter)),
        None
    );
    assert_eq!(convert(q(1, 1), Unit::Piece, Unit::Mass(MassUnit::Gram)), None);
}

#[test]
fn unmeasured_units_never_convert_even_to_themselves_by_factor() {
    assert_eq!(convert(q(2, 1), Unit::Pinch, Unit::Pinch), Some(q(2, 1)));
    assert_eq!(convert(q(2, 1), Unit::Pinch, Unit::ToTaste), None);
    assert_eq!(Unit::Pinch.base_factor(), None);
    assert!(!Dimension::Unmeasured.is_measurable());
}

#[test]
fn every_measurable_dimension_has_a_base_unit_of_factor_one() {
    for d in MERGE_PREFERENCE {
        let base = d.base_unit().expect("measurable");
        assert_eq!(base.dimension(), d);
        assert_eq!(base.base_factor(), Some(q(1, 1)));
    }
}

#[test]
fn a_conversion_that_leaves_the_range_is_refused() {
    // A thousand times the largest kilogram count is out of the exact range.
    let huge = Rational::from_integer(i128::MAX);
    assert_eq!(convert(huge, Unit::Mass(MassUnit::Kilogram), Unit::Mass(MassUnit::Gram)), None);
}

#[test]
fn the_merge_preference_is_count_mass_volume() {
    assert_eq!(MERGE_PREFERENCE, [Dimension::Count, Dimension::Mass, Dimension::Volume]);
}
