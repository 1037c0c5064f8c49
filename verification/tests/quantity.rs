use cabas::units::{MassUnit, Unit, VolumeUnit};
use cabas::{Quantity, Rational};

fn q(n: i128, d: i128, unit: Unit) -> Quantity {
    Quantity::new(Rational::new(n, d), unit)
}

const G: Unit = Unit::Mass(MassUnit::Gram);
const KG: Unit = Unit::Mass(MassUnit::Kilogram);
const ML: Unit = Unit::Volume(VolumeUnit::Milliliter);
const L: Unit = Unit::Volume(VolumeUnit::Liter);

#[test]
fn scaling_is_exact_and_reversible() {
    let flour = q(200, 1, G);
    let scaled = flour.scaled(Rational::new(3, 2));
    assert_eq!(scaled, q(300, 1, G));
    assert_eq!(scaled.scaled(Rational::new(2, 3)), flour);
}

#[test]
fn scaling_by_thirds_does_not_drift() {
    let q1 = q(1, 1, G);
    let there_and_back = q1.scaled(Rational::new(1, 3)).scaled(Rational::new(3, 1));
    assert_eq!(there_and_back, q1);
}

#[test]
fn addition_crosses_units_but_not_dimensions() {
    let a = q(500, 1, G);
    let b = q(1, 2, KG);
    assert_eq!(a.try_add(&b), Some(q(1000, 1, G)));
    assert_eq!(b.try_add(&a), Some(q(1, 1, KG)));
    assert_eq!(a.try_add(&q(100, 1, ML)), None);
}

#[test]
fn unmeasured_adds_only_to_the_identical_unit() {
    let pinch = q(2, 1, Unit::Pinch);
    assert_eq!(pinch.try_add(&q(1, 1, Unit::Pinch)), Some(q(3, 1, Unit::Pinch)));
    assert_eq!(pinch.try_add(&Quantity::to_taste()), None);
}

#[test]
fn scaling_leaves_unmeasured_alone() {
    let salt = Quantity::to_taste();
    assert_eq!(salt.scaled(Rational::from_integer(4)), salt);
    let pinch = q(2, 1, Unit::Pinch);
    assert_eq!(pinch.scaled(Rational::new(3, 2)), pinch);
}

#[test]
fn count_rounds_up_for_the_cart() {
    let eggs = q(1, 1, Unit::Piece).scaled(Rational::new(3, 2));
    assert_eq!(eggs.value, Rational::new(3, 2));
    assert_eq!(eggs.ceil_to_whole(), q(2, 1, Unit::Piece));
    assert_eq!(q(4, 1, Unit::Piece).ceil_to_whole(), q(4, 1, Unit::Piece));
}

#[test]
fn humanized_climbs_the_metric_ladder() {
    assert_eq!(q(1500, 1, G).humanized(), q(3, 2, KG));
    assert_eq!(q(2000, 1, ML).humanized(), q(2, 1, L));
    assert_eq!(q(1, 2, G).humanized(), q(500, 1, Unit::Mass(MassUnit::Milligram)));
    assert_eq!(q(250, 1, G).humanized(), q(250, 1, G));
}

#[test]
fn humanized_leaves_non_metric_and_unmeasured_units_alone() {
    let cups = q(2, 1, Unit::Volume(VolumeUnit::CupUs));
    assert_eq!(cups.humanized(), cups);
    assert_eq!(Quantity::to_taste().humanized(), Quantity::to_taste());
}

#[test]
fn a_scaling_out_of_range_is_refused_rather_than_wrapped() {
    let big = Quantity::whole(i128::MAX, G);
    assert_eq!(big.checked_scaled(Rational::from_integer(2)), None);
    assert!(q(1, 1, G).checked_scaled(Rational::from_integer(2)).is_some());
}

#[test]
fn masses_past_sixty_four_bits_add_exactly() {
    let big = Quantity::whole(0x7fff_ffff_ffff_ffff, G);
    assert_eq!(big.try_add(&big), Some(Quantity::whole(0xffff_ffff_ffff_fffe, G)));
}

#[test]
fn a_product_cancels_before_it_multiplies() {
    let big = q(i128::MAX, 2, G);
    assert_eq!(big.checked_scaled(Rational::new(2, 3)), Some(q(i128::MAX, 3, G)));
}

#[test]
fn a_negative_amount_rounds_up_towards_zero() {
    assert_eq!(q(-3, 2, Unit::Piece).ceil_to_whole(), q(-1, 1, Unit::Piece));
}

#[test]
fn grams_to_kilograms_and_back_is_the_same_quantity() {
    let grams = q(1234567, 999, G);
    let kilos = grams.convert_to(KG).expect("same dimension");
    assert_eq!(kilos, q(1234567, 999_000, KG));
    assert_eq!(kilos.convert_to(G), Some(grams));
}
