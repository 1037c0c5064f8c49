use cabas::ingredient::{resolve, Aisle};
use cabas::units::{Dimension, MassUnit, Unit, VolumeUnit};
use cabas::{Ingredient, IngredientId, Quantity, Rational};

fn rat(n: i128, d: i128) -> Rational {
    Rational::new(n, d)
}

fn flour() -> Ingredient {
    Ingredient::new(IngredientId::from_raw("flour"), "Flour", Aisle::Grocery)
        .with_density(rat(55, 100))
        .as_staple()
}

fn tomato() -> Ingredient {
    Ingredient::new(IngredientId::from_raw("tomato"), "Tomato", Aisle::Produce)
        .with_unit_weight(rat(150, 1))
}

const G: Unit = Unit::Mass(MassUnit::Gram);
const ML: Unit = Unit::Volume(VolumeUnit::Milliliter);

#[test]
fn mass_and_volume_convert_through_density() {
    let f = flour();
    let volume = Quantity::whole(100, ML);
    let mass = f.convert(&volume, Dimension::Mass).expect("density known");
    assert_eq!(mass, Quantity::new(rat(55, 1), G));
    assert_eq!(f.convert(&mass, Dimension::Volume), Some(Quantity::whole(100, ML)));
}

#[test]
fn count_and_mass_convert_through_unit_weight() {
    let t = tomato();
    let three = Quantity::whole(3, Unit::Piece);
    assert_eq!(t.convert(&three, Dimension::Mass), Some(Quantity::new(rat(450, 1), G)));
    assert_eq!(
        t.convert(&Quantity::whole(300, G), Dimension::Count),
        Some(Quantity::whole(2, Unit::Piece))
    );
}

#[test]
fn conversion_without_the_coefficient_is_refused() {
    let bare = Ingredient::new(IngredientId::from_raw("x"), "X", Aisle::Other);
    assert_eq!(bare.convert(&Quantity::whole(100, ML), Dimension::Mass), None);
    assert_eq!(bare.convert(&Quantity::whole(2, Unit::Piece), Dimension::Mass), None);
    assert!(!bare.can_convert(Dimension::Volume, Dimension::Mass));
    assert!(bare.can_convert(Dimension::Mass, Dimension::Mass));
}

#[test]
fn count_to_volume_needs_both_coefficients() {
    let t = tomato();
    assert!(!t.can_convert(Dimension::Count, Dimension::Volume));
    assert_eq!(t.convert(&Quantity::whole(1, Unit::Piece), Dimension::Volume), None);

    let both = t.clone().with_density(rat(1, 1));
    assert!(both.can_convert(Dimension::Count, Dimension::Volume));
    assert_eq!(
        both.convert(&Quantity::whole(1, Unit::Piece), Dimension::Volume),
        Some(Quantity::whole(150, ML))
    );
}

#[test]
fn unmeasured_never_converts() {
    let f = flour();
    assert_eq!(f.convert(&Quantity::to_taste(), Dimension::Mass), None);
    assert!(!f.can_convert(Dimension::Unmeasured, Dimension::Mass));
    assert!(!f.can_convert(Dimension::Mass, Dimension::Unmeasured));
}

#[test]
fn a_zero_coefficient_is_not_usable() {
    let broken =
        Ingredient::new(IngredientId::from_raw("z"), "Z", Aisle::Other).with_density(rat(0, 1));
    assert!(!broken.can_convert(Dimension::Volume, Dimension::Mass));
    assert_eq!(broken.convert(&Quantity::whole(10, G), Dimension::Volume), None);
}

#[test]
fn aisles_sort_in_walking_order() {
    let mut aisles = [Aisle::Frozen, Aisle::Produce, Aisle::Grocery, Aisle::Dairy];
    aisles.sort();
    assert_eq!(aisles, [Aisle::Produce, Aisle::Dairy, Aisle::Grocery, Aisle::Frozen]);
    assert!(Aisle::Produce.order() < Aisle::Dairy.order());
    assert!(Aisle::Grocery.order() < Aisle::Frozen.order());
}

#[test]
fn aliases_resolve_case_insensitively() {
    let mut t = tomato();
    t.aliases.push("Tomates".into());
    assert!(t.matches("tomato"));
    assert!(t.matches("  TOMATES "));
    assert!(!t.matches("cherry tomato"));
}

#[test]
fn free_text_resolves_to_the_canonical_ingredient() {
    let mut t = tomato();
    t.aliases.push("Tomates".into());
    let library = vec![flour(), t];

    let found = resolve(&library, "tomates").expect("alias resolves");
    assert_eq!(found.id, IngredientId::from_raw("tomato"));
    assert!(resolve(&library, "saffron").is_none());
}

#[test]
fn a_negative_coefficient_is_not_usable_either() {
    let broken = Ingredient::new(IngredientId::from_raw("n"), "N", Aisle::Other)
        .with_unit_weight(rat(-150, 1));
    assert!(!broken.can_convert(Dimension::Count, Dimension::Mass));
    assert!(!broken.can_convert(Dimension::Mass, Dimension::Count));
    assert_eq!(broken.convert(&Quantity::whole(2, Unit::Piece), Dimension::Mass), None);
}

#[test]
fn a_bridged_everyday_amount_always_converts() {
    let f = flour();
    let cup = Quantity::new(rat(3, 4), Unit::Volume(VolumeUnit::CupUs));
    assert!(f.can_convert(Dimension::Volume, Dimension::Mass));
    assert!(f.convert(&cup, Dimension::Mass).is_some());
    assert!(f.convert(&cup, Dimension::Volume).is_some());
}
