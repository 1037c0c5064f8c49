use cabas::recipe::{
    Component, IngredientUsage, RefDisplay, Segment, Servings, Step, SubRecipeAmount,
    SubRecipeUsage,
};
use cabas::units::{MassUnit, Unit};
use cabas::{IngredientId, Quantity, Rational, Recipe, RecipeId, UsageId};

fn nz(n: u32) -> Servings {
    Servings::new(n).expect("non-zero")
}

const G: Unit = Unit::Mass(MassUnit::Gram);

fn tart() -> Recipe {
    Recipe::new(RecipeId::from_raw("tart"), "Apple tart", nz(4))
        .with_component(Component::Ingredient(IngredientUsage {
            id: UsageId::from_raw("u_flour"),
            ingredient: IngredientId::from_raw("flour"),
            quantity: Quantity::whole(200, G),
        }))
        .with_step(Step {
            segments: vec![
                Segment::Text("Add ".into()),
                Segment::Ingredient {
                    usage: UsageId::from_raw("u_flour"),
                    display: RefDisplay::Full,
                },
                Segment::Text(" and mix.".into()),
            ],
        })
}

#[test]
fn servings_factor_is_exact() {
    let r = tart();
    assert_eq!(r.factor_for_servings(nz(6)), Rational::new(3, 2));
    assert_eq!(r.factor_for_servings(nz(4)), Rational::from_integer(1));
    assert_eq!(r.factor_for_servings(nz(1)), Rational::new(1, 4));
}

#[test]
fn a_step_reference_resolves_to_its_usage() {
    let r = tart();
    let usage = r.usage(&UsageId::from_raw("u_flour")).expect("present");
    assert_eq!(usage.quantity, Quantity::whole(200, G));
    assert!(r.dangling_refs().is_empty());
}

#[test]
fn deleting_a_referenced_usage_is_reported_not_prevented() {
    let mut r = tart();
    r.components.clear();
    assert_eq!(r.dangling_refs(), vec![UsageId::from_raw("u_flour")]);
    assert_eq!(r.steps.len(), 1);
}

#[test]
fn components_split_into_ingredients_and_sub_recipes() {
    let r = tart().with_component(Component::SubRecipe(SubRecipeUsage {
        id: UsageId::from_raw("u_pastry"),
        recipe: RecipeId::from_raw("pastry"),
        amount: SubRecipeAmount::Factor(Rational::new(1, 2)),
    }));
    assert_eq!(r.ingredient_usages().len(), 1);
    assert_eq!(r.sub_recipes().len(), 1);
    assert!(r.usage(&UsageId::from_raw("u_pastry")).is_none());
}

#[test]
fn zero_servings_is_not_a_serving_count() {
    assert!(Servings::new(0).is_none());
    assert_eq!(Servings::new(3).map(|s| s.get()), Some(3));
}
