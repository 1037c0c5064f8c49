use cabas::expand::{expand, ExpandError, RecipeIndex, MAX_DEPTH};
use cabas::recipe::{Component, IngredientUsage, Servings, SubRecipeAmount, SubRecipeUsage};
use cabas::units::{Dimension, MassUnit, Unit};
use cabas::{IngredientId, Quantity, Rational, Recipe, RecipeId, UsageId};

const G: Unit = Unit::Mass(MassUnit::Gram);

fn nz(n: u32) -> Servings {
    Servings::new(n).expect("non-zero")
}

fn rid(s: &str) -> RecipeId {
    RecipeId::from_raw(s)
}

fn ing_component(usage: &str, ingredient: &str, grams: i128) -> Component {
    Component::Ingredient(IngredientUsage {
        id: UsageId::from_raw(usage),
        ingredient: IngredientId::from_raw(ingredient),
        quantity: Quantity::whole(grams, G),
    })
}

fn sub_component(usage: &str, recipe: &str, amount: SubRecipeAmount) -> Component {
    Component::SubRecipe(SubRecipeUsage { id: UsageId::from_raw(usage), recipe: rid(recipe), amount })
}

fn pastry() -> Recipe {
    Recipe::new(rid("pastry"), "Shortcrust", nz(4))
        .with_yield(Quantity::whole(500, G))
        .with_component(ing_component("u_p_flour", "flour", 300))
}

fn index(recipes: Vec<Recipe>) -> RecipeIndex {
    RecipeIndex::from_recipes(recipes)
}

#[test]
fn a_flat_recipe_expands_to_its_own_usages() {
    let idx = index(vec![pastry()]);
    let out = expand(&rid("pastry"), Rational::from_integer(1), &idx).expect("expands");
    assert_eq!(out.len(), 1);
    assert_eq!(out[0].quantity, Quantity::whole(300, G));
    assert_eq!(out[0].usage, UsageId::from_raw("u_p_flour"));
}

#[test]
fn factors_multiply_down_the_path() {
    let tart = Recipe::new(rid("tart"), "Tart", nz(4)).with_component(sub_component(
        "u_t_pastry",
        "pastry",
        SubRecipeAmount::Factor(Rational::new(1, 2)),
    ));
    let idx = index(vec![tart, pastry()]);
    let once = expand(&rid("tart"), Rational::from_integer(1), &idx).expect("expands");
    assert_eq!(once[0].quantity, Quantity::whole(150, G));
    let twice = expand(&rid("tart"), Rational::from_integer(2), &idx).expect("expands");
    assert_eq!(twice[0].quantity, Quantity::whole(300, G));
}

#[test]
fn a_yield_reference_derives_the_factor_from_the_declared_yield() {
    let tart = Recipe::new(rid("tart"), "Tart", nz(4)).with_component(sub_component(
        "u_t_pastry",
        "pastry",
        SubRecipeAmount::OfYield(Quantity::whole(200, G)),
    ));
    let idx = index(vec![tart, pastry()]);
    let out = expand(&rid("tart"), Rational::from_integer(1), &idx).expect("expands");
    assert_eq!(out[0].quantity, Quantity::whole(120, G));
}

#[test]
fn a_yield_reference_to_a_recipe_without_a_yield_is_an_error() {
    let no_yield =
        Recipe::new(rid("plain"), "Plain", nz(4)).with_component(ing_component("u_x", "flour", 10));
    let parent = Recipe::new(rid("parent"), "Parent", nz(4)).with_component(sub_component(
        "u_sub",
        "plain",
        SubRecipeAmount::OfYield(Quantity::whole(100, G)),
    ));
    let idx = index(vec![parent, no_yield]);
    assert_eq!(
        expand(&rid("parent"), Rational::from_integer(1), &idx),
        Err(ExpandError::MissingYield(rid("plain")))
    );
}

#[test]
fn a_yield_reference_in_the_wrong_dimension_is_an_error() {
    let parent = Recipe::new(rid("parent"), "Parent", nz(4)).with_component(sub_component(
        "u_sub",
        "pastry",
        SubRecipeAmount::OfYield(Quantity::whole(2, Unit::Piece)),
    ));
    let idx = index(vec![parent, pastry()]);
    assert_eq!(
        expand(&rid("parent"), Rational::from_integer(1), &idx),
        Err(ExpandError::YieldDimensionMismatch {
            recipe: rid("pastry"),
            declared: Dimension::Mass,
            requested: Dimension::Count,
        })
    );
}

#[test]
fn a_direct_cycle_is_detected() {
    let a = Recipe::new(rid("a"), "A", nz(1)).with_component(sub_component(
        "u",
        "a",
        SubRecipeAmount::Factor(Rational::from_integer(1)),
    ));
    let idx = index(vec![a]);
    assert_eq!(
        expand(&rid("a"), Rational::from_integer(1), &idx),
        Err(ExpandError::Cycle(vec![rid("a"), rid("a")]))
    );
}

#[test]
fn an_indirect_cycle_is_detected() {
    let one = Rational::from_integer(1);
    let a = Recipe::new(rid("a"), "A", nz(1)).with_component(sub_component("ua", "b", SubRecipeAmount::Factor(one)));
    let b = Recipe::new(rid("b"), "B", nz(1)).with_component(sub_component("ub", "c", SubRecipeAmount::Factor(one)));
    let c = Recipe::new(rid("c"), "C", nz(1)).with_component(sub_component("uc", "a", SubRecipeAmount::Factor(one)));
    let idx = index(vec![a, b, c]);
    assert_eq!(
        expand(&rid("a"), one, &idx),
        Err(ExpandError::Cycle(vec![rid("a"), rid("b"), rid("c"), rid("a")]))
    );
}

#[test]
fn the_same_sub_recipe_twice_is_a_dag_not_a_cycle() {
    let one = Rational::from_integer(1);
    let menu = Recipe::new(rid("menu"), "Menu", nz(4))
        .with_component(sub_component("u1", "pastry", SubRecipeAmount::Factor(one)))
        .with_component(sub_component("u2", "pastry", SubRecipeAmount::Factor(one)));
    let idx = index(vec![menu, pastry()]);
    let out = expand(&rid("menu"), one, &idx).expect("a DAG expands fine");
    assert_eq!(out.len(), 2);
    assert_eq!(out[0].quantity, Quantity::whole(300, G));
    assert_eq!(out[1].quantity, Quantity::whole(300, G));
}

#[test]
fn an_unknown_recipe_is_reported() {
    let idx = index(vec![]);
    assert_eq!(
        expand(&rid("ghost"), Rational::from_integer(1), &idx),
        Err(ExpandError::UnknownRecipe(rid("ghost")))
    );
}

#[test]
fn nesting_beyond_the_bound_is_reported_not_overflowed() {
    let one = Rational::from_integer(1);
    let mut recipes = Vec::new();
    for i in 0..20 {
        let name = format!("r{i}");
        let next = format!("r{}", i + 1);
        recipes.push(
            Recipe::new(rid(&name), &name, nz(1)).with_component(sub_component("u", &next, SubRecipeAmount::Factor(one))),
        );
    }
    recipes.push(Recipe::new(rid("r20"), "r20", nz(1)));
    let idx = index(recipes);
    assert_eq!(
        expand(&rid("r0"), one, &idx),
        Err(ExpandError::DepthExceeded(rid(&format!("r{MAX_DEPTH}"))))
    );
}

#[test]
fn unmeasured_ingredients_survive_scaling_unchanged() {
    let r = Recipe::new(rid("soup"), "Soup", nz(2)).with_component(Component::Ingredient(IngredientUsage {
        id: UsageId::from_raw("u_salt"),
        ingredient: IngredientId::from_raw("salt"),
        quantity: Quantity::to_taste(),
    }));
    let idx = index(vec![r]);
    let out = expand(&rid("soup"), Rational::from_integer(10), &idx).expect("expands");
    assert_eq!(out[0].quantity, Quantity::to_taste());
}

#[test]
fn a_zero_yield_cannot_be_divided() {
    let empty = Recipe::new(rid("empty"), "Empty", nz(1)).with_yield(Quantity::whole(0, G));
    let parent = Recipe::new(rid("p"), "P", nz(1)).with_component(sub_component(
        "u",
        "empty",
        SubRecipeAmount::OfYield(Quantity::whole(10, G)),
    ));
    let idx = index(vec![parent, empty]);
    assert_eq!(
        expand(&rid("p"), Rational::from_integer(1), &idx),
        Err(ExpandError::ZeroYield(rid("empty")))
    );
}

#[test]
fn an_unmeasured_yield_cannot_be_divided() {
    let vague = Recipe::new(rid("vague"), "Vague", nz(1)).with_yield(Quantity::to_taste());
    let parent = Recipe::new(rid("p"), "P", nz(1)).with_component(sub_component(
        "u",
        "vague",
        SubRecipeAmount::OfYield(Quantity::to_taste()),
    ));
    let idx = index(vec![parent, vague]);
    assert_eq!(
        expand(&rid("p"), Rational::from_integer(1), &idx),
        Err(ExpandError::UnmeasurableYield(rid("vague")))
    );
}

#[test]
fn a_factor_out_of_range_is_an_overflow() {
    let idx = index(vec![pastry()]);
    let huge = Rational::from_integer(i128::MAX);
    assert_eq!(expand(&rid("pastry"), huge, &idx), Err(ExpandError::Overflow));
}

#[test]
fn a_later_recipe_replaces_an_earlier_one_with_the_same_id() {
    let first = Recipe::new(rid("x"), "First", nz(1));
    let second = Recipe::new(rid("x"), "Second", nz(1));
    let idx = index(vec![first, second]);
    assert_eq!(idx.len(), 1);
    assert_eq!(idx.get(&rid("x")).expect("filed").name, "Second");
}
