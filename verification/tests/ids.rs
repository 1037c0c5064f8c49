use cabas::{IngredientId, RecipeId};

#[test]
fn ids_are_opaque_wrappers() {
    let id = IngredientId::from_raw("ing_01");
    assert_eq!(id.as_str(), "ing_01");
    assert_eq!(id, IngredientId::from_raw("ing_01"));
    assert_ne!(id, IngredientId::from_raw("ing_02"));
}

#[test]
fn ids_order_by_their_text() {
    assert!(RecipeId::from_raw("a").precedes(&RecipeId::from_raw("b")));
    assert!(!RecipeId::from_raw("b").precedes(&RecipeId::from_raw("a")));
    assert!(RecipeId::from_raw("a").same(&RecipeId::from_raw("a")));
}
