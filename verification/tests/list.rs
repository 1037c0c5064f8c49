use cabas::list::{ListEntry, ListItem, ShoppingList};
use cabas::overlay::{Explicit, Overlay};
use cabas::recipe::Servings;
use cabas::units::{MassUnit, Unit};
use cabas::{IngredientId, ListEntryId, Quantity, RecipeId, Timestamp, UserId};

const G: Unit = Unit::Mass(MassUnit::Gram);

fn ingredient_entry(id: &str, ingredient: &str) -> ListEntry {
    ListEntry {
        id: ListEntryId::from_raw(id),
        item: ListItem::Ingredient {
            ingredient: IngredientId::from_raw(ingredient),
            quantity: Quantity::whole(100, G),
        },
        added_by: UserId::from_raw("alice"),
        added_at: Timestamp(0),
    }
}

#[test]
fn adding_an_ingredient_purges_its_overlay_entry() {
    let mut overlay = Overlay::from_pairs(vec![(
        IngredientId::from_raw("salt"),
        Explicit::Checked { by: UserId::from_raw("bob"), at: Timestamp(5) },
    )]);
    let mut list = ShoppingList::default();
    list.add(ingredient_entry("e1", "salt"), &mut overlay);
    assert!(overlay.is_empty(), "the explicit action must be cleared");
    assert_eq!(list.entries.len(), 1);
}

#[test]
fn adding_a_recipe_purges_nothing() {
    let mut overlay = Overlay::from_pairs(vec![(IngredientId::from_raw("salt"), Explicit::Unchecked)]);
    let mut list = ShoppingList::default();
    list.add(
        ListEntry {
            id: ListEntryId::from_raw("e1"),
            item: ListItem::Recipe {
                recipe: RecipeId::from_raw("tart"),
                servings: Servings::new(4).expect("non-zero"),
            },
            added_by: UserId::from_raw("alice"),
            added_at: Timestamp(0),
        },
        &mut overlay,
    );
    assert_eq!(overlay.len(), 1);
}

#[test]
fn entries_can_be_looked_up_and_removed() {
    let mut overlay = Overlay::new();
    let mut list = ShoppingList::default();
    list.add(ingredient_entry("e1", "salt"), &mut overlay);
    list.add(ingredient_entry("e2", "flour"), &mut overlay);
    assert!(list.entry(&ListEntryId::from_raw("e1")).is_some());
    list.remove(&ListEntryId::from_raw("e1"));
    assert!(list.entry(&ListEntryId::from_raw("e1")).is_none());
    assert_eq!(list.entries.len(), 1);
}

#[test]
fn adding_an_ingredient_leaves_other_overlay_entries_alone() {
    let mut overlay = Overlay::from_pairs(vec![
        (IngredientId::from_raw("salt"), Explicit::Unchecked),
        (IngredientId::from_raw("flour"), Explicit::Unchecked),
    ]);
    let mut list = ShoppingList::default();
    list.add(ingredient_entry("e1", "salt"), &mut overlay);
    assert!(!overlay.contains_key(&IngredientId::from_raw("salt")));
    assert!(overlay.contains_key(&IngredientId::from_raw("flour")));
}
