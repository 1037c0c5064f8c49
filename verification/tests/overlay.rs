use cabas::overlay::{default_state, resolve, CheckState, Explicit, Overlay};
use cabas::{IngredientId, Timestamp, UserId};

fn user() -> UserId {
    UserId::from_raw("alice")
}

#[test]
fn an_explicit_action_always_beats_the_derived_default() {
    let checked = Explicit::Checked { by: user(), at: Timestamp(1) };
    assert!(resolve(Some(&checked), true, false).is_settled());
    assert_eq!(resolve(Some(&Explicit::Unchecked), true, false), CheckState::ToBuy);
}

#[test]
fn unchecking_a_staple_survives_re_derivation() {
    let overlay = Overlay::from_pairs(vec![(IngredientId::from_raw("salt"), Explicit::Unchecked)]);
    let state = resolve(overlay.get(&IngredientId::from_raw("salt")), true, false);
    assert_eq!(state, CheckState::ToBuy);
    assert!(!state.is_settled());
}

#[test]
fn a_staple_auto_checks_only_while_recipes_ask_for_it() {
    assert_eq!(default_state(true, false), CheckState::AutoChecked);
    assert_eq!(default_state(true, true), CheckState::ToBuy);
    assert_eq!(default_state(false, false), CheckState::ToBuy);
}

#[test]
fn auto_checked_counts_as_settled() {
    assert!(CheckState::AutoChecked.is_settled());
    assert!(!CheckState::ToBuy.is_settled());
}

#[test]
fn a_later_pair_replaces_an_earlier_one() {
    let overlay = Overlay::from_pairs(vec![
        (IngredientId::from_raw("salt"), Explicit::Unchecked),
        (IngredientId::from_raw("salt"), Explicit::Checked { by: user(), at: Timestamp(3) }),
    ]);
    assert_eq!(overlay.len(), 1);
    assert_eq!(
        overlay.get(&IngredientId::from_raw("salt")),
        Some(&Explicit::Checked { by: user(), at: Timestamp(3) })
    );
    let mut overlay = overlay;
    overlay.remove(&IngredientId::from_raw("salt"));
    assert!(overlay.is_empty());
}

#[test]
fn an_ingredient_has_one_action_however_often_it_is_recorded() {
    let mut overlay = Overlay::new();
    overlay.insert(IngredientId::from_raw("salt"), Explicit::Unchecked);
    overlay.insert(IngredientId::from_raw("salt"), Explicit::Unchecked);
    overlay.insert(IngredientId::from_raw("flour"), Explicit::Unchecked);
    assert_eq!(overlay.len(), 2);
    overlay.remove(&IngredientId::from_raw("salt"));
    assert_eq!(overlay.len(), 1);
}
