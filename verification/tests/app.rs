use cabas::client::app::App;
use cabas::client::command::{
    Command, ComponentInput, IngredientInput, QuantityInput, RecipeInput, SegmentInput, StepInput,
};
use cabas::client::error::AppError;
use cabas::client::library::Library;
use cabas::client::platform::{Identity, Platform};
use cabas::client::tags::{AisleTag, CheckStateTag, RefDisplayTag, UnitTag};
use cabas::client::view::{
    ActionTag, CartLineView, ComponentView, ListItemView, ProblemKind, SegmentView, StateView, SubjectTag,
};
use cabas::event::EventLog;
use cabas::expand::RecipeIndex;
use cabas::ingredient_index::IngredientIndex;
use cabas::list::ShoppingList;
use cabas::overlay::Overlay;
use cabas::Timestamp;
use std::cell::Cell;

/// A clock that does not tick and a "random" source that counts.
#[derive(Default)]
struct TestPlatform {
    counter: Cell<u64>,
}

impl Platform for TestPlatform {
    fn now(&self) -> Timestamp {
        Timestamp(1_700_000_000_000)
    }

    fn random_u64(&self) -> Result<u64, AppError> {
        self.counter.set(self.counter.get() + 1);
        Ok(self.counter.get())
    }
}

fn identity() -> Identity {
    Identity {
        user: "usr_alice".into(),
        user_name: "Alice".into(),
        device: "dev_phone".into(),
        device_name: "Alice's iPhone".into(),
    }
}

fn empty_library() -> Library {
    Library {
        recipes: RecipeIndex::new(),
        ingredients: IngredientIndex::new(),
        list: ShoppingList::new(),
        overlay: Overlay::new(),
        users: Vec::new(),
        devices: Vec::new(),
    }
}

fn open() -> App<TestPlatform> {
    App::open(TestPlatform::default(), identity(), empty_library(), EventLog::new())
}

/// Applies a command and saves, as a native host does.
fn dispatch(app: &mut App<TestPlatform>, command: Command) -> Result<StateView, AppError> {
    let state = app.apply(command)?;
    if let Some(revision) = app.pending_save() {
        app.mark_saved(revision);
    }
    Ok(state)
}

fn amount(value: &str, unit: UnitTag) -> QuantityInput {
    QuantityInput { amount: value.into(), unit }
}

fn new_ingredient(name: &str, aisle: AisleTag) -> IngredientInput {
    IngredientInput {
        id: None,
        name: name.into(),
        aliases: Vec::new(),
        aisle,
        staple: false,
        density: None,
        unit_weight: None,
    }
}

fn id_of_ingredient(state: &StateView, name: &str) -> String {
    state.ingredients.iter().find(|i| i.name == name).expect("an ingredient").id.clone()
}

fn id_of_recipe(state: &StateView, name: &str) -> String {
    state.recipes.iter().find(|r| r.name == name).expect("a recipe").id.clone()
}

fn line<'a>(lines: &'a [CartLineView], name: &str) -> &'a CartLineView {
    lines.iter().find(|l| l.name == name).unwrap_or_else(|| panic!("no cart line for {name}"))
}

fn names(lines: &[CartLineView]) -> Vec<&str> {
    lines.iter().map(|l| l.name.as_str()).collect()
}

fn stocked(app: &mut App<TestPlatform>) -> StateView {
    let mut flour = new_ingredient("Flour", AisleTag::Grocery);
    flour.staple = true;
    flour.density = Some("0.55".into());
    let mut tomato = new_ingredient("Tomato", AisleTag::Produce);
    tomato.unit_weight = Some("150".into());
    let egg = new_ingredient("Egg", AisleTag::Dairy);

    let mut state = app.state();
    for ingredient in [flour, tomato, egg] {
        state = dispatch(app, Command::SaveIngredient { ingredient }).expect("the ingredient is saved");
    }
    state
}

fn tart(app: &mut App<TestPlatform>, state: &StateView) -> StateView {
    let recipe = RecipeInput {
        id: None,
        name: "Tomato tart".into(),
        servings: 4,
        yields: None,
        components: vec![
            ComponentInput::Ingredient {
                id: None,
                ingredient: id_of_ingredient(state, "Flour"),
                quantity: amount("200", UnitTag::G),
            },
            ComponentInput::Ingredient {
                id: None,
                ingredient: id_of_ingredient(state, "Tomato"),
                quantity: amount("3", UnitTag::Piece),
            },
            ComponentInput::Ingredient {
                id: None,
                ingredient: id_of_ingredient(state, "Egg"),
                quantity: amount("2", UnitTag::Piece),
            },
        ],
        steps: Vec::new(),
    };
    dispatch(app, Command::SaveRecipe { recipe }).expect("the recipe is saved")
}

#[test]
fn a_shopping_trip_from_an_empty_library_to_a_finished_cart() {
    let mut app = open();

    let state = stocked(&mut app);
    assert_eq!(state.ingredients.len(), 3);
    assert_eq!(state.me.name, "Alice");

    let state = tart(&mut app, &state);
    let recipe = id_of_recipe(&state, "Tomato tart");

    let state = dispatch(&mut app, Command::OpenRecipe { recipe: recipe.clone(), servings: None })
        .expect("the recipe opens");
    let focus = state.focus.as_ref().expect("a recipe is open");
    let flour_usage = match &focus.recipe.components[0] {
        ComponentView::Ingredient { usage, .. } => usage.clone(),
        other => panic!("expected an ingredient line, got {other:?}"),
    };

    let mut edit = focus.edit.clone();
    edit.steps = vec![StepInput {
        segments: vec![
            SegmentInput::Text { text: "Mix ".into() },
            SegmentInput::Ingredient { usage: flour_usage.clone(), display: RefDisplayTag::Full },
            SegmentInput::Text { text: " with the eggs.".into() },
        ],
    }];
    let state = dispatch(&mut app, Command::SaveRecipe { recipe: edit }).expect("the steps are saved");

    let focus = state.focus.as_ref().expect("still open");
    assert_eq!(focus.recipe.servings, 4);
    match &focus.recipe.steps[0].segments[1] {
        SegmentView::Ingredient { name, quantity, .. } => {
            assert_eq!(name.as_deref(), Some("Flour"));
            let quantity = quantity.as_ref().expect("a full reference shows both");
            assert_eq!(quantity.amount, "200");
            assert_eq!(quantity.unit, UnitTag::G);
        }
        other => panic!("expected an ingredient segment, got {other:?}"),
    }

    let state = app
        .apply(Command::OpenRecipe { recipe: recipe.clone(), servings: Some(6) })
        .expect("the recipe reopens at six");
    let focus = state.focus.as_ref().expect("still open");
    match &focus.recipe.steps[0].segments[1] {
        SegmentView::Ingredient { quantity, .. } => {
            assert_eq!(quantity.as_ref().expect("shown").amount, "300")
        }
        other => panic!("expected an ingredient segment, got {other:?}"),
    }
    assert_eq!(app.pending_save(), None, "opening a recipe must not dirty the replica");

    let state = dispatch(&mut app, Command::AddRecipeToList { recipe: recipe.clone(), servings: 6 })
        .expect("the recipe goes on the list");
    let entry = state.list[0].id.clone();
    assert_eq!(state.list.len(), 1);
    match &state.list[0].item {
        ListItemView::Recipe { name, servings, written_for, .. } => {
            assert_eq!(name, "Tomato tart");
            assert_eq!((*servings, *written_for), (6, 4));
        }
        other => panic!("expected a recipe entry, got {other:?}"),
    }
    assert_eq!(state.list[0].added_by.as_deref(), Some("Alice"));

    assert_eq!(names(&state.cart.to_buy), ["Tomato", "Egg"]);
    assert_eq!(line(&state.cart.to_buy, "Tomato").amounts[0].amount, "5");
    assert_eq!(line(&state.cart.to_buy, "Egg").amounts[0].amount, "3");
    assert_eq!(names(&state.cart.at_home), ["Flour"]);
    assert_eq!(line(&state.cart.at_home, "Flour").amounts[0].amount, "300");
    assert_eq!((state.cart.remaining, state.cart.total), (2, 3));
    assert_eq!((state.list[0].progress.settled, state.list[0].progress.total), (1, 3));

    let state = dispatch(&mut app, Command::SetEntryServings { entry: entry.clone(), servings: 8 })
        .expect("the entry rescales");
    assert_eq!(line(&state.cart.to_buy, "Tomato").amounts[0].amount, "6");
    let state = dispatch(&mut app, Command::SetEntryServings { entry: entry.clone(), servings: 6 })
        .expect("and back");
    assert_eq!(line(&state.cart.to_buy, "Tomato").amounts[0].amount, "5");

    let flour = id_of_ingredient(&state, "Flour");
    let state = dispatch(&mut app, Command::ToggleCartItem { ingredient: flour.clone() })
        .expect("the staple is unchecked");
    assert_eq!(line(&state.cart.to_buy, "Flour").state, CheckStateTag::ToBuy);
    assert!(state.cart.at_home.is_empty());

    let state = dispatch(&mut app, Command::ToggleCartItem { ingredient: flour.clone() })
        .expect("the staple is checked");
    assert_eq!(line(&state.cart.bought, "Flour").state, CheckStateTag::Checked);
    assert_eq!(line(&state.cart.bought, "Flour").checked_by.as_deref(), Some("Alice"));

    let state = dispatch(
        &mut app,
        Command::AddIngredientToList { ingredient: flour.clone(), quantity: amount("1", UnitTag::Kg) },
    )
    .expect("flour goes on the list by hand");
    let bought = line(&state.cart.to_buy, "Flour");
    assert_eq!(bought.state, CheckStateTag::ToBuy, "the tick was purged");
    assert_eq!(bought.amounts.len(), 1);
    assert_eq!(bought.amounts[0].amount, "1.3");
    assert_eq!(bought.amounts[0].unit, UnitTag::Kg);
    assert_eq!(state.list.len(), 2);

    let mut state = state;
    for name in ["Tomato", "Egg", "Flour"] {
        let ingredient = id_of_ingredient(&state, name);
        state = dispatch(&mut app, Command::ToggleCartItem { ingredient }).expect("ticked off");
    }
    assert_eq!(state.cart.remaining, 0);
    assert!(state.list.iter().all(|entry| entry.progress.complete));

    let state = dispatch(&mut app, Command::FinishShopping).expect("the trip ends");
    assert!(state.list.is_empty(), "completed entries leave the list");
    assert!(state.cart.to_buy.is_empty() && state.cart.bought.is_empty());
    assert_eq!(state.recipes.len(), 1);
    assert_eq!(state.ingredients.len(), 3);
    assert_eq!(state.problems, Vec::new());
}

#[test]
fn a_deleted_recipe_or_ingredient_degrades_to_a_warning() {
    let mut app = open();
    let state = stocked(&mut app);
    let state = tart(&mut app, &state);
    let recipe = id_of_recipe(&state, "Tomato tart");

    let state = dispatch(&mut app, Command::AddRecipeToList { recipe: recipe.clone(), servings: 4 })
        .expect("on the list");
    assert_eq!(state.cart.total, 3);

    let state = dispatch(&mut app, Command::DeleteRecipe { recipe: recipe.clone() })
        .expect("the recipe is deleted");
    assert_eq!(state.list.len(), 1);
    assert_eq!(state.cart.total, 0);
    assert_eq!(state.problems.len(), 1);
    assert_eq!(state.problems[0].kind, ProblemKind::MissingRecipe);
    assert_eq!(state.problems[0].subject.as_deref(), Some(recipe.as_str()));

    let mut app = open();
    let state = stocked(&mut app);
    let state = tart(&mut app, &state);
    let recipe = id_of_recipe(&state, "Tomato tart");
    let state = dispatch(&mut app, Command::AddRecipeToList { recipe, servings: 4 }).expect("on the list");
    let tomato = id_of_ingredient(&state, "Tomato");
    let state = dispatch(&mut app, Command::DeleteIngredient { ingredient: tomato.clone() })
        .expect("the ingredient is deleted");
    assert_eq!(state.cart.total, 3, "the other two lines are unaffected");
    assert_eq!(state.problems[0].kind, ProblemKind::MissingIngredient);
    assert_eq!(state.problems[0].subject.as_deref(), Some(tomato.as_str()));
}

#[test]
fn opening_enrols_this_device_and_its_owner_once() {
    let app = open();
    let state = app.state();
    assert_eq!(state.people.len(), 1);
    assert!(state.people[0].is_me);
    assert_eq!(state.people[0].devices.len(), 1);
    assert!(state.people[0].devices[0].is_this_one);
    assert_eq!(state.people[0].devices[0].name, "Alice's iPhone");
    assert_eq!(app.pending_save(), Some(2), "a first run has something to save");
}

#[test]
fn forms_that_do_not_read_are_refused_by_field() {
    let mut app = open();
    let blank = dispatch(&mut app, Command::SaveIngredient { ingredient: new_ingredient("  ", AisleTag::Other) });
    assert!(matches!(blank, Err(AppError::Invalid { field: "name", .. })));
    let mut bad = new_ingredient("Salt", AisleTag::Grocery);
    bad.density = Some("heavy".into());
    assert!(matches!(
        dispatch(&mut app, Command::SaveIngredient { ingredient: bad }),
        Err(AppError::Invalid { field: "density", .. })
    ));
    let mut blank_density = new_ingredient("Salt", AisleTag::Grocery);
    blank_density.density = Some("   ".into());
    blank_density.aliases = vec!["  sel ".into(), "".into()];
    let state = dispatch(&mut app, Command::SaveIngredient { ingredient: blank_density }).expect("saved");
    assert_eq!(state.ingredients[0].density, None, "a blank coefficient means unknown");
    assert_eq!(state.ingredients[0].aliases, vec!["sel".to_string()]);

    assert!(matches!(
        dispatch(&mut app, Command::AddRecipeToList { recipe: "rec_nope".into(), servings: 2 }),
        Err(AppError::NotFound { kind: "recipe", .. })
    ));
    assert!(matches!(
        dispatch(&mut app, Command::RenameUser { name: " ".into() }),
        Err(AppError::Invalid { field: "name", .. })
    ));
    let state = dispatch(&mut app, Command::RenameUser { name: " Alicia ".into() }).expect("renamed");
    assert_eq!(state.me.name, "Alicia");
}

#[test]
fn an_edit_of_an_existing_ingredient_is_logged_and_a_creation_is_not() {
    let mut app = open();
    let state = dispatch(&mut app, Command::SaveIngredient { ingredient: new_ingredient("Salt", AisleTag::Grocery) })
        .expect("created");
    assert_eq!(app.events().events.len(), 0);
    let mut edit = new_ingredient("Sea salt", AisleTag::Grocery);
    edit.id = Some(id_of_ingredient(&state, "Salt"));
    dispatch(&mut app, Command::SaveIngredient { ingredient: edit }).expect("edited");
    assert_eq!(app.events().events.len(), 1);
    assert_eq!(app.events().events[0].label, "Sea salt");
}

#[test]
fn the_journal_shows_deletions_newest_first() {
    let mut app = open();
    let state = stocked(&mut app);
    assert!(state.events.is_empty());
    let tomato = id_of_ingredient(&state, "Tomato");
    let flour = id_of_ingredient(&state, "Flour");
    dispatch(&mut app, Command::DeleteIngredient { ingredient: tomato.clone() }).expect("deleted");
    let state = dispatch(&mut app, Command::DeleteIngredient { ingredient: flour.clone() })
        .expect("deleted");
    assert_eq!(state.events.len(), 2);
    assert_eq!(state.events[0].label, "Flour");
    assert_eq!(state.events[0].action, ActionTag::Deleted);
    assert_eq!(state.events[0].subject, SubjectTag::Ingredient { id: flour });
    assert!(state.events[0].by_me);
    assert_eq!(state.events[1].label, "Tomato");
}
