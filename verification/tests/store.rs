use cabas::event::{Action, Event, Subject};
use cabas::ingredient::{Aisle, Ingredient};
use cabas::list::{ListEntry, ListItem};
use cabas::overlay::Explicit;
use cabas::people::{Device, User};
use cabas::recipe::{
    Component, IngredientUsage, Recipe, RefDisplay, Segment, Servings, Step, SubRecipeAmount,
    SubRecipeUsage,
};
use cabas::store::codec::{
    aisle, aisle_tag, display, display_tag, quantity, quantity_value, rational, rational_value, servings,
    timestamp, unit, unit_tag,
};
use cabas::store::error::StoreError;
use cabas::store::mapping::{
    device_value, event_value, explicit_value, ingredient_value, list_entry_value, read_device,
    read_event, read_explicit, read_ingredient, read_list_entry, read_recipe, read_user, recipe_value,
    user_value,
};
use cabas::store::roots::{
    check_schema, devices, events, excess_events, ingredients, list, list_positions, overlay, recipes,
    users,
};
use cabas::store::schema::SCHEMA_VERSION;
use cabas::store::storage::{FileStorage, IndexedDbStorage, MemoryStorage, Storage};
use cabas::store::value::{field, optional, table, Value};
use cabas::units::{MassUnit, Unit, VolumeUnit};
use cabas::{DeviceId, IngredientId, ListEntryId, Quantity, Rational, RecipeId, Timestamp, UsageId, UserId};

const ALL_UNITS: [Unit; 19] = [
    Unit::Mass(MassUnit::Milligram),
    Unit::Mass(MassUnit::Gram),
    Unit::Mass(MassUnit::Kilogram),
    Unit::Mass(MassUnit::Ounce),
    Unit::Mass(MassUnit::Pound),
    Unit::Volume(VolumeUnit::Milliliter),
    Unit::Volume(VolumeUnit::Centiliter),
    Unit::Volume(VolumeUnit::Deciliter),
    Unit::Volume(VolumeUnit::Liter),
    Unit::Volume(VolumeUnit::TeaspoonFr),
    Unit::Volume(VolumeUnit::TablespoonFr),
    Unit::Volume(VolumeUnit::CupMetric),
    Unit::Volume(VolumeUnit::TeaspoonUs),
    Unit::Volume(VolumeUnit::TablespoonUs),
    Unit::Volume(VolumeUnit::CupUs),
    Unit::Volume(VolumeUnit::FluidOunceUs),
    Unit::Piece,
    Unit::Pinch,
    Unit::ToTaste,
];

const ALL_AISLES: [Aisle; 11] = [
    Aisle::Produce,
    Aisle::Butcher,
    Aisle::Fish,
    Aisle::Deli,
    Aisle::Dairy,
    Aisle::Bakery,
    Aisle::Grocery,
    Aisle::Frozen,
    Aisle::Beverages,
    Aisle::Household,
    Aisle::Other,
];

const G: Unit = Unit::Mass(MassUnit::Gram);
const ML: Unit = Unit::Volume(VolumeUnit::Milliliter);

fn nz(n: u32) -> Servings {
    Servings::new(n).expect("non-zero")
}

fn s(text: &str) -> Value {
    Value::String(text.to_string())
}

fn map_of(pairs: Vec<(&str, Value)>) -> Value {
    Value::Table(pairs.into_iter().map(|(k, v)| (k.to_string(), v)).collect())
}

#[test]
fn every_unit_round_trips_through_its_tag() {
    let mut tags = Vec::new();
    for u in ALL_UNITS {
        let tag = unit_tag(u);
        let value = Value::String(tag.into());
        assert_eq!(unit(&value, "test").expect("known tag"), u);
        tags.push(tag);
    }
    tags.sort_unstable();
    let before = tags.len();
    tags.dedup();
    assert_eq!(tags.len(), before, "unit tags must be unique");
}

#[test]
fn every_aisle_round_trips_through_its_tag() {
    for a in ALL_AISLES {
        let value = Value::String(aisle_tag(a).into());
        assert_eq!(aisle(&value, "test").expect("known tag"), a);
    }
}

#[test]
fn an_unknown_aisle_degrades_but_an_unknown_unit_refuses() {
    let unknown = s("chocolate_fountain");
    assert_eq!(aisle(&unknown, "test").expect("degrades"), Aisle::Other);
    assert!(unit(&unknown, "test").is_err());
}

#[test]
fn rationals_survive_the_round_trip_exactly() {
    let ounce = Rational::new(28_349_523_125, 1_000_000_000);
    let encoded = rational_value(ounce);
    assert_eq!(rational(&encoded, "test").expect("valid"), ounce);

    let third = Rational::new(1, 3);
    assert_eq!(rational(&rational_value(third), "test").expect("valid"), third);
}

#[test]
fn an_unreduced_rational_is_read_back_reduced() {
    let raw = s("2/4");
    assert_eq!(rational(&raw, "test").expect("valid"), Rational::new(1, 2));
}

#[test]
fn malformed_rationals_are_rejected_rather_than_guessed() {
    for bad in ["", "3", "3/0", "a/2", "3/b", "1.5"] {
        let value = s(bad);
        assert!(rational(&value, "test").is_err(), "{bad:?} should not parse");
    }
}

#[test]
fn quantities_round_trip() {
    let q = Quantity::new(Rational::new(3, 2), Unit::Mass(MassUnit::Kilogram));
    assert_eq!(quantity(&quantity_value(&q), "test").expect("valid"), q);

    let taste = Quantity::to_taste();
    assert_eq!(quantity(&quantity_value(&taste), "test").expect("valid"), taste);
}

#[test]
fn a_null_field_reads_as_absent() {
    let map_value = map_of(vec![("yields", Value::Null)]);
    let m = table(&map_value, "test").expect("a map");
    assert!(optional(m, "yields").is_none());
    assert!(field(m, "yields", "test").is_err());
}

#[test]
fn servings_must_be_a_positive_count() {
    assert_eq!(servings(&Value::I64(4), "test").expect("valid").get(), 4);
    assert!(servings(&Value::I64(0), "test").is_err());
    assert!(servings(&Value::I64(-2), "test").is_err());
}

#[test]
fn memory_storage_round_trips_and_starts_empty() {
    let mut storage = MemoryStorage::new();
    assert_eq!(storage.load().expect("load"), None);
    storage.save(b"snapshot").expect("save");
    assert_eq!(storage.load().expect("load"), Some(b"snapshot".to_vec()));
}

#[test]
fn rationals_are_written_as_numerator_over_denominator() {
    assert_eq!(rational_value(Rational::new(-3, 2)), s("-3/2"));
    assert_eq!(rational_value(Rational::new(6, 3)), s("2/1"));
    assert_eq!(rational(&s("+6/-4"), "test").expect("signed"), Rational::new(-3, 2));
    assert_eq!(rational(&s("1/2/3"), "test").is_err(), true);
    assert_eq!(rational(&s("-/2"), "test").is_err(), true);
    assert!(matches!(rational(&Value::I64(3), "here"), Err(StoreError::Corrupt { path, .. }) if path == "here"));
}

#[test]
fn tags_are_the_persisted_spellings() {
    assert_eq!(unit_tag(Unit::Volume(VolumeUnit::FluidOunceUs)), "floz_us");
    assert_eq!(aisle_tag(Aisle::Beverages), "beverages");
    assert_eq!(display_tag(RefDisplay::QuantityOnly), "quantity_only");
    assert_eq!(display(&s("name_only"), "t").expect("known"), RefDisplay::NameOnly);
    assert!(display(&s("loud"), "t").is_err());
    assert_eq!(timestamp(&Value::I64(42), "t").expect("int"), Timestamp(42));
    assert!(timestamp(&s("42"), "t").is_err());
    assert!(servings(&Value::I64(1 << 33), "t").is_err());
}

fn flour() -> Ingredient {
    Ingredient::new(IngredientId::from_raw("flour"), "Flour", Aisle::Grocery)
        .with_density(Rational::new(55, 100))
        .as_staple()
}

fn tomato() -> Ingredient {
    let mut t = Ingredient::new(IngredientId::from_raw("tomato"), "Tomato", Aisle::Produce)
        .with_unit_weight(Rational::new(150, 1));
    t.aliases.push("Tomates".into());
    t
}

fn tart() -> Recipe {
    Recipe::new(RecipeId::from_raw("tart"), "Apple tart", nz(4))
        .with_yield(Quantity::whole(500, G))
        .with_component(Component::Ingredient(IngredientUsage {
            id: UsageId::from_raw("u_flour"),
            ingredient: IngredientId::from_raw("flour"),
            quantity: Quantity::new(Rational::new(1, 3), ML),
        }))
        .with_component(Component::SubRecipe(SubRecipeUsage {
            id: UsageId::from_raw("u_pastry"),
            recipe: RecipeId::from_raw("pastry"),
            amount: SubRecipeAmount::Factor(Rational::new(1, 2)),
        }))
        .with_step(Step {
            segments: vec![
                Segment::Text("Add ".into()),
                Segment::Ingredient { usage: UsageId::from_raw("u_flour"), display: RefDisplay::Full },
                Segment::Text(" and mix.".into()),
            ],
        })
        .with_step(Step::text("Bake for 40 minutes."))
}

fn pastry() -> Recipe {
    Recipe::new(RecipeId::from_raw("pastry"), "Pastry", nz(1)).with_component(Component::SubRecipe(
        SubRecipeUsage {
            id: UsageId::from_raw("u_base"),
            recipe: RecipeId::from_raw("base"),
            amount: SubRecipeAmount::OfYield(Quantity::whole(200, G)),
        },
    ))
}

#[test]
fn every_persisted_entity_reads_back_as_written() {
    for i in [flour(), tomato()] {
        let v = ingredient_value(&i);
        assert_eq!(read_ingredient(i.id.as_str(), &v).expect("read"), i);
    }
    for r in [tart(), pastry()] {
        let v = recipe_value(&r);
        assert_eq!(read_recipe(r.id.as_str(), &v).expect("read"), r);
    }
    let user = User::new(UserId::from_raw("alice"), "Alice");
    assert_eq!(read_user("alice", &user_value(&user)).expect("read"), user);
    let device = Device::new(DeviceId::from_raw("phone"), UserId::from_raw("alice"), "Alice's phone", Timestamp(9));
    assert_eq!(read_device("phone", &device_value(&device)).expect("read"), device);
    for x in [Explicit::Checked { by: UserId::from_raw("bob"), at: Timestamp(7) }, Explicit::Unchecked] {
        assert_eq!(read_explicit(&explicit_value(&x), "overlay.salt").expect("read"), x);
    }
    let entries = [
        ListEntry {
            id: ListEntryId::from_raw("e1"),
            item: ListItem::Recipe { recipe: RecipeId::from_raw("tart"), servings: nz(6) },
            added_by: UserId::from_raw("alice"),
            added_at: Timestamp(5),
        },
        ListEntry {
            id: ListEntryId::from_raw("e2"),
            item: ListItem::Ingredient {
                ingredient: IngredientId::from_raw("milk"),
                quantity: Quantity::new(Rational::new(1, 3), ML),
            },
            added_by: UserId::from_raw("bob"),
            added_at: Timestamp(6),
        },
    ];
    for e in entries {
        assert_eq!(read_list_entry(&list_entry_value(&e), "list[0]").expect("read"), e);
    }
    let event = Event::new(
        Timestamp(3),
        UserId::from_raw("alice"),
        Action::Deleted,
        Subject::ListEntry(ListEntryId::from_raw("e1")),
        "Tart",
    );
    assert_eq!(read_event(&event_value(&event), "events[0]").expect("read"), event);
}

#[test]
fn a_third_of_a_millilitre_is_still_a_third_after_a_round_trip() {
    let back = read_recipe("tart", &recipe_value(&tart())).expect("read");
    match &back.components[0] {
        Component::Ingredient(u) => assert_eq!(u.quantity, Quantity::new(Rational::new(1, 3), ML)),
        other => panic!("expected the flour usage, got {other:?}"),
    }
}

#[test]
fn a_sub_recipe_needs_exactly_one_amount() {
    let both = map_of(vec![
        ("kind", s("sub_recipe")),
        ("id", s("u")),
        ("recipe", s("pastry")),
        ("factor", s("1/2")),
        ("of_yield", quantity_value(&Quantity::whole(200, G))),
    ]);
    let recipe = map_of(vec![
        ("name", s("Tart")),
        ("servings", Value::I64(4)),
        ("components", Value::List(vec![both])),
    ]);
    assert!(matches!(read_recipe("tart", &recipe), Err(StoreError::Corrupt { .. })));
    let none = map_of(vec![("kind", s("sub_recipe")), ("id", s("u")), ("recipe", s("pastry"))]);
    let recipe = map_of(vec![
        ("name", s("Tart")),
        ("servings", Value::I64(4)),
        ("components", Value::List(vec![none])),
    ]);
    assert!(read_recipe("tart", &recipe).is_err());
}

#[test]
fn absent_lists_read_as_empty_and_unknown_kinds_are_refused() {
    let bare = map_of(vec![("name", s("Toast")), ("servings", Value::I64(1))]);
    let r = read_recipe("toast", &bare).expect("read");
    assert!(r.components.is_empty() && r.steps.is_empty() && r.yields.is_none());
    let odd = map_of(vec![("kind", s("shelf")), ("id", s("e")), ("added_by", s("a")), ("added_at", Value::I64(1))]);
    assert!(read_list_entry(&odd, "list[0]").is_err());
    let odd_event = map_of(vec![
        ("at", Value::I64(1)),
        ("by", s("a")),
        ("action", s("created")),
        ("subject_kind", s("recipe")),
        ("subject_id", s("r")),
        ("label", s("R")),
    ]);
    assert!(read_event(&odd_event, "events[0]").is_err());
    assert!(read_explicit(&map_of(vec![("state", s("maybe"))]), "overlay.x").is_err());
    assert!(read_user("u", &s("not a map")).is_err());
}

#[test]
fn entities_come_back_ordered_by_id() {
    let root = map_of(vec![
        ("tomato", ingredient_value(&tomato())),
        ("flour", ingredient_value(&flour())),
    ]);
    let read = ingredients(&root).expect("read");
    assert_eq!(read, vec![flour(), tomato()]);
    let recipes_root = map_of(vec![("tart", recipe_value(&tart())), ("pastry", recipe_value(&pastry()))]);
    assert_eq!(recipes(&recipes_root).expect("read"), vec![pastry(), tart()]);
    let bob = User::new(UserId::from_raw("bob"), "Bob");
    let alice = User::new(UserId::from_raw("alice"), "Alice");
    let users_root = map_of(vec![("bob", user_value(&bob)), ("alice", user_value(&alice))]);
    assert_eq!(users(&users_root).expect("read"), vec![alice, bob]);
    let phone = Device::new(DeviceId::from_raw("phone"), UserId::from_raw("alice"), "Phone", Timestamp(1));
    assert_eq!(devices(&map_of(vec![("phone", device_value(&phone))])).expect("read"), vec![phone]);
    let broken = map_of(vec![("flour", map_of(vec![("name", s("Flour"))]))]);
    assert!(ingredients(&broken).is_err());
}

#[test]
fn an_empty_document_reads_as_empty_rather_than_failing() {
    let empty_map = Value::Table(Vec::new());
    let empty_list = Value::List(Vec::new());
    assert!(ingredients(&empty_map).expect("read").is_empty());
    assert!(recipes(&empty_map).expect("read").is_empty());
    assert!(users(&empty_map).expect("read").is_empty());
    assert!(devices(&empty_map).expect("read").is_empty());
    assert!(list(&empty_list).expect("read").entries.is_empty());
    assert!(overlay(&empty_map).expect("read").is_empty());
    assert!(events(&empty_list).expect("read").events.is_empty());
}

#[test]
fn the_list_the_overlay_and_the_log_read_in_place() {
    let e1 = ListEntry {
        id: ListEntryId::from_raw("e1"),
        item: ListItem::Recipe { recipe: RecipeId::from_raw("tart"), servings: nz(2) },
        added_by: UserId::from_raw("alice"),
        added_at: Timestamp(1),
    };
    let e2 = ListEntry {
        id: ListEntryId::from_raw("e2"),
        item: ListItem::Ingredient { ingredient: IngredientId::from_raw("salt"), quantity: Quantity::whole(1, G) },
        added_by: UserId::from_raw("bob"),
        added_at: Timestamp(2),
    };
    let root = Value::List(vec![list_entry_value(&e2), list_entry_value(&e1), list_entry_value(&e2)]);
    let read = list(&root).expect("read");
    assert_eq!(read.entries, vec![e2.clone(), e1.clone(), e2.clone()]);
    assert_eq!(list_positions(&root, &ListEntryId::from_raw("e2")).expect("read"), vec![0, 2]);
    assert_eq!(list_positions(&root, &ListEntryId::from_raw("e9")).expect("read"), Vec::<usize>::new());

    let checked = Explicit::Checked { by: UserId::from_raw("bob"), at: Timestamp(4) };
    let ov = map_of(vec![("salt", explicit_value(&checked)), ("flour", explicit_value(&Explicit::Unchecked))]);
    let read = overlay(&ov).expect("read");
    assert_eq!(read.get(&IngredientId::from_raw("salt")), Some(&checked));
    assert_eq!(read.get(&IngredientId::from_raw("flour")), Some(&Explicit::Unchecked));
    assert_eq!(read.get(&IngredientId::from_raw("milk")), None);

    let event = Event::new(Timestamp(1), UserId::from_raw("alice"), Action::Edited, Subject::Recipe(RecipeId::from_raw("tart")), "Tart");
    let log = events(&Value::List(vec![event_value(&event)])).expect("read");
    assert_eq!(log.events, vec![event]);
}

#[test]
fn the_log_loses_only_what_exceeds_the_cap() {
    assert_eq!(excess_events(240), 40);
    assert_eq!(excess_events(200), 0);
    assert_eq!(excess_events(3), 0);
}

#[test]
fn a_document_from_the_future_is_refused_rather_than_half_read() {
    let meta = map_of(vec![("schema", Value::I64(SCHEMA_VERSION + 1))]);
    match check_schema(&meta) {
        Err(StoreError::FutureSchema { found, supported }) => {
            assert_eq!(found, SCHEMA_VERSION + 1);
            assert_eq!(supported, SCHEMA_VERSION);
        },
        other => panic!("expected FutureSchema, got {other:?}"),
    }
    assert!(check_schema(&map_of(vec![("schema", Value::I64(SCHEMA_VERSION))])).is_ok());
    assert!(check_schema(&Value::Table(Vec::new())).is_ok());
    assert!(matches!(check_schema(&map_of(vec![("schema", s("1"))])), Err(StoreError::Corrupt { .. })));
    assert!(matches!(check_schema(&Value::Null), Err(StoreError::Corrupt { .. })));
}

#[test]
fn store_errors_read_as_sentences() {
    assert_eq!(
        StoreError::FutureSchema { found: 2, supported: 1 }.message(),
        "document schema v2 was written by a newer version of cabas (this build understands v1) \u{2014} update the app"
    );
    assert_eq!(
        StoreError::corrupt("recipes.tart", "expected a map").message(),
        "corrupt document at recipes.tart: expected a map"
    );
    assert_eq!(StoreError::Io("disk full".into()).message(), "storage: disk full");
    assert_eq!(StoreError::Crdt("detached".into()).message(), "crdt: detached");
    assert_eq!(StoreError::Snapshot("truncated".into()).message(), "snapshot: truncated");
}

#[test]
fn backends_remember_where_they_keep_the_document() {
    let file = FileStorage::new("/var/lib/cabas/cabas.loro");
    assert_eq!(file.path(), "/var/lib/cabas/cabas.loro");
    assert_eq!(IndexedDbStorage::new().database(), "cabas");
    assert_eq!(IndexedDbStorage::with_database("test-run").database(), "test-run");
    assert_eq!(IndexedDbStorage::default().database(), "cabas");
}

#[test]
fn missing_fields_are_reported_with_their_path() {
    let v = map_of(vec![("owner", s("alice"))]);
    match read_device("phone", &v) {
        Err(StoreError::Corrupt { path, detail }) => {
            assert_eq!(path, "devices.phone");
            assert_eq!(detail, "missing key \"name\"");
        },
        other => panic!("expected a corrupt device, got {other:?}"),
    }
}

fn library_recipe(r: usize) -> Recipe {
    let mut recipe = Recipe::new(RecipeId::from_raw(&format!("rec_{r:04}")), &format!("Recipe number {r}"), nz(4))
        .with_yield(Quantity::whole(500, G));
    for u in 0..8usize {
        let ingredient = (r * 8 + u) % 300;
        recipe = recipe.with_component(Component::Ingredient(IngredientUsage {
            id: UsageId::from_raw(&format!("u_{r:04}_{u}")),
            ingredient: IngredientId::from_raw(&format!("ing_{ingredient:04}")),
            quantity: Quantity::new(Rational::new((u as i128) + 1, 3), G),
        }));
    }
    for s in 0..6usize {
        recipe = recipe.with_step(Step {
            segments: vec![
                Segment::Text(format!("Step {s}: combine everything carefully and keep going. ")),
                Segment::Ingredient {
                    usage: UsageId::from_raw(&format!("u_{r:04}_{}", s % 8)),
                    display: RefDisplay::Full,
                },
                Segment::Text(" then rest for ten minutes.".into()),
            ],
        });
    }
    recipe
}

#[test]
fn reading_a_full_library_back_gives_the_same_recipes() {
    let expected: Vec<Recipe> = (0..200).map(library_recipe).collect();
    let root = Value::Table(
        expected.iter().rev().map(|r| (r.id.as_str().to_string(), recipe_value(r))).collect(),
    );
    let mut sorted = expected.clone();
    sorted.sort_by(|a, b| a.id.as_str().cmp(b.id.as_str()));
    assert_eq!(recipes(&root).expect("read"), sorted);
}
