//! The app: one replica, a command in, a whole state out.
//!
//! A command asks the domain for the rule and writes down what came out.
//! Adding an entry is the worked example: the domain's
//! [`ShoppingList::add`] both appends the entry *and* purges the
//! ingredient's overlay entry, and this layer applies both effects to the
//! document. The document here is the family's data as plain values; the
//! host that persists and replicates it mirrors what a command changed.

use vstd::prelude::*;

use crate::cart::{goes_away, unfinished, CartLine};
use crate::client::command::{
    Command, ComponentInput, IngredientInput, QuantityInput, RecipeInput, SegmentInput, StepInput,
    SubRecipeAmountInput,
};
use crate::client::error::AppError;
use crate::client::id::{mint, INGREDIENT, LIST_ENTRY, RECIPE, USAGE};
use crate::client::library::{
    device_at, put_user_in, text_of, updated_entries, user_at, Library,
};
use crate::client::number::{parse_amount, spec_amount};
use crate::client::platform::{Identity, Platform};
use crate::client::project::{journal_of, opt_text, projects, state, state_of, Focus, Projection};
use crate::client::tags::{aisle_of, display_of, unit_of};
use crate::client::view::StateView;
use crate::event::{spec_trim, Action, Event, EventLog, Subject};
use crate::ids::{IngredientId, ListEntryId, RecipeId, UsageId};
use crate::ingredient::{Aisle, Ingredient};
use crate::list::{entry_in, not_id, ListEntry, ListItem};
use crate::overlay::Explicit;
use crate::people::{Device, User};
use crate::quantity::Quantity;
use crate::rational::Rational;
use crate::recipe::{
    Component, IngredientUsage, Recipe, Segment, Servings, Step, SubRecipeAmount, SubRecipeUsage,
};
use crate::text::{chars_of, string_of, trim_chars, trimmed};
use crate::units::Unit;

verus! {

/// A typed amount, when it is one and greater than zero.
pub open spec fn amount_of(raw: Seq<char>) -> Option<Rational> {
    match spec_amount(raw) {
        Some(v) => if v.num() > 0 {
            Some(v)
        } else {
            None
        },
        None => None,
    }
}

/// A typed quantity, when its amount reads.
pub open spec fn quantity_of(q: QuantityInput) -> Option<Quantity> {
    match amount_of(q.amount@) {
        Some(v) => Some(Quantity { value: v, unit: unit_of(q.unit) }),
        None => None,
    }
}

/// A conversion coefficient as typed: `Some(None)` when absent or blank,
/// `Some(Some(v))` when it reads, `None` when it does not.
pub open spec fn coefficient_of(raw: Option<Seq<char>>) -> Option<Option<Rational>> {
    match raw {
        None => Some(None),
        Some(t) => if trimmed(t).len() == 0 {
            Some(None)
        } else {
            match amount_of(trimmed(t)) {
                Some(v) => Some(Some(v)),
                None => None,
            }
        },
    }
}

/// Trims `raw`, refusing what is left empty.
pub fn text(field: &'static str, raw: &str) -> (r: Result<String, AppError>)
    ensures
        trimmed(raw@).len() == 0 ==> (r matches Err(AppError::Invalid { field: f, detail }) && f
            == field && detail@ == "must not be empty"@),
        trimmed(raw@).len() > 0 ==> (r matches Ok(s) && s@ == trimmed(raw@)),
{
    let t = trim_chars(&chars_of(raw));
    if t.len() == 0 {
        let mut detail: Vec<char> = Vec::new();
        crate::text::push_str(&mut detail, "must not be empty");
        proof {
            assert(detail@ =~= "must not be empty"@);
        }
        return Err(AppError::invalid(field, string_of(&detail)));
    }
    Ok(string_of(&t))
}

/// A serving count: a recipe serves at least one person.
pub fn servings_count(servings: u32) -> (r: Result<Servings, AppError>)
    ensures
        servings == 0 ==> (r matches Err(AppError::Invalid { field, detail }) && field == "servings"
            && detail@ == "a recipe serves at least one person"@),
        servings > 0 ==> (r matches Ok(s) && s.count() == servings),
{
    match Servings::new(servings) {
        Some(s) => Ok(s),
        None => {
            let mut detail: Vec<char> = Vec::new();
            crate::text::push_str(&mut detail, "a recipe serves at least one person");
            proof {
                assert(detail@ =~= "a recipe serves at least one person"@);
            }
            Err(AppError::invalid("servings", string_of(&detail)))
        },
    }
}

/// A conversion coefficient: strictly positive, or absent. An empty field
/// means "not known", which keeps mass and volume on separate lines rather
/// than inventing a density.
pub fn coefficient(field: &'static str, raw: Option<&str>) -> (r: Result<Option<Rational>, AppError>)
    ensures
        match coefficient_of(text_of(raw)) {
            Some(c) => r == Ok::<Option<Rational>, AppError>(c),
            None => r matches Err(AppError::Invalid { field: f, .. }) && f == field,
        },
{
    match raw {
        None => Ok(None),
        Some(value) => {
            let t = trim_chars(&chars_of(value));
            if t.len() == 0 {
                return Ok(None);
            }
            let s = string_of(&t);
            match parse_amount(field, s.as_str()) {
                Ok(v) => Ok(Some(v)),
                Err(e) => Err(e),
            }
        },
    }
}

/// A typed quantity: its amount read exactly, in its unit.
pub fn quantity(field: &'static str, input: &QuantityInput) -> (r: Result<Quantity, AppError>)
    ensures
        match quantity_of(*input) {
            Some(q) => r == Ok::<Quantity, AppError>(q),
            None => r matches Err(AppError::Invalid { field: f, .. }) && f == field,
        },
{
    match parse_amount(field, input.amount.as_str()) {
        Ok(v) => Ok(Quantity::new(v, Unit::from(input.unit))),
        Err(e) => Err(e),
    }
}


/// The aliases kept from `aliases`: each trimmed, the empty ones dropped.
pub open spec fn kept_aliases(aliases: Seq<String>) -> Seq<Seq<char>>
    decreases aliases.len(),
{
    if aliases.len() == 0 {
        seq![]
    } else {
        let rest = kept_aliases(aliases.drop_last());
        let t = trimmed(aliases.last()@);
        if t.len() > 0 {
            rest.push(t)
        } else {
            rest
        }
    }
}

/// The texts of `strings`.
pub open spec fn texts(strings: Seq<String>) -> Seq<Seq<char>> {
    strings.map_values(|s: String| s@)
}

fn trim_aliases(aliases: &Vec<String>) -> (r: Vec<String>)
    ensures
        texts(r@) == kept_aliases(aliases@),
{
    let mut r: Vec<String> = Vec::new();
    let mut i: usize = 0;
    while i < aliases.len()
        invariant
            i <= aliases@.len(),
            texts(r@) == kept_aliases(aliases@.take(i as int)),
        decreases aliases@.len() - i,
    {
        proof {
            assert(aliases@.take(i + 1).drop_last() =~= aliases@.take(i as int));
        }
        let t = trim_chars(&chars_of(aliases[i].as_str()));
        if t.len() > 0 {
            let ghost before = r@;
            r.push(string_of(&t));
            proof {
                assert(texts(r@) =~= texts(before).push(t@));
            }
        }
        i = i + 1;
    }
    proof {
        assert(aliases@.take(i as int) =~= aliases@);
    }
    r
}

/// `i` is the ingredient a save of `input` files under `id`, with
/// coefficients `density` and `unit_weight`.
pub open spec fn ingredient_from(i: Ingredient, input: IngredientInput, id: Seq<char>, density: Option<Rational>, unit_weight: Option<Rational>) -> bool {
    &&& i.id@ == id
    &&& i.name@ == trimmed(input.name@)
    &&& texts(i.aliases@) == kept_aliases(input.aliases@)
    &&& i.aisle == aisle_of(input.aisle)
    &&& i.staple == input.staple
    &&& i.density == density
    &&& i.unit_weight == unit_weight
}

/// A recipe line as typed.
pub open spec fn component_from(c: Component, input: ComponentInput) -> bool {
    match input {
        ComponentInput::Ingredient { id, ingredient, quantity } => c matches Component::Ingredient(u)
            && (id matches Some(s) ==> u.id@ == s@) && u.ingredient@ == ingredient@ && quantity_of(quantity)
            == Some(u.quantity),
        ComponentInput::SubRecipe { id, recipe, amount } => c matches Component::SubRecipe(s) && (id matches Some(t)
            ==> s.id@ == t@) && s.recipe@ == recipe@ && match amount {
            SubRecipeAmountInput::Factor { factor } => s.amount matches SubRecipeAmount::Factor(v)
                && amount_of(factor@) == Some(v),
            SubRecipeAmountInput::OfYield { quantity } => s.amount matches SubRecipeAmount::OfYield(q)
                && quantity_of(quantity) == Some(q),
        },
    }
}

/// Whether every amount of a recipe line reads.
pub open spec fn component_reads(input: ComponentInput) -> bool {
    match input {
        ComponentInput::Ingredient { quantity, .. } => quantity_of(quantity) is Some,
        ComponentInput::SubRecipe { amount, .. } => match amount {
            SubRecipeAmountInput::Factor { factor } => amount_of(factor@) is Some,
            SubRecipeAmountInput::OfYield { quantity } => quantity_of(quantity) is Some,
        },
    }
}

/// Whether a recipe line names the id it is saved under.
pub open spec fn component_named(input: ComponentInput) -> bool {
    match input {
        ComponentInput::Ingredient { id, .. } => id is Some,
        ComponentInput::SubRecipe { id, .. } => id is Some,
    }
}

/// The id a recipe line names, if any.
pub open spec fn line_id(input: ComponentInput) -> Option<String> {
    match input {
        ComponentInput::Ingredient { id, .. } => id,
        ComponentInput::SubRecipe { id, .. } => id,
    }
}

/// The usage id a recipe line is filed under.
pub open spec fn usage_id(c: Component) -> Seq<char> {
    match c {
        Component::Ingredient(u) => u.id@,
        Component::SubRecipe(s) => s.id@,
    }
}

/// A step segment as typed.
pub open spec fn segment_from(s: Segment, input: SegmentInput) -> bool {
    match input {
        SegmentInput::Text { text } => s matches Segment::Text(t) && t@ == text@,
        SegmentInput::Ingredient { usage, display } => s matches Segment::Ingredient { usage: u, display: d }
            && u@ == usage@ && d == display_of(display),
    }
}

/// `r` is the recipe a save of `input` files under `id`.
pub open spec fn recipe_from(r: Recipe, input: RecipeInput, id: Seq<char>) -> bool {
    &&& r.id@ == id
    &&& r.name@ == trimmed(input.name@)
    &&& r.servings.count() == input.servings
    &&& match input.yields {
        Some(q) => r.yields is Some && quantity_of(q) == Some(r.yields->0),
        None => r.yields is None,
    }
    &&& r.components@.len() == input.components@.len()
    &&& (forall|i: int| 0 <= i < r.components@.len() ==> component_from(#[trigger] r.components@[i], input.components@[i]))
    &&& r.steps@.len() == input.steps@.len()
    &&& forall|i: int| 0 <= i < r.steps@.len() ==> step_from(#[trigger] r.steps@[i], input.steps@[i])
}

/// A step as typed.
pub open spec fn step_from(s: Step, input: StepInput) -> bool {
    &&& s.segments@.len() == input.segments@.len()
    &&& forall|j: int| 0 <= j < s.segments@.len() ==> segment_from(#[trigger] s.segments@[j], input.segments@[j])
}

/// Whether everything typed into a recipe form reads: a name, at least one
/// serving, and every amount.
pub open spec fn recipe_reads(input: RecipeInput) -> bool {
    &&& trimmed(input.name@).len() > 0
    &&& input.servings > 0
    &&& (input.yields matches Some(q) ==> quantity_of(q) is Some)
    &&& forall|i: int| 0 <= i < input.components@.len() ==> component_reads(#[trigger] input.components@[i])
}

/// Whether a recipe form names every id it is saved under, so nothing need
/// be minted.
pub open spec fn recipe_named(input: RecipeInput) -> bool {
    &&& input.id is Some
    &&& forall|i: int| 0 <= i < input.components@.len() ==> component_named(#[trigger] input.components@[i])
}

/// A step, as typed.
fn step_of(input: &StepInput) -> (s: Step)
    ensures
        step_from(s, *input),
{
    let mut segments: Vec<Segment> = Vec::new();
    let mut i: usize = 0;
    while i < input.segments.len()
        invariant
            i <= input.segments@.len(),
            segments@.len() == i,
            forall|k: int| 0 <= k < i ==> segment_from(#[trigger] segments@[k], input.segments@[k]),
        decreases input.segments@.len() - i,
    {
        let segment = match &input.segments[i] {
            SegmentInput::Text { text } => Segment::Text(text.as_str().to_owned()),
            SegmentInput::Ingredient { usage, display } => Segment::Ingredient {
                usage: UsageId::from_raw(usage.as_str()),
                display: crate::recipe::RefDisplay::from(*display),
            },
        };
        segments.push(segment);
        i = i + 1;
    }
    Step { segments }
}

/// One replica, and what this device keeps beside it: who it is, which
/// recipe is open, and how far the screen and the saves have got.
pub struct App<P: Platform> {
    platform: P,
    identity: Identity,
    library: Library,
    events: EventLog,
    /// Which recipe is open. Device-local: not a source, never synced.
    focus: Option<Focus>,
    /// Incremented on every state pushed, so a frontend can tell a new state
    /// from a re-render.
    revision: u64,
    /// The revision at which the document last changed, and the last one
    /// written to storage. Two counters rather than a dirty flag: opening a
    /// recipe pushes a new state without touching the document.
    changed_at: u64,
    saved_at: u64,
}


/// Every part of the document but the ingredients is as it was.
pub open spec fn keeps_all_but_ingredients(a: Library, b: Library) -> bool {
    &&& a.recipes == b.recipes
    &&& a.list == b.list
    &&& a.overlay == b.overlay
    &&& a.users == b.users
    &&& a.devices == b.devices
}

/// Every part of the document but the recipes is as it was.
pub open spec fn keeps_all_but_recipes(a: Library, b: Library) -> bool {
    &&& a.ingredients == b.ingredients
    &&& a.list == b.list
    &&& a.overlay == b.overlay
    &&& a.users == b.users
    &&& a.devices == b.devices
}

/// Every part of the document but the list and the overlay is as it was.
pub open spec fn keeps_all_but_list(a: Library, b: Library) -> bool {
    &&& a.ingredients == b.ingredients
    &&& a.recipes == b.recipes
    &&& a.users == b.users
    &&& a.devices == b.devices
}

/// `new_events` is `old_events` with one more event, recorded by
/// `identity`'s user: `action`, labelled `label`, on a subject `about`
/// accepts.
pub open spec fn logged(
    old_events: Seq<Event>,
    new_events: Seq<Event>,
    identity: Identity,
    action: Action,
    label: Seq<char>,
    about: spec_fn(Subject) -> bool,
) -> bool {
    exists|e: Event|
        #![trigger spec_trim(old_events.push(e), 200)]
        e.by@ == identity.user@ && e.action == action && e.label@ == label && about(e.subject)
            && new_events == spec_trim(old_events.push(e), 200)
}

/// The subject is the ingredient `id`.
pub open spec fn about_ingredient(id: Seq<char>) -> spec_fn(Subject) -> bool {
    |s: Subject| s matches Subject::Ingredient(x) && x@ == id
}

/// The subject is the recipe `id`.
pub open spec fn about_recipe(id: Seq<char>) -> spec_fn(Subject) -> bool {
    |s: Subject| s matches Subject::Recipe(x) && x@ == id
}

/// The subject is the list entry `id`.
pub open spec fn about_entry(id: Seq<char>) -> spec_fn(Subject) -> bool {
    |s: Subject| s matches Subject::ListEntry(x) && x@ == id
}

/// Every part of the document but the people is as it was.
pub open spec fn keeps_all_but_people(a: Library, b: Library) -> bool {
    &&& a.recipes == b.recipes
    &&& a.ingredients == b.ingredients
    &&& a.list == b.list
    &&& a.overlay == b.overlay
}

/// `after` is `before` with `identity`'s user and device added where they
/// were missing — and nothing else changed about the people.
pub open spec fn enrolled(before: Library, after: Library, identity: Identity) -> bool {
    &&& user_at(after.users@, identity.user@) is Some
    &&& device_at(after.devices@, identity.device@) is Some
    &&& user_at(before.users@, identity.user@) is Some ==> after.users@ == before.users@
    &&& user_at(before.users@, identity.user@) is None ==> {
        &&& after.users@.len() == before.users@.len() + 1
        &&& after.users@.drop_last() == before.users@
        &&& after.users@.last().id@ == identity.user@
        &&& after.users@.last().name@ == identity.user_name@
    }
    &&& device_at(before.devices@, identity.device@) is Some ==> after.devices@ == before.devices@
    &&& device_at(before.devices@, identity.device@) is None ==> {
        &&& after.devices@.len() == before.devices@.len() + 1
        &&& after.devices@.drop_last() == before.devices@
        &&& after.devices@.last().id@ == identity.device@
        &&& after.devices@.last().owner@ == identity.user@
        &&& after.devices@.last().name@ == identity.device_name@
    }
}

/// Nothing in the document changed.
pub open spec fn unchanged(old_lib: Library, new_lib: Library, old_ev: Seq<Event>, new_ev: Seq<Event>) -> bool {
    new_lib == old_lib && new_ev == old_ev
}

/// The document after saving the ingredient form `input` under `id`.
pub open spec fn saved_ingredient(old_lib: Library, new_lib: Library, old_ev: Seq<Event>, new_ev: Seq<Event>, identity: Identity, input: IngredientInput, id: Seq<char>) -> bool {
    &&& new_lib.ingredients.spec_get(id) matches Some(i) && ingredient_from(
        i,
        input,
        id,
        coefficient_of(opt_text(input.density))->0,
        coefficient_of(opt_text(input.unit_weight))->0,
    )
    &&& forall|k: Seq<char>| k != id ==> new_lib.ingredients.spec_get(k) == old_lib.ingredients.spec_get(k)
    &&& keeps_all_but_ingredients(new_lib, old_lib)
    &&& if old_lib.ingredients.spec_get(id) is Some {
        logged(old_ev, new_ev, identity, Action::Edited, trimmed(input.name@), about_ingredient(id))
    } else {
        new_ev == old_ev
    }
}

/// What saving the ingredient form `input` does: an edit of an existing
/// ingredient is logged, a creation is not — it is already attributed on the
/// object itself.
pub open spec fn save_ingredient_done(old_lib: Library, new_lib: Library, old_ev: Seq<Event>, new_ev: Seq<Event>, identity: Identity, input: IngredientInput, r: Result<bool, AppError>) -> bool {
    &&& trimmed(input.name@).len() == 0 ==> (r matches Err(AppError::Invalid { field, .. }) && field == "name")
    &&& (input.id is Some && trimmed(input.name@).len() > 0) ==> (r is Ok <==> (coefficient_of(opt_text(input.density)) is Some && coefficient_of(opt_text(input.unit_weight)) is Some))
    &&& r is Err ==> unchanged(old_lib, new_lib, old_ev, new_ev)
    &&& r is Ok ==> (r == Ok::<bool, AppError>(true) && exists|id: Seq<char>| (input.id matches Some(s) ==> id == s@) && #[trigger] saved_ingredient(old_lib, new_lib, old_ev, new_ev, identity, input, id))
}

/// What deleting the ingredient `id` does. Recipes that still use it are
/// left alone: the dangling reference is reported, never prevented.
pub open spec fn delete_ingredient_done(old_lib: Library, new_lib: Library, old_ev: Seq<Event>, new_ev: Seq<Event>, identity: Identity, id: Seq<char>, r: Result<bool, AppError>) -> bool {
    match old_lib.ingredients.spec_get(id) {
        None => (r matches Err(AppError::NotFound { kind, id: x }) && kind == "ingredient" && x@ == id)
            && unchanged(old_lib, new_lib, old_ev, new_ev),
        Some(i) => {
            &&& r == Ok::<bool, AppError>(true)
            &&& new_lib.ingredients.spec_get(id) is None
            &&& forall|k: Seq<char>| k != id ==> new_lib.ingredients.spec_get(k) == old_lib.ingredients.spec_get(k)
            &&& keeps_all_but_ingredients(new_lib, old_lib)
            &&& logged(old_ev, new_ev, identity, Action::Deleted, i.name@, about_ingredient(id))
        },
    }
}

/// The document after saving the recipe form `input` under `id`.
pub open spec fn saved_recipe(old_lib: Library, new_lib: Library, old_ev: Seq<Event>, new_ev: Seq<Event>, identity: Identity, input: RecipeInput, id: Seq<char>) -> bool {
    &&& new_lib.recipes.spec_get(id) matches Some(x) && recipe_from(x, input, id)
    &&& forall|k: Seq<char>| k != id ==> new_lib.recipes.spec_get(k) == old_lib.recipes.spec_get(k)
    &&& keeps_all_but_recipes(new_lib, old_lib)
    &&& if old_lib.recipes.spec_get(id) is Some {
        logged(old_ev, new_ev, identity, Action::Edited, trimmed(input.name@), about_recipe(id))
    } else {
        new_ev == old_ev
    }
}

/// What saving the recipe form `input` does. Refused when anything typed
/// does not read; otherwise refused only when an id had to be minted and
/// the platform had no randomness to mint it from.
pub open spec fn save_recipe_done(old_lib: Library, new_lib: Library, old_ev: Seq<Event>, new_ev: Seq<Event>, identity: Identity, input: RecipeInput, r: Result<bool, AppError>) -> bool {
    &&& trimmed(input.name@).len() == 0 ==> (r matches Err(AppError::Invalid { field, .. }) && field == "name")
    &&& !recipe_reads(input) ==> r is Err
    &&& recipe_named(input) ==> (r is Ok <==> recipe_reads(input))
    &&& r is Err ==> unchanged(old_lib, new_lib, old_ev, new_ev)
    &&& r is Ok ==> (r == Ok::<bool, AppError>(true) && exists|id: Seq<char>| (input.id matches Some(s) ==> id == s@) && #[trigger] saved_recipe(old_lib, new_lib, old_ev, new_ev, identity, input, id))
}

/// What deleting the recipe `id` does.
pub open spec fn delete_recipe_done(old_lib: Library, new_lib: Library, old_ev: Seq<Event>, new_ev: Seq<Event>, identity: Identity, id: Seq<char>, r: Result<bool, AppError>) -> bool {
    match old_lib.recipes.spec_get(id) {
        None => (r matches Err(AppError::NotFound { kind, id: x }) && kind == "recipe" && x@ == id)
            && unchanged(old_lib, new_lib, old_ev, new_ev),
        Some(x) => {
            &&& r == Ok::<bool, AppError>(true)
            &&& new_lib.recipes.spec_get(id) is None
            &&& forall|k: Seq<char>| k != id ==> new_lib.recipes.spec_get(k) == old_lib.recipes.spec_get(k)
            &&& keeps_all_but_recipes(new_lib, old_lib)
            &&& logged(old_ev, new_ev, identity, Action::Deleted, x.name@, about_recipe(id))
        },
    }
}

/// The list gained one entry at its end, added by `identity`'s user, whose
/// item `item` accepts.
pub open spec fn appended(old_lib: Library, new_lib: Library, identity: Identity, item: spec_fn(ListItem) -> bool) -> bool {
    &&& new_lib.list.entries@.len() == old_lib.list.entries@.len() + 1
    &&& new_lib.list.entries@.drop_last() == old_lib.list.entries@
    &&& new_lib.list.entries@.last().added_by@ == identity.user@
    &&& item(new_lib.list.entries@.last().item)
}

/// What putting the recipe `recipe` on the list for `servings` does.
pub open spec fn add_recipe_done(old_lib: Library, new_lib: Library, old_ev: Seq<Event>, new_ev: Seq<Event>, identity: Identity, recipe: Seq<char>, servings: u32, r: Result<bool, AppError>) -> bool {
    &&& new_ev == old_ev
    &&& if old_lib.recipes.spec_get(recipe) is None {
        (r matches Err(AppError::NotFound { kind, id }) && kind == "recipe" && id@ == recipe) && new_lib == old_lib
    } else if servings == 0 {
        (r matches Err(AppError::Invalid { field, .. }) && field == "servings") && new_lib == old_lib
    } else {
        &&& r is Err ==> new_lib == old_lib
        &&& r is Ok ==> {
            &&& r == Ok::<bool, AppError>(true)
            &&& keeps_all_but_list(new_lib, old_lib)
            &&& new_lib.overlay == old_lib.overlay
            &&& appended(old_lib, new_lib, identity, |item: ListItem| item matches ListItem::Recipe { recipe: x, servings: s } && x@ == recipe && s.count() == servings)
        }
    }
}

/// What putting `quantity` of the ingredient `ingredient` on the list does:
/// besides the entry, the ingredient's tick goes, so an auto-checked staple
/// or an item ticked earlier in the trip comes back into view.
pub open spec fn add_ingredient_done(old_lib: Library, new_lib: Library, old_ev: Seq<Event>, new_ev: Seq<Event>, identity: Identity, ingredient: Seq<char>, quantity: QuantityInput, r: Result<bool, AppError>) -> bool {
    &&& new_ev == old_ev
    &&& if old_lib.ingredients.spec_get(ingredient) is None {
        (r matches Err(AppError::NotFound { kind, id }) && kind == "ingredient" && id@ == ingredient) && new_lib == old_lib
    } else if quantity_of(quantity) is None {
        (r matches Err(AppError::Invalid { field, .. }) && field == "quantity") && new_lib == old_lib
    } else {
        &&& r is Err ==> new_lib == old_lib
        &&& r is Ok ==> {
            &&& r == Ok::<bool, AppError>(true)
            &&& keeps_all_but_list(new_lib, old_lib)
            &&& new_lib.overlay.spec_get(ingredient) is None
            &&& forall|k: Seq<char>| k != ingredient ==> new_lib.overlay.spec_get(k) == old_lib.overlay.spec_get(k)
            &&& appended(old_lib, new_lib, identity, |item: ListItem| item matches ListItem::Ingredient { ingredient: x, quantity: q } && x@ == ingredient && quantity_of(quantity) == Some(q))
        }
    }
}

/// What changing the servings of list entry `entry` does.
pub open spec fn set_servings_done(old_lib: Library, new_lib: Library, old_ev: Seq<Event>, new_ev: Seq<Event>, entry: Seq<char>, servings: u32, r: Result<bool, AppError>) -> bool {
    &&& new_ev == old_ev
    &&& match entry_in(old_lib.list.entries@, entry) {
        None => (r matches Err(AppError::NotFound { kind, id }) && kind == "list entry" && id@ == entry) && new_lib == old_lib,
        Some(e) => match e.item {
            ListItem::Ingredient { .. } => (r matches Err(AppError::Invalid { field, detail }) && field == "servings"
                && detail@ == "a bare ingredient on the list has no serving count"@) && new_lib == old_lib,
            ListItem::Recipe { recipe, .. } => if servings == 0 {
                (r matches Err(AppError::Invalid { field, .. }) && field == "servings") && new_lib == old_lib
            } else {
                &&& r == Ok::<bool, AppError>(true)
                &&& keeps_all_but_list(new_lib, old_lib)
                &&& new_lib.overlay == old_lib.overlay
                &&& exists|s: Servings|
                    #![trigger s.count()]
                    s.count() == servings && new_lib.list.entries@ == updated_entries(
                        old_lib.list.entries@,
                        ListEntry { id: e.id, item: ListItem::Recipe { recipe, servings: s }, added_by: e.added_by, added_at: e.added_at },
                    )
            },
        },
    }
}

/// What an entry is called in the log once it is gone: its recipe's or
/// ingredient's name, or that one's id when the library lost it too.
pub open spec fn entry_label(library: Library, e: ListEntry) -> Seq<char> {
    match e.item {
        ListItem::Recipe { recipe, .. } => match library.recipes.spec_get(recipe@) {
            Some(x) => x.name@,
            None => recipe@,
        },
        ListItem::Ingredient { ingredient, .. } => match library.spec_ingredient_name(ingredient@) {
            Some(n) => n,
            None => ingredient@,
        },
    }
}

/// What removing list entry `entry` does.
pub open spec fn remove_entry_done(old_lib: Library, new_lib: Library, old_ev: Seq<Event>, new_ev: Seq<Event>, identity: Identity, entry: Seq<char>, r: Result<bool, AppError>) -> bool {
    match entry_in(old_lib.list.entries@, entry) {
        None => (r matches Err(AppError::NotFound { kind, id }) && kind == "list entry" && id@ == entry)
            && unchanged(old_lib, new_lib, old_ev, new_ev),
        Some(e) => {
            &&& r == Ok::<bool, AppError>(true)
            &&& keeps_all_but_list(new_lib, old_lib)
            &&& new_lib.overlay == old_lib.overlay
            &&& new_lib.list.entries@ == old_lib.list.entries@.filter(not_id(entry))
            &&& logged(old_ev, new_ev, identity, Action::Deleted, entry_label(old_lib, e), about_entry(entry))
        },
    }
}

/// The first of `lines` for ingredient `ingredient` is at `i`.
pub open spec fn first_line_at(lines: Seq<CartLine>, ingredient: Seq<char>, i: int) -> bool {
    &&& 0 <= i < lines.len()
    &&& lines[i].ingredient@ == ingredient
    &&& forall|j: int| 0 <= j < i ==> (#[trigger] lines[j]).ingredient@ != ingredient
}

/// What one tap on the cart line of `ingredient` does. It reads the
/// *derived* state rather than the overlay, which is what makes unchecking
/// an auto-checked staple work: there is no explicit entry to remove, so the
/// tap stores an explicit `Unchecked` — without it the next derivation would
/// put the staple straight back.
pub open spec fn toggle_done(old_lib: Library, new_lib: Library, old_ev: Seq<Event>, new_ev: Seq<Event>, identity: Identity, ingredient: Seq<char>, r: Result<bool, AppError>) -> bool {
    &&& new_ev == old_ev
    &&& exists|p: Projection|
        #![trigger projects(p, old_lib)]
        projects(p, old_lib) && if exists|i: int| 0 <= i < p.cart.lines@.len() && (#[trigger] p.cart.lines@[i]).ingredient@ == ingredient {
            &&& r == Ok::<bool, AppError>(true)
            &&& keeps_all_but_list(new_lib, old_lib)
            &&& new_lib.list == old_lib.list
            &&& forall|k: Seq<char>| k != ingredient ==> new_lib.overlay.spec_get(k) == old_lib.overlay.spec_get(k)
            &&& exists|i: int|
                #![trigger first_line_at(p.cart.lines@, ingredient, i)]
                first_line_at(p.cart.lines@, ingredient, i) && (new_lib.overlay.spec_get(ingredient) matches Some(x) && if p.cart.lines@[i].state.spec_is_settled() {
                    x == Explicit::Unchecked
                } else {
                    x matches Explicit::Checked { by, .. } && by@ == identity.user@
                })
        } else {
            (r matches Err(AppError::NotFound { kind, id }) && kind == "cart line" && id@ == ingredient) && new_lib == old_lib
        }
}

/// What ending the trip does: completed entries leave the list, and the
/// overlay is pruned *selectively* — an ingredient shared with an entry
/// that is staying keeps its tick.
pub open spec fn finish_done(old_lib: Library, new_lib: Library, old_ev: Seq<Event>, new_ev: Seq<Event>, r: Result<bool, AppError>) -> bool {
    &&& new_ev == old_ev
    &&& r == Ok::<bool, AppError>(true)
    &&& keeps_all_but_list(new_lib, old_lib)
    &&& exists|p: Projection|
        #![trigger projects(p, old_lib)]
        projects(p, old_lib) && new_lib.list.entries@ == old_lib.list.entries@.filter(unfinished(p.cart.lines@))
            && forall|k: Seq<char>|
            #![trigger new_lib.overlay.spec_get(k)]
            new_lib.overlay.spec_get(k) == if exists|i: int|
                0 <= i < p.cart.lines@.len() && (#[trigger] p.cart.lines@[i]).ingredient@ == k && goes_away(
                    p.cart.lines@[i],
                    old_lib.list.entries@,
                    p.cart.lines@,
                ) {
                None
            } else {
                old_lib.overlay.spec_get(k)
            }
}

/// What one command does to the document and to what this device has open.
pub open spec fn ran(
    old_lib: Library,
    new_lib: Library,
    old_ev: Seq<Event>,
    new_ev: Seq<Event>,
    old_focus: Option<Focus>,
    new_focus: Option<Focus>,
    identity: Identity,
    command: Command,
    r: Result<bool, AppError>,
) -> bool {
    &&& match command {
        Command::OpenRecipe { .. } => true,
        Command::CloseRecipe => true,
        _ => new_focus == old_focus,
    }
    &&& match command {
        Command::SaveIngredient { ingredient } => save_ingredient_done(old_lib, new_lib, old_ev, new_ev, identity, ingredient, r),
        Command::DeleteIngredient { ingredient } => delete_ingredient_done(old_lib, new_lib, old_ev, new_ev, identity, ingredient@, r),
        Command::SaveRecipe { recipe } => save_recipe_done(old_lib, new_lib, old_ev, new_ev, identity, recipe, r),
        Command::DeleteRecipe { recipe } => delete_recipe_done(old_lib, new_lib, old_ev, new_ev, identity, recipe@, r),
        Command::AddRecipeToList { recipe, servings } => add_recipe_done(old_lib, new_lib, old_ev, new_ev, identity, recipe@, servings, r),
        Command::AddIngredientToList { ingredient, quantity } => add_ingredient_done(old_lib, new_lib, old_ev, new_ev, identity, ingredient@, quantity, r),
        Command::SetEntryServings { entry, servings } => set_servings_done(old_lib, new_lib, old_ev, new_ev, entry@, servings, r),
        Command::RemoveListEntry { entry } => remove_entry_done(old_lib, new_lib, old_ev, new_ev, identity, entry@, r),
        Command::ToggleCartItem { ingredient } => toggle_done(old_lib, new_lib, old_ev, new_ev, identity, ingredient@, r),
        Command::FinishShopping => finish_done(old_lib, new_lib, old_ev, new_ev, r),
        Command::OpenRecipe { recipe, servings } => {
            &&& unchanged(old_lib, new_lib, old_ev, new_ev)
            &&& if old_lib.recipes.spec_get(recipe@) is None {
                (r matches Err(AppError::NotFound { kind, id }) && kind == "recipe" && id@ == recipe@) && new_focus == old_focus
            } else if servings == Some(0u32) {
                (r matches Err(AppError::Invalid { field, .. }) && field == "servings") && new_focus == old_focus
            } else {
                r == Ok::<bool, AppError>(false) && (new_focus matches Some(f) && f.recipe@ == recipe@ && match servings {
                    Some(n) => f.servings matches Some(s) && s.count() == n,
                    None => f.servings is None,
                })
            }
        },
        Command::CloseRecipe => unchanged(old_lib, new_lib, old_ev, new_ev) && new_focus is None && r == Ok::<bool, AppError>(false),
        Command::RenameUser { name } => {
            &&& new_ev == old_ev
            &&& if trimmed(name@).len() == 0 {
                (r matches Err(AppError::Invalid { field, .. }) && field == "name") && new_lib == old_lib
            } else {
                &&& r == Ok::<bool, AppError>(true)
                &&& keeps_all_but_people(new_lib, old_lib)
                &&& new_lib.devices == old_lib.devices
                &&& exists|u: User|
                    #![trigger put_user_in(old_lib.users@, u)]
                    u.id@ == identity.user@ && u.name@ == trimmed(name@) && new_lib.users@ == put_user_in(old_lib.users@, u)
            }
        },
    }
}

impl<P: Platform> App<P> {
    pub closed spec fn spec_library(self) -> Library {
        self.library
    }

    pub closed spec fn spec_events(self) -> Seq<Event> {
        self.events.events@
    }

    pub closed spec fn spec_identity(self) -> Identity {
        self.identity
    }

    pub closed spec fn spec_focus(self) -> Option<Focus> {
        self.focus
    }

    pub closed spec fn spec_revision(self) -> u64 {
        self.revision
    }

    pub closed spec fn spec_changed_at(self) -> u64 {
        self.changed_at
    }

    pub closed spec fn spec_saved_at(self) -> u64 {
        self.saved_at
    }

    /// Opens the app on a replica read back from storage — or an empty one on
    /// a first run — and makes sure this device and its owner are in it.
    ///
    /// Only ever *adds*. The name in the document wins over the one passed
    /// in, because another device may have renamed the person since this one
    /// last launched, and a launch is not a rename.
    pub fn open(platform: P, identity: Identity, library: Library, events: EventLog) -> (app: App<P>)
        ensures
            app.spec_identity() == identity,
            app.spec_focus() is None,
            app.spec_events() == events.events@,
            keeps_all_but_people(app.spec_library(), library),
            enrolled(library, app.spec_library(), identity),
    {
        let mut app = App {
            platform,
            identity,
            library,
            events,
            focus: None,
            revision: 0,
            changed_at: 0,
            saved_at: 0,
        };
        app.enrol();
        app
    }

    fn enrol(&mut self)
        ensures
            final(self).identity == old(self).identity,
            final(self).focus == old(self).focus,
            final(self).events == old(self).events,
            keeps_all_but_people(final(self).library, old(self).library),
            enrolled(old(self).library, final(self).library, old(self).identity),
    {
        let user = self.identity.user_id();
        let ghost before = self.library;
        if !self.library.has_user(&user) {
            self.library.put_user(User::new(user.clone(), self.identity.user_name.as_str()));
            self.mark_changed();
            proof {
                let users = self.library.users@;
                assert(users == before.users@.push(users.last()));
                assert(users.drop_last() =~= before.users@);
                assert(users[users.len() - 1].id@ == self.identity.user@);
            }
        }
        let ghost middle = self.library;
        let device = self.identity.device_id();
        if !self.library.has_device(&device) {
            let now = self.platform.now();
            self.library.put_device(Device::new(device, user, self.identity.device_name.as_str(), now));
            self.mark_changed();
            proof {
                let devices = self.library.devices@;
                assert(devices == middle.devices@.push(devices.last()));
                assert(devices.drop_last() =~= middle.devices@);
                assert(devices[devices.len() - 1].id@ == self.identity.device@);
            }
        }
    }

    /// The document changed: push a new state, and remember at which
    /// revision it happened so a save knows what it is writing.
    fn mark_changed(&mut self)
        ensures
            final(self).revision == (if old(self).revision < u64::MAX {
                old(self).revision + 1
            } else {
                old(self).revision as int
            }),
            final(self).changed_at == final(self).revision,
            final(self).saved_at == old(self).saved_at,
            final(self).library == old(self).library,
            final(self).events == old(self).events,
            final(self).focus == old(self).focus,
            final(self).identity == old(self).identity,
    {
        self.revision = self.revision.saturating_add(1);
        self.changed_at = self.revision;
    }

    /// A save wrote the document as it stood at `revision`.
    pub fn mark_saved(&mut self, revision: u64)
        ensures
            final(self).spec_saved_at() == (if revision > old(self).spec_saved_at() {
                revision
            } else {
                old(self).spec_saved_at()
            }),
            final(self).spec_changed_at() == old(self).spec_changed_at(),
            final(self).spec_revision() == old(self).spec_revision(),
            final(self).spec_library() == old(self).spec_library(),
            final(self).spec_events() == old(self).spec_events(),
            final(self).spec_focus() == old(self).spec_focus(),
            final(self).spec_identity() == old(self).spec_identity(),
    {
        if revision > self.saved_at {
            self.saved_at = revision;
        }
    }

    /// The revision a save would write, if the document changed since the
    /// last one. Pair it with [`App::mark_saved`] and pass back what it gave:
    /// anything applied while the write was in flight then stays pending
    /// instead of being quietly counted as saved.
    pub fn pending_save(&self) -> (r: Option<u64>)
        ensures
            r == (if self.spec_changed_at() == self.spec_saved_at() {
                None
            } else {
                Some(self.spec_changed_at())
            }),
    {
        if self.changed_at == self.saved_at {
            None
        } else {
            Some(self.changed_at)
        }
    }

    /// Who this device is.
    pub fn identity(&self) -> (r: &Identity)
        ensures
            *r == self.spec_identity(),
    {
        &self.identity
    }

    /// The document, for the host to persist.
    pub fn library(&self) -> (r: &Library)
        ensures
            *r == self.spec_library(),
    {
        &self.library
    }

    /// The edit log, for the host to persist.
    pub fn events(&self) -> (r: &EventLog)
        ensures
            r.events@ == self.spec_events(),
    {
        &self.events
    }

    /// The current state, without changing anything: the one read the
    /// frontend performs, to paint the first screen.
    pub fn state(&self) -> (v: StateView)
        ensures
            exists|p: Projection|
                #![trigger projects(p, self.spec_library())]
                projects(p, self.spec_library()) && state_of(
                    v,
                    self.spec_library(),
                    p,
                    self.spec_focus(),
                    self.spec_identity(),
                    self.spec_revision(),
                ),
            journal_of(v.events@, self.spec_library(), self.spec_events(), self.spec_identity()),
    {
        let projection = crate::client::project::derive(&self.library);
        let focus: Option<&Focus> = match &self.focus {
            Some(f) => Some(f),
            None => None,
        };
        proof {
            assert(match focus {
                Some(f) => Some(*f),
                None => None,
            } == self.focus);
        }
        let v = state(&self.library, &projection, focus, &self.identity, &self.events, self.revision);
        proof {
            assert(projects(projection, self.spec_library()));
            assert(state_of(v, self.spec_library(), projection, self.spec_focus(), self.spec_identity(), self.spec_revision()));
        }
        v
    }

    fn record(&mut self, action: Action, subject: Subject, label: &str)
        ensures
            exists|e: Event|
                #![trigger spec_trim(old(self).events.events@.push(e), 200)]
                e.by@ == old(self).identity.user@ && e.action == action && e.subject == subject
                    && e.label@ == label@ && final(self).events.events@ == spec_trim(
                    old(self).events.events@.push(e),
                    200,
                ),
            final(self).library == old(self).library,
            final(self).identity == old(self).identity,
            final(self).focus == old(self).focus,
            final(self).revision == old(self).revision,
            final(self).changed_at == old(self).changed_at,
            final(self).saved_at == old(self).saved_at,
    {
        let now = self.platform.now();
        let e = Event::new(now, self.identity.user_id(), action, subject, label);
        let ghost g = e;
        self.events.record(e);
        proof {
            assert(spec_trim(old(self).events.events@.push(g), 200) == self.events.events@);
        }
    }

    /// Everything this device keeps beside the document is as it was.
    pub closed spec fn keeps_device(self, other: Self) -> bool {
        &&& self.identity == other.identity
        &&& self.focus == other.focus
        &&& self.revision == other.revision
        &&& self.changed_at == other.changed_at
        &&& self.saved_at == other.saved_at
    }

    fn mint(&self, prefix: &str) -> (r: Result<String, AppError>)
        ensures
            r matches Ok(s) ==> exists|n: u64| s@ == prefix@ + crate::client::id::hex_digits(n as nat, 16),
    {
        mint(&self.platform, prefix)
    }

    fn save_ingredient(&mut self, input: IngredientInput) -> (r: Result<bool, AppError>)
        ensures
            save_ingredient_done(old(self).library, final(self).library, old(self).events.events@, final(self).events.events@, old(self).identity, input, r),
            final(self).keeps_device(*old(self)),
    {
        if let Err(e) = text("name", input.name.as_str()) {
            return Err(e);
        }
        let id = match &input.id {
            Some(id) => IngredientId::from_raw(id.as_str()),
            None => match self.mint(INGREDIENT) {
                Ok(s) => IngredientId::from_raw(s.as_str()),
                Err(e) => return Err(e),
            },
        };
        self.save_ingredient_as(id, input)
    }

    /// Saves the ingredient form `input` under `id`, minting nothing: it
    /// succeeds exactly when the name and both coefficients read.
    fn save_ingredient_as(&mut self, id: IngredientId, input: IngredientInput) -> (r: Result<bool, AppError>)
        requires
            input.id matches Some(s) ==> id@ == s@,
        ensures
            r is Ok <==> (trimmed(input.name@).len() > 0 && coefficient_of(opt_text(input.density)) is Some
                && coefficient_of(opt_text(input.unit_weight)) is Some),
            trimmed(input.name@).len() == 0 ==> (r matches Err(AppError::Invalid { field, .. }) && field == "name"),
            r is Ok ==> r == Ok::<bool, AppError>(true) && saved_ingredient(old(self).library, final(self).library, old(self).events.events@, final(self).events.events@, old(self).identity, input, id@),
            r is Err ==> unchanged(old(self).library, final(self).library, old(self).events.events@, final(self).events.events@),
            final(self).keeps_device(*old(self)),
    {
        let name = match text("name", input.name.as_str()) {
            Ok(n) => n,
            Err(e) => return Err(e),
        };
        let existing = self.library.ingredients.contains_key(&id);
        let density = match coefficient("density", match &input.density {
            Some(d) => Some(d.as_str()),
            None => None,
        }) {
            Ok(c) => c,
            Err(e) => return Err(e),
        };
        let unit_weight = match coefficient("unit_weight", match &input.unit_weight {
            Some(w) => Some(w.as_str()),
            None => None,
        }) {
            Ok(c) => c,
            Err(e) => return Err(e),
        };
        let mut ingredient = Ingredient::new(id.clone(), name.as_str(), Aisle::from(input.aisle));
        ingredient.aliases = trim_aliases(&input.aliases);
        ingredient.staple = input.staple;
        ingredient.density = density;
        ingredient.unit_weight = unit_weight;
        let ghost saved = ingredient;
        let ghost before = self.library;
        self.library.ingredients.insert(id.clone(), ingredient);
        if existing {
            self.record(Action::Edited, Subject::Ingredient(id), name.as_str());
        }
        proof {
            assert(saved_ingredient(before, self.library, old(self).events.events@, self.events.events@, old(self).identity, input, id@));
        }
        Ok(true)
    }

    fn delete_ingredient(&mut self, id: &str) -> (r: Result<bool, AppError>)
        ensures
            delete_ingredient_done(old(self).library, final(self).library, old(self).events.events@, final(self).events.events@, old(self).identity, id@, r),
            final(self).keeps_device(*old(self)),
    {
        let key = IngredientId::from_raw(id);
        let label = match self.library.ingredients.get(&key) {
            Some(ingredient) => ingredient.name.as_str().to_owned(),
            None => return Err(AppError::not_found("ingredient", id.to_owned())),
        };
        self.library.ingredients.remove(&key);
        self.record(Action::Deleted, Subject::Ingredient(key), label.as_str());
        Ok(true)
    }

    /// One recipe line, as typed. Notice what is *not* checked: that the
    /// ingredient or the sub-recipe still exists. A recipe whose ingredient
    /// another device deleted must stay editable — refusing the save would
    /// make the recipe unfixable exactly when it needs fixing.
    fn component_as(input: &ComponentInput, usage: UsageId) -> (r: Result<Component, AppError>)
        requires
            line_id(*input) matches Some(s) ==> usage@ == s@,
        ensures
            r is Ok <==> component_reads(*input),
            r matches Ok(c) ==> component_from(c, *input) && usage_id(c) == usage@,
    {
        match input {
            ComponentInput::Ingredient { id, ingredient, quantity: q } => {
                let amount = match quantity("quantity", q) {
                    Ok(a) => a,
                    Err(e) => return Err(e),
                };
                Ok(Component::Ingredient(IngredientUsage {
                    id: usage,
                    ingredient: IngredientId::from_raw(ingredient.as_str()),
                    quantity: amount,
                }))
            },
            ComponentInput::SubRecipe { id, recipe, amount } => {
                let amount = match amount {
                    SubRecipeAmountInput::Factor { factor } => match parse_amount("factor", factor.as_str()) {
                        Ok(v) => SubRecipeAmount::Factor(v),
                        Err(e) => return Err(e),
                    },
                    SubRecipeAmountInput::OfYield { quantity: q } => match quantity("quantity", q) {
                        Ok(v) => SubRecipeAmount::OfYield(v),
                        Err(e) => return Err(e),
                    },
                };
                Ok(Component::SubRecipe(SubRecipeUsage {
                    id: usage,
                    recipe: RecipeId::from_raw(recipe.as_str()),
                    amount,
                }))
            },
        }
    }

    fn save_recipe(&mut self, input: RecipeInput) -> (r: Result<bool, AppError>)
        ensures
            save_recipe_done(old(self).library, final(self).library, old(self).events.events@, final(self).events.events@, old(self).identity, input, r),
            final(self).keeps_device(*old(self)),
    {
        if let Err(e) = text("name", input.name.as_str()) {
            return Err(e);
        }
        let id = match &input.id {
            Some(id) => RecipeId::from_raw(id.as_str()),
            None => match self.mint(RECIPE) {
                Ok(s) => RecipeId::from_raw(s.as_str()),
                Err(e) => return Err(e),
            },
        };
        let mut usages: Vec<UsageId> = Vec::new();
        let mut i: usize = 0;
        while i < input.components.len()
            invariant
                i <= input.components@.len(),
                usages@.len() == i,
                forall|k: int| 0 <= k < i ==> (line_id(#[trigger] input.components@[k]) matches Some(s) ==> usages@[k]@ == s@),
                *self == *old(self),
                trimmed(input.name@).len() > 0,
                input.id matches Some(s) ==> id@ == s@,
            decreases input.components@.len() - i,
        {
            let given = match &input.components[i] {
                ComponentInput::Ingredient { id, .. } => id,
                ComponentInput::SubRecipe { id, .. } => id,
            };
            let usage = match given {
                Some(u) => UsageId::from_raw(u.as_str()),
                None => match self.mint(USAGE) {
                    Ok(s) => UsageId::from_raw(s.as_str()),
                    Err(e) => {
                        proof {
                            assert(!component_named(input.components@[i as int]));
                            assert(!recipe_named(input));
                        }
                        return Err(e);
                    },
                },
            };
            usages.push(usage);
            i = i + 1;
        }
        self.save_recipe_as(id, usages, input)
    }

    /// Saves the recipe form `input` under `id`, its lines under `usages`,
    /// one for each: nothing is minted, and it succeeds exactly when
    /// everything typed reads.
    fn save_recipe_as(&mut self, id: RecipeId, usages: Vec<UsageId>, input: RecipeInput) -> (r: Result<bool, AppError>)
        requires
            input.id matches Some(s) ==> id@ == s@,
            usages@.len() == input.components@.len(),
            forall|k: int| 0 <= k < usages@.len() ==> (line_id(#[trigger] input.components@[k]) matches Some(s) ==> usages@[k]@ == s@),
        ensures
            r is Ok <==> recipe_reads(input),
            trimmed(input.name@).len() == 0 ==> (r matches Err(AppError::Invalid { field, .. }) && field == "name"),
            r is Ok ==> r == Ok::<bool, AppError>(true) && saved_recipe(old(self).library, final(self).library, old(self).events.events@, final(self).events.events@, old(self).identity, input, id@),
            r is Ok ==> forall|k: int| 0 <= k < usages@.len() ==> usage_id(#[trigger] (final(self).library.recipes.spec_get(id@)->0).components@[k]) == usages@[k]@,
            r is Err ==> unchanged(old(self).library, final(self).library, old(self).events.events@, final(self).events.events@),
            final(self).keeps_device(*old(self)),
    {
        let name = match text("name", input.name.as_str()) {
            Ok(n) => n,
            Err(e) => return Err(e),
        };
        let existed = self.library.recipes.contains_key(&id);
        let servings = match servings_count(input.servings) {
            Ok(s) => s,
            Err(e) => return Err(e),
        };
        let mut recipe = Recipe::new(id.clone(), name.as_str(), servings);
        recipe.yields = match &input.yields {
            Some(q) => match quantity("yields", q) {
                Ok(v) => Some(v),
                Err(e) => return Err(e),
            },
            None => None,
        };
        let mut components: Vec<Component> = Vec::new();
        let mut i: usize = 0;
        while i < input.components.len()
            invariant
                i <= input.components@.len(),
                components@.len() == i,
                forall|k: int| 0 <= k < i ==> component_from(#[trigger] components@[k], input.components@[k]),
                forall|k: int| 0 <= k < i ==> component_reads(#[trigger] input.components@[k]),
                forall|k: int| 0 <= k < i ==> usage_id(#[trigger] components@[k]) == usages@[k]@,
                usages@.len() == input.components@.len(),
                forall|k: int| 0 <= k < usages@.len() ==> (line_id(#[trigger] input.components@[k]) matches Some(s) ==> usages@[k]@ == s@),
                *self == *old(self),
                trimmed(input.name@).len() > 0,
            decreases input.components@.len() - i,
        {
            match Self::component_as(&input.components[i], usages[i].clone()) {
                Ok(c) => components.push(c),
                Err(e) => {
                    proof {
                        assert(!component_reads(input.components@[i as int]));
                        assert(!recipe_reads(input));
                    }
                    return Err(e);
                },
            }
            i = i + 1;
        }
        let mut steps: Vec<Step> = Vec::new();
        let mut j: usize = 0;
        while j < input.steps.len()
            invariant
                j <= input.steps@.len(),
                steps@.len() == j,
                forall|k: int| 0 <= k < j ==> step_from(#[trigger] steps@[k], input.steps@[k]),
            decreases input.steps@.len() - j,
        {
            steps.push(step_of(&input.steps[j]));
            j = j + 1;
        }
        recipe.components = components;
        recipe.steps = steps;
        let ghost saved = recipe;
        let ghost before = self.library;
        self.library.recipes.insert(recipe);
        if existed {
            self.record(Action::Edited, Subject::Recipe(id), name.as_str());
        }
        proof {
            assert(recipe_from(saved, input, id@));
            assert(saved_recipe(before, self.library, old(self).events.events@, self.events.events@, old(self).identity, input, id@));
        }
        Ok(true)
    }

    fn delete_recipe(&mut self, id: &str) -> (r: Result<bool, AppError>)
        ensures
            delete_recipe_done(old(self).library, final(self).library, old(self).events.events@, final(self).events.events@, old(self).identity, id@, r),
            final(self).keeps_device(*old(self)),
    {
        let key = RecipeId::from_raw(id);
        let label = match self.library.recipes.get(&key) {
            Some(recipe) => recipe.name.as_str().to_owned(),
            None => return Err(AppError::not_found("recipe", id.to_owned())),
        };
        self.library.recipes.remove(&key);
        self.record(Action::Deleted, Subject::Recipe(key), label.as_str());
        Ok(true)
    }

    /// A new list entry for `item`, added now by this device's user.
    fn entry(&self, item: ListItem) -> (r: Result<ListEntry, AppError>)
        ensures
            r matches Ok(e) ==> e.item == item && e.added_by@ == self.identity.user@,
            r matches Ok(e) ==> exists|n: u64| e.id@ == LIST_ENTRY@ + crate::client::id::hex_digits(n as nat, 16),
    {
        let id = match self.mint(LIST_ENTRY) {
            Ok(s) => ListEntryId::from_raw(s.as_str()),
            Err(e) => return Err(e),
        };
        Ok(ListEntry { id, item, added_by: self.identity.user_id(), added_at: self.platform.now() })
    }

    /// Adds an entry through the domain, which both appends it and purges
    /// the overlay entry of a bare ingredient.
    fn add_entry(&mut self, entry: ListEntry)
        ensures
            final(self).library.list.entries@ == old(self).library.list.entries@.push(entry),
            match entry.item {
                ListItem::Ingredient { ingredient, .. } => {
                    &&& final(self).library.overlay.spec_get(ingredient@) is None
                    &&& forall|k: Seq<char>| k != ingredient@ ==> final(self).library.overlay.spec_get(k) == old(self).library.overlay.spec_get(k)
                },
                ListItem::Recipe { .. } => final(self).library.overlay == old(self).library.overlay,
            },
            keeps_all_but_list(final(self).library, old(self).library),
            final(self).events == old(self).events,
            final(self).keeps_device(*old(self)),
    {
        match &entry.item {
            ListItem::Recipe { .. } => {
                self.library.list.entries.push(entry);
            },
            ListItem::Ingredient { .. } => {
                self.library.list.add(entry, &mut self.library.overlay);
            },
        }
    }

    fn add_recipe_to_list(&mut self, recipe: &str, servings: u32) -> (r: Result<bool, AppError>)
        ensures
            add_recipe_done(old(self).library, final(self).library, old(self).events.events@, final(self).events.events@, old(self).identity, recipe@, servings, r),
            final(self).keeps_device(*old(self)),
    {
        let id = RecipeId::from_raw(recipe);
        if !self.library.recipes.contains_key(&id) {
            return Err(AppError::not_found("recipe", recipe.to_owned()));
        }
        let servings = match servings_count(servings) {
            Ok(s) => s,
            Err(e) => return Err(e),
        };
        let entry = match self.entry(ListItem::Recipe { recipe: id, servings }) {
            Ok(e) => e,
            Err(e) => return Err(e),
        };
        let ghost added = entry;
        self.add_entry(entry);
        proof {
            assert(self.library.list.entries@.drop_last() =~= old(self).library.list.entries@);
            assert(self.library.list.entries@.last() == added);
        }
        Ok(true)
    }

    fn add_ingredient_to_list(&mut self, ingredient: &str, amount: &QuantityInput) -> (r: Result<bool, AppError>)
        ensures
            add_ingredient_done(old(self).library, final(self).library, old(self).events.events@, final(self).events.events@, old(self).identity, ingredient@, *amount, r),
            final(self).keeps_device(*old(self)),
    {
        let id = IngredientId::from_raw(ingredient);
        if !self.library.ingredients.contains_key(&id) {
            return Err(AppError::not_found("ingredient", ingredient.to_owned()));
        }
        let q = match quantity("quantity", amount) {
            Ok(q) => q,
            Err(e) => return Err(e),
        };
        let entry = match self.entry(ListItem::Ingredient { ingredient: id, quantity: q }) {
            Ok(e) => e,
            Err(e) => return Err(e),
        };
        let ghost added = entry;
        self.add_entry(entry);
        proof {
            assert(self.library.list.entries@.drop_last() =~= old(self).library.list.entries@);
            assert(self.library.list.entries@.last() == added);
        }
        Ok(true)
    }

    fn set_entry_servings(&mut self, entry: &str, servings: u32) -> (r: Result<bool, AppError>)
        ensures
            set_servings_done(old(self).library, final(self).library, old(self).events.events@, final(self).events.events@, entry@, servings, r),
            final(self).keeps_device(*old(self)),
            final(self).events == old(self).events,
    {
        let ghost n = servings;
        let id = ListEntryId::from_raw(entry);
        let existing = match self.library.list.entry(&id) {
            Some(e) => e.clone(),
            None => return Err(AppError::not_found("list entry", entry.to_owned())),
        };
        let recipe = match &existing.item {
            ListItem::Recipe { recipe, .. } => recipe.clone(),
            ListItem::Ingredient { .. } => {
                let mut detail: Vec<char> = Vec::new();
                crate::text::push_str(&mut detail, "a bare ingredient on the list has no serving count");
                proof {
                    assert(detail@ =~= "a bare ingredient on the list has no serving count"@);
                }
                return Err(AppError::invalid("servings", string_of(&detail)));
            },
        };
        let servings = match servings_count(servings) {
            Ok(s) => s,
            Err(e) => return Err(e),
        };
        let ghost s = servings;
        let ghost e = existing;
        let new_entry = ListEntry {
            id: existing.id,
            item: ListItem::Recipe { recipe, servings },
            added_by: existing.added_by,
            added_at: existing.added_at,
        };
        let ghost g = new_entry;
        self.library.update_list_entry(new_entry);
        proof {
            assert(s.count() == n);
            assert(g == ListEntry { id: e.id, item: ListItem::Recipe { recipe: e.item->recipe, servings: s }, added_by: e.added_by, added_at: e.added_at });
            assert(self.library.list.entries@ == updated_entries(old(self).library.list.entries@, g));
            assert(keeps_all_but_list(self.library, old(self).library));
            assert(self.library.overlay == old(self).library.overlay);
            assert(entry_in(old(self).library.list.entries@, entry@) == Some(e));
        }
        Ok(true)
    }

    fn remove_list_entry(&mut self, entry: &str) -> (r: Result<bool, AppError>)
        ensures
            remove_entry_done(old(self).library, final(self).library, old(self).events.events@, final(self).events.events@, old(self).identity, entry@, r),
            final(self).keeps_device(*old(self)),
    {
        let id = ListEntryId::from_raw(entry);
        let label = match self.library.list.entry(&id) {
            None => return Err(AppError::not_found("list entry", entry.to_owned())),
            Some(existing) => match &existing.item {
                ListItem::Recipe { recipe, .. } => match self.library.recipes.get(recipe) {
                    Some(r) => r.name.as_str().to_owned(),
                    None => recipe.as_str().to_owned(),
                },
                ListItem::Ingredient { ingredient, .. } => match self.library.ingredient_name(ingredient) {
                    Some(n) => n.to_owned(),
                    None => ingredient.as_str().to_owned(),
                },
            },
        };
        self.library.list.remove(&id);
        self.record(Action::Deleted, Subject::ListEntry(id), label.as_str());
        Ok(true)
    }

    fn toggle_cart_item(&mut self, ingredient: &str) -> (r: Result<bool, AppError>)
        ensures
            toggle_done(old(self).library, final(self).library, old(self).events.events@, final(self).events.events@, old(self).identity, ingredient@, r),
            final(self).keeps_device(*old(self)),
            final(self).events == old(self).events,
    {
        let id = IngredientId::from_raw(ingredient);
        let projection = crate::client::project::derive(&self.library);
        let explicit = match projection.cart.line(&id) {
            None => {
                proof {
                    assert(projects(projection, old(self).library));
                }
                return Err(AppError::not_found("cart line", ingredient.to_owned()));
            },
            Some(line) => {
                proof {
                    let i = choose|i: int|
                        0 <= i < projection.cart.lines@.len() && projection.cart.lines@[i] == *line && line.ingredient@ == id@
                            && forall|j: int| 0 <= j < i ==> (#[trigger] projection.cart.lines@[j]).ingredient@ != id@;
                    assert(first_line_at(projection.cart.lines@, ingredient@, i));
                    assert(projection.cart.lines@[i].ingredient@ == ingredient@);
                }
                if line.is_settled() {
                    Explicit::Unchecked
                } else {
                    Explicit::Checked { by: self.identity.user_id(), at: self.platform.now() }
                }
            },
        };
        let ghost x = explicit;
        self.library.overlay.insert(id, explicit);
        proof {
            assert(projects(projection, old(self).library));
        }
        Ok(true)
    }

    fn finish_shopping(&mut self) -> (r: Result<bool, AppError>)
        ensures
            finish_done(old(self).library, final(self).library, old(self).events.events@, final(self).events.events@, r),
            final(self).keeps_device(*old(self)),
            final(self).events == old(self).events,
    {
        let projection = crate::client::project::derive(&self.library);
        crate::cart::finish_shopping(&mut self.library.list, &projection.cart, &mut self.library.overlay);
        proof {
            assert(projects(projection, old(self).library));
        }
        Ok(true)
    }

    fn rename_user(&mut self, name: &str) -> (r: Result<bool, AppError>)
        ensures
            final(self).keeps_device(*old(self)),
            final(self).events == old(self).events,
            if trimmed(name@).len() == 0 {
                (r matches Err(AppError::Invalid { field, .. }) && field == "name") && final(self).library == old(self).library
            } else {
                &&& r == Ok::<bool, AppError>(true)
                &&& keeps_all_but_people(final(self).library, old(self).library)
                &&& final(self).library.devices == old(self).library.devices
                &&& exists|u: User|
                    #![trigger put_user_in(old(self).library.users@, u)]
                    u.id@ == old(self).identity.user@ && u.name@ == trimmed(name@) && final(self).library.users@ == put_user_in(old(self).library.users@, u)
            },
    {
        let clean = match text("name", name) {
            Ok(n) => n,
            Err(e) => return Err(e),
        };
        let user = User::new(self.identity.user_id(), clean.as_str());
        let ghost u = user;
        self.library.put_user(user);
        proof {
            assert(u.id@ == old(self).identity.user@);
            assert(u.name@ == trimmed(name@));
            assert(self.library.users@ == put_user_in(old(self).library.users@, u));
            assert(keeps_all_but_people(self.library, old(self).library));
            assert(self.library.devices == old(self).library.devices);
        }
        Ok(true)
    }

    fn open_recipe(&mut self, recipe: &str, servings: Option<u32>) -> (r: Result<bool, AppError>)
        ensures
            final(self).library == old(self).library,
            final(self).events == old(self).events,
            final(self).identity == old(self).identity,
            final(self).revision == old(self).revision,
            final(self).changed_at == old(self).changed_at,
            final(self).saved_at == old(self).saved_at,
            if old(self).library.recipes.spec_get(recipe@) is None {
                (r matches Err(AppError::NotFound { kind, id }) && kind == "recipe" && id@ == recipe@) && final(self).focus == old(self).focus
            } else if servings == Some(0u32) {
                (r matches Err(AppError::Invalid { field, .. }) && field == "servings") && final(self).focus == old(self).focus
            } else {
                r == Ok::<bool, AppError>(false) && (final(self).focus matches Some(f) && f.recipe@ == recipe@ && match servings {
                    Some(n) => f.servings matches Some(s) && s.count() == n,
                    None => f.servings is None,
                })
            },
    {
        let id = RecipeId::from_raw(recipe);
        if !self.library.recipes.contains_key(&id) {
            return Err(AppError::not_found("recipe", recipe.to_owned()));
        }
        let servings = match servings {
            Some(n) => match servings_count(n) {
                Ok(s) => Some(s),
                Err(e) => return Err(e),
            },
            None => None,
        };
        self.focus = Some(Focus { recipe: id, servings });
        Ok(false)
    }

    /// Runs one command. `Ok(true)` means the document changed.
    fn run(&mut self, command: Command) -> (r: Result<bool, AppError>)
        ensures
            ran(old(self).library, final(self).library, old(self).events.events@, final(self).events.events@, old(self).focus, final(self).focus, old(self).identity, command, r),
            final(self).identity == old(self).identity,
            final(self).revision == old(self).revision,
            final(self).changed_at == old(self).changed_at,
            final(self).saved_at == old(self).saved_at,
    {
        match command {
            Command::SaveIngredient { ingredient } => self.save_ingredient(ingredient),
            Command::DeleteIngredient { ingredient } => self.delete_ingredient(ingredient.as_str()),
            Command::SaveRecipe { recipe } => self.save_recipe(recipe),
            Command::DeleteRecipe { recipe } => self.delete_recipe(recipe.as_str()),
            Command::AddRecipeToList { recipe, servings } => self.add_recipe_to_list(recipe.as_str(), servings),
            Command::AddIngredientToList { ingredient, quantity } => self.add_ingredient_to_list(ingredient.as_str(), &quantity),
            Command::SetEntryServings { entry, servings } => self.set_entry_servings(entry.as_str(), servings),
            Command::RemoveListEntry { entry } => self.remove_list_entry(entry.as_str()),
            Command::ToggleCartItem { ingredient } => self.toggle_cart_item(ingredient.as_str()),
            Command::FinishShopping => self.finish_shopping(),
            Command::OpenRecipe { recipe, servings } => self.open_recipe(recipe.as_str(), servings),
            Command::CloseRecipe => {
                self.focus = None;
                Ok(false)
            },
            Command::RenameUser { name } => self.rename_user(name.as_str()),
        }
    }

    /// Applies one command and returns the whole new state.
    ///
    /// A command that changed the document, or failed, moves both the
    /// revision and the mark of what a save must write; one that only moved
    /// the screen — opening a recipe — moves the revision alone.
    pub fn apply(&mut self, command: Command) -> (r: Result<StateView, AppError>)
        ensures
            final(self).spec_identity() == old(self).spec_identity(),
            final(self).spec_saved_at() == old(self).spec_saved_at(),
            exists|res: Result<bool, AppError>|
                #![trigger ran(old(self).spec_library(), final(self).spec_library(), old(self).spec_events(), final(self).spec_events(), old(self).spec_focus(), final(self).spec_focus(), old(self).spec_identity(), command, res)]
                ran(old(self).spec_library(), final(self).spec_library(), old(self).spec_events(), final(self).spec_events(), old(self).spec_focus(), final(self).spec_focus(), old(self).spec_identity(), command, res) && {
                    let next = if old(self).spec_revision() < u64::MAX {
                        old(self).spec_revision() + 1
                    } else {
                        old(self).spec_revision() as int
                    };
                    &&& final(self).spec_revision() == next
                    &&& match res {
                        Ok(false) => final(self).spec_changed_at() == old(self).spec_changed_at(),
                        _ => final(self).spec_changed_at() == next,
                    }
                    &&& match res {
                        Ok(_) => r matches Ok(v) && exists|p: Projection|
                            #![trigger projects(p, final(self).spec_library())]
                            projects(p, final(self).spec_library()) && state_of(v, final(self).spec_library(), p, final(self).spec_focus(), final(self).spec_identity(), final(self).spec_revision()),
                        Err(e) => r == Err::<StateView, AppError>(e),
                    }
                },
    {
        let res = self.run(command);
        let ghost after_run = *self;
        proof {
            assert(ran(old(self).library, self.library, old(self).events.events@, self.events.events@, old(self).focus, self.focus, old(self).identity, command, res));
        }
        match res {
            Ok(true) => {
                self.mark_changed();
                let v = self.state();
                proof {
                    assert(ran(old(self).spec_library(), self.spec_library(), old(self).spec_events(), self.spec_events(), old(self).spec_focus(), self.spec_focus(), old(self).spec_identity(), command, res));
                }
                Ok(v)
            },
            Ok(false) => {
                self.revision = self.revision.saturating_add(1);
                let v = self.state();
                proof {
                    assert(ran(old(self).spec_library(), self.spec_library(), old(self).spec_events(), self.spec_events(), old(self).spec_focus(), self.spec_focus(), old(self).spec_identity(), command, res));
                }
                Ok(v)
            },
            Err(e) => {
                self.mark_changed();
                proof {
                    assert(ran(old(self).spec_library(), self.spec_library(), old(self).spec_events(), self.spec_events(), old(self).spec_focus(), self.spec_focus(), old(self).spec_identity(), command, res));
                }
                Err(e)
            },
        }
    }
}

} // verus!
