//! What the frontend receives: the whole screen, every time. Everything in
//! it is already decided — which section a line sits in, whether a name is
//! shown, how an amount reads — so the frontend renders and never derives.

use vstd::prelude::*;

use crate::client::command::RecipeInput;
use crate::client::number::{render, render_rounds, render_text};
use crate::client::tags::{unit_tag, AisleTag, CheckStateTag, RefDisplayTag, UnitTag};
use crate::quantity::Quantity;

verus! {

#[derive(Debug, Clone, PartialEq, Eq)]
pub struct StateView {
    pub revision: u64,
    pub me: UserView,
    pub people: Vec<PersonView>,
    /// What has been edited and deleted, newest first and capped.
    pub events: Vec<EventView>,
    pub cart: CartView,
    pub list: Vec<ListEntryView>,
    pub recipes: Vec<RecipeSummaryView>,
    pub ingredients: Vec<IngredientView>,
    pub focus: Option<FocusView>,
    pub problems: Vec<ProblemView>,
}

/// What an event did to its subject.
#[derive(Debug, Clone, Copy, PartialEq, Eq)]
pub enum ActionTag {
    Edited,
    Deleted,
}

/// What an event happened to: its kind, and its id.
#[derive(Debug, Clone, PartialEq, Eq)]
pub enum SubjectTag {
    Recipe { id: String },
    Ingredient { id: String },
    ListEntry { id: String },
}

/// One line of the journal.
#[derive(Debug, Clone, PartialEq, Eq)]
pub struct EventView {
    /// Milliseconds since the epoch, by the clock of the device that did it.
    pub at: i64,
    /// The name of whoever did it, or `None` if that person is no longer in
    /// the document.
    pub by: Option<String>,
    /// Whether that was this device's own person.
    pub by_me: bool,
    pub action: ActionTag,
    pub subject: SubjectTag,
    /// What the thing was called when it happened.
    pub label: String,
}

#[derive(Debug, Clone, PartialEq, Eq)]
pub struct UserView {
    pub id: String,
    pub name: String,
}

#[derive(Debug, Clone, PartialEq, Eq)]
pub struct PersonView {
    pub id: String,
    pub name: String,
    pub is_me: bool,
    pub devices: Vec<DeviceView>,
}

#[derive(Debug, Clone, PartialEq, Eq)]
pub struct DeviceView {
    pub id: String,
    pub name: String,
    pub is_this_one: bool,
    pub paired_at: i64,
}

/// An amount as a person reads it, and whether that reading is rounded.
#[derive(Debug, Clone, PartialEq, Eq)]
pub struct QuantityView {
    pub amount: String,
    pub unit: UnitTag,
    pub approximate: bool,
}

/// `v` shows `q`.
pub open spec fn shows_quantity(v: QuantityView, q: Quantity) -> bool {
    &&& v.amount@ == render_text(q.value.num(), q.value.den())
    &&& v.unit == unit_tag(q.unit)
    &&& v.approximate == render_rounds(q.value.num(), q.value.den())
}

impl QuantityView {
    /// The amount rendered for a person, with its unit.
    pub fn of(quantity: &Quantity) -> (v: QuantityView)
        ensures
            shows_quantity(v, *quantity),
    {
        let rendered = render(quantity.value);
        QuantityView {
            amount: rendered.text,
            unit: UnitTag::from(quantity.unit),
            approximate: rendered.approximate,
        }
    }
}

#[derive(Debug, Clone, PartialEq, Eq)]
pub struct CartView {
    pub to_buy: Vec<CartLineView>,
    pub bought: Vec<CartLineView>,
    pub at_home: Vec<CartLineView>,
    pub remaining: usize,
    pub total: usize,
}

#[derive(Debug, Clone, PartialEq, Eq)]
pub struct CartLineView {
    pub ingredient: String,
    pub name: String,
    pub aisle: AisleTag,
    pub staple: bool,
    pub amounts: Vec<QuantityView>,
    pub state: CheckStateTag,
    pub checked_by: Option<String>,
    pub checked_at: Option<i64>,
    pub sources: Vec<String>,
}

#[derive(Debug, Clone, PartialEq, Eq)]
pub struct ListEntryView {
    pub id: String,
    pub item: ListItemView,
    pub progress: ProgressView,
    pub added_by: Option<String>,
    pub added_at: i64,
}

#[derive(Debug, Clone, PartialEq, Eq)]
pub enum ListItemView {
    Recipe { recipe: String, name: String, servings: u32, written_for: u32 },
    Ingredient { ingredient: String, name: String, quantity: QuantityView },
}

#[derive(Debug, Clone, PartialEq, Eq)]
pub struct ProgressView {
    pub settled: usize,
    pub total: usize,
    pub complete: bool,
}

#[derive(Debug, Clone, PartialEq, Eq)]
pub struct RecipeSummaryView {
    pub id: String,
    pub name: String,
    pub servings: u32,
    pub yields: Option<QuantityView>,
    pub ingredients: usize,
    pub sub_recipes: usize,
}

#[derive(Debug, Clone, PartialEq, Eq)]
pub struct IngredientView {
    pub id: String,
    pub name: String,
    pub aliases: Vec<String>,
    pub aisle: AisleTag,
    pub staple: bool,
    pub density: Option<String>,
    pub unit_weight: Option<String>,
}

/// The recipe open on this device: as read at the chosen servings, and as
/// written, for its edit form.
#[derive(Debug, Clone, PartialEq, Eq)]
pub struct FocusView {
    pub recipe: RecipeView,
    pub edit: RecipeInput,
}

#[derive(Debug, Clone, PartialEq, Eq)]
pub struct RecipeView {
    pub id: String,
    pub name: String,
    pub written_for: u32,
    pub servings: u32,
    pub yields: Option<QuantityView>,
    pub components: Vec<ComponentView>,
    pub steps: Vec<StepView>,
}

#[derive(Debug, Clone, PartialEq, Eq)]
pub enum ComponentView {
    Ingredient { usage: String, ingredient: String, name: Option<String>, quantity: QuantityView },
    SubRecipe { usage: String, recipe: String, name: Option<String>, amount: SubRecipeAmountView },
}

#[derive(Debug, Clone, PartialEq, Eq)]
pub enum SubRecipeAmountView {
    Factor { factor: String },
    OfYield { quantity: QuantityView },
}

#[derive(Debug, Clone, PartialEq, Eq)]
pub struct StepView {
    pub segments: Vec<SegmentView>,
}

#[derive(Debug, Clone, PartialEq, Eq)]
pub enum SegmentView {
    Text { text: String },
    /// A reference resolved at the servings being read: `name` and
    /// `quantity` are present exactly when they are to be shown.
    Ingredient { usage: String, name: Option<String>, quantity: Option<QuantityView>, display: RefDisplayTag },
    /// The usage was deleted while the step still points at it.
    Missing { usage: String },
}

/// Something on the list the cart could not make sense of, shown beside the
/// cart rather than instead of it.
#[derive(Debug, Clone, PartialEq, Eq)]
pub struct ProblemView {
    pub entry: Option<String>,
    pub subject: Option<String>,
    pub kind: ProblemKind,
    pub detail: String,
}

#[derive(Debug, Clone, Copy, PartialEq, Eq, Structural)]
pub enum ProblemKind {
    MissingRecipe,
    MissingIngredient,
    BrokenGraph,
    BrokenYield,
}

} // verus!
