//! What the frontend sends: one command per user action, with every field
//! as the person typed it. Amounts stay text until the core reads them, so
//! the frontend never decides what "1,5" means.

use vstd::prelude::*;

use crate::client::tags::{AisleTag, RefDisplayTag, UnitTag};

verus! {

/// One user action.
#[derive(Debug, Clone, PartialEq, Eq)]
pub enum Command {
    /// Creates an ingredient, or replaces the one with this id.
    SaveIngredient { ingredient: IngredientInput },
    DeleteIngredient { ingredient: String },
    /// Creates a recipe, or replaces the one with this id.
    SaveRecipe { recipe: RecipeInput },
    DeleteRecipe { recipe: String },
    AddRecipeToList { recipe: String, servings: u32 },
    AddIngredientToList { ingredient: String, quantity: QuantityInput },
    SetEntryServings { entry: String, servings: u32 },
    RemoveListEntry { entry: String },
    /// One tap on a cart line.
    ToggleCartItem { ingredient: String },
    FinishShopping,
    /// Opens a recipe on this device, at the given servings or as written.
    OpenRecipe { recipe: String, servings: Option<u32> },
    CloseRecipe,
    RenameUser { name: String },
}

/// An amount as typed, and its unit.
#[derive(Debug, Clone, PartialEq, Eq)]
pub struct QuantityInput {
    pub amount: String,
    pub unit: UnitTag,
}

#[derive(Debug, Clone, PartialEq, Eq)]
pub struct IngredientInput {
    /// `None` creates a new ingredient.
    pub id: Option<String>,
    pub name: String,
    pub aliases: Vec<String>,
    pub aisle: AisleTag,
    pub staple: bool,
    /// Grams per millilitre, as typed; empty or absent when unknown.
    pub density: Option<String>,
    /// Grams per piece, as typed; empty or absent when unknown.
    pub unit_weight: Option<String>,
}

#[derive(Debug, Clone, PartialEq, Eq)]
pub struct RecipeInput {
    /// `None` creates a new recipe.
    pub id: Option<String>,
    pub name: String,
    pub servings: u32,
    pub yields: Option<QuantityInput>,
    pub components: Vec<ComponentInput>,
    pub steps: Vec<StepInput>,
}

#[derive(Debug, Clone, PartialEq, Eq)]
pub enum ComponentInput {
    Ingredient { id: Option<String>, ingredient: String, quantity: QuantityInput },
    SubRecipe { id: Option<String>, recipe: String, amount: SubRecipeAmountInput },
}

#[derive(Debug, Clone, PartialEq, Eq)]
pub enum SubRecipeAmountInput {
    Factor { factor: String },
    OfYield { quantity: QuantityInput },
}

#[derive(Debug, Clone, PartialEq, Eq)]
pub struct StepInput {
    pub segments: Vec<SegmentInput>,
}

#[derive(Debug, Clone, PartialEq, Eq)]
pub enum SegmentInput {
    Text { text: String },
    Ingredient { usage: String, display: RefDisplayTag },
}

} // verus!
