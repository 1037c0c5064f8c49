//! Exact shopping-list and recipe logic, verified.

pub mod cart;
pub mod client;
pub mod event;
pub mod expand;
pub mod ids;
pub mod ingredient;
pub mod ingredient_index;
pub mod list;
pub mod overlay;
pub mod people;
pub mod quantity;
pub mod rational;
pub mod recipe;
pub mod relay;
pub mod store;
pub mod sync;
pub mod text;
pub mod units;

pub use ids::{DeviceId, IngredientId, ListEntryId, RecipeId, Timestamp, UsageId, UserId};
pub use cart::CartError;
pub use ingredient::Ingredient;
pub use quantity::Quantity;
pub use recipe::Recipe;
pub use rational::Rational;
