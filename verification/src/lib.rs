//! Recipes: session definitions that can be shared, and what a user is shown before
//! running one.

pub mod builder;
pub mod chars;
pub mod display;
pub mod display_laws;
pub mod document;
pub mod extension;
pub mod injection;
pub mod order;
pub mod outside;
pub mod parameter;
pub mod recipe;
pub mod retry;
pub mod security;
pub mod string_map;
pub mod sub_recipe;
pub mod text;
pub mod warnings;
pub mod warnings_laws;

pub use builder::RecipeBuilder;
pub use document::RecipeDocument;
pub use extension::{Envs, ExtensionConfig};
pub use parameter::{RecipeParameter, RecipeParameterInputType, RecipeParameterRequirement};
pub use recipe::{Author, Recipe, Response, Settings};
pub use retry::{RetryConfig, SuccessCheck};
pub use string_map::StringMap;
pub use sub_recipe::SubRecipe;
pub use text::strip_error_location;
pub use warnings::RecipeCommandWarning;
