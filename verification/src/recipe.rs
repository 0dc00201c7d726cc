//! Recipes.

use vstd::prelude::*;

use crate::extension::ExtensionConfig;
use crate::parameter::RecipeParameter;
use crate::retry::RetryConfig;
use crate::sub_recipe::SubRecipe;

verus! {

/// The name of the parameter that holds the directory of a recipe.
pub const BUILT_IN_RECIPE_DIR_PARAM: &'static str = "recipe_dir";

/// The version of the file format that is assumed where a recipe names none.
pub fn default_version() -> (r: String)
    ensures
        r@ == "1.0.0"@,
{
    "1.0.0".to_owned()
}

/// The file name extensions of recipe files.
pub const RECIPE_FILE_EXTENSIONS: [&'static str; 2] = ["yaml", "json"];

/// A definition of a session that can be shared and run again.
#[derive(Debug, Clone)]
pub struct Recipe {
    /// version of the file format, sem ver
    pub version: String,
    /// short title of the recipe
    pub title: String,
    /// a longer description of the recipe
    pub description: String,
    /// the instructions for the model
    pub instructions: Option<String>,
    /// the prompt to start the session with
    pub prompt: Option<String>,
    /// a list of extensions to enable
    pub extensions: Option<Vec<ExtensionConfig>>,
    /// settings for the recipe
    pub settings: Option<Settings>,
    /// the activity pills that show up when loading the recipe
    pub activities: Option<Vec<String>>,
    /// any additional author information
    pub author: Option<Author>,
    /// any additional parameters for the recipe
    pub parameters: Option<Vec<RecipeParameter>>,
    /// response configuration including JSON schema
    pub response: Option<Response>,
    /// sub-recipes for the recipe
    pub sub_recipes: Option<Vec<SubRecipe>>,
    /// how the recipe is tried again
    pub retry: Option<RetryConfig>,
}

/// Who wrote a recipe.
#[derive(Debug, Clone)]
pub struct Author {
    /// creator/contact information of the recipe
    pub contact: Option<String>,
    /// any additional metadata for the author
    pub metadata: Option<String>,
}

/// The settings that a recipe asks for.
#[derive(Debug, Clone)]
pub struct Settings {
    pub goose_provider: Option<String>,
    pub goose_model: Option<String>,
    /// The sampling temperature, as the bits of its single-precision
    /// floating-point representation.
    pub temperature_bits: Option<u32>,
    pub max_turns: Option<usize>,
}

/// What the final answer has to look like.
#[derive(Debug, Clone)]
pub struct Response {
    pub json_schema: Option<serde_json::Value>,
}

impl Recipe {
    /// The extensions of the recipe.
    pub open spec fn extension_list(&self) -> Seq<ExtensionConfig> {
        match self.extensions {
            Some(extensions) => extensions@,
            None => Seq::empty(),
        }
    }
}

/// The extensions of a recipe are those it lists, and none where it lists none.
pub proof fn lemma_extension_list(recipe: Recipe)
    ensures
        recipe.extensions matches Some(extensions) ==> recipe.extension_list() == extensions@,
        recipe.extensions is None ==> recipe.extension_list().len() == 0,
{
}

} // verus!
