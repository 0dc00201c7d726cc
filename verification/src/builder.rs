//! Building recipes step by step.

use vstd::prelude::*;

use crate::extension::ExtensionConfig;
use crate::parameter::RecipeParameter;
use crate::recipe::{default_version, Author, Recipe, Response, Settings};
use crate::retry::RetryConfig;
use crate::sub_recipe::SubRecipe;
use crate::text::IntoText;

verus! {

/// Builder for creating Recipe instances
pub struct RecipeBuilder {
    version: String,
    title: Option<String>,
    description: Option<String>,
    instructions: Option<String>,
    prompt: Option<String>,
    extensions: Option<Vec<ExtensionConfig>>,
    settings: Option<Settings>,
    activities: Option<Vec<String>>,
    author: Option<Author>,
    parameters: Option<Vec<RecipeParameter>>,
    response: Option<Response>,
    sub_recipes: Option<Vec<SubRecipe>>,
    retry: Option<RetryConfig>,
}

/// What a builder was given so far.
pub struct RecipeParts {
    pub version: String,
    pub title: Option<String>,
    pub description: Option<String>,
    pub instructions: Option<String>,
    pub prompt: Option<String>,
    pub extensions: Option<Vec<ExtensionConfig>>,
    pub settings: Option<Settings>,
    pub activities: Option<Vec<String>>,
    pub author: Option<Author>,
    pub parameters: Option<Vec<RecipeParameter>>,
    pub response: Option<Response>,
    pub sub_recipes: Option<Vec<SubRecipe>>,
    pub retry: Option<RetryConfig>,
}

impl RecipeBuilder {
    /// What the builder was given so far.
    pub closed spec fn parts(&self) -> RecipeParts {
        RecipeParts {
            version: self.version,
            title: self.title,
            description: self.description,
            instructions: self.instructions,
            prompt: self.prompt,
            extensions: self.extensions,
            settings: self.settings,
            activities: self.activities,
            author: self.author,
            parameters: self.parameters,
            response: self.response,
            sub_recipes: self.sub_recipes,
            retry: self.retry,
        }
    }
}

impl RecipeBuilder {
    /// Sets the version of the file format.
    pub fn version<T: IntoText>(self, version: T) -> (r: Self)
        ensures
            r.parts().version@ == version.text(),
            r.parts() == (RecipeParts { version: r.parts().version, ..self.parts() }),
    {
        RecipeBuilder { version: version.into_text(), ..self }
    }

    /// Sets the title, which is required.
    pub fn title<T: IntoText>(self, title: T) -> (r: Self)
        ensures
            r.parts().title matches Some(text) && text@ == title.text(),
            r.parts() == (RecipeParts { title: r.parts().title, ..self.parts() }),
    {
        RecipeBuilder { title: Some(title.into_text()), ..self }
    }

    /// Sets the description, which is required.
    pub fn description<T: IntoText>(self, description: T) -> (r: Self)
        ensures
            r.parts().description matches Some(text) && text@ == description.text(),
            r.parts() == (RecipeParts { description: r.parts().description, ..self.parts() }),
    {
        RecipeBuilder { description: Some(description.into_text()), ..self }
    }

    /// Sets the instructions for the model.
    pub fn instructions<T: IntoText>(self, instructions: T) -> (r: Self)
        ensures
            r.parts().instructions matches Some(text) && text@ == instructions.text(),
            r.parts() == (RecipeParts { instructions: r.parts().instructions, ..self.parts() }),
    {
        RecipeBuilder { instructions: Some(instructions.into_text()), ..self }
    }

    /// Sets the prompt to start the session with.
    pub fn prompt<T: IntoText>(self, prompt: T) -> (r: Self)
        ensures
            r.parts().prompt matches Some(text) && text@ == prompt.text(),
            r.parts() == (RecipeParts { prompt: r.parts().prompt, ..self.parts() }),
    {
        RecipeBuilder { prompt: Some(prompt.into_text()), ..self }
    }

    /// Sets the extensions to enable.
    pub fn extensions(self, extensions: Vec<ExtensionConfig>) -> (r: Self)
        ensures
            r.parts() == (RecipeParts { extensions: Some(extensions), ..self.parts() }),
    {
        RecipeBuilder { extensions: Some(extensions), ..self }
    }

    /// Sets the settings.
    pub fn settings(self, settings: Settings) -> (r: Self)
        ensures
            r.parts() == (RecipeParts { settings: Some(settings), ..self.parts() }),
    {
        RecipeBuilder { settings: Some(settings), ..self }
    }

    /// Sets the activities to offer.
    pub fn activities(self, activities: Vec<String>) -> (r: Self)
        ensures
            r.parts() == (RecipeParts { activities: Some(activities), ..self.parts() }),
    {
        RecipeBuilder { activities: Some(activities), ..self }
    }

    /// Sets who wrote the recipe.
    pub fn author(self, author: Author) -> (r: Self)
        ensures
            r.parts() == (RecipeParts { author: Some(author), ..self.parts() }),
    {
        RecipeBuilder { author: Some(author), ..self }
    }

    /// Sets the parameters.
    pub fn parameters(self, parameters: Vec<RecipeParameter>) -> (r: Self)
        ensures
            r.parts() == (RecipeParts { parameters: Some(parameters), ..self.parts() }),
    {
        RecipeBuilder { parameters: Some(parameters), ..self }
    }

    /// Sets what the answer has to look like.
    pub fn response(self, response: Response) -> (r: Self)
        ensures
            r.parts() == (RecipeParts { response: Some(response), ..self.parts() }),
    {
        RecipeBuilder { response: Some(response), ..self }
    }

    /// Sets the sub-recipes.
    pub fn sub_recipes(self, sub_recipes: Vec<SubRecipe>) -> (r: Self)
        ensures
            r.parts() == (RecipeParts { sub_recipes: Some(sub_recipes), ..self.parts() }),
    {
        RecipeBuilder { sub_recipes: Some(sub_recipes), ..self }
    }

    /// Sets how the recipe is tried again.
    pub fn retry(self, retry: RetryConfig) -> (r: Self)
        ensures
            r.parts() == (RecipeParts { retry: Some(retry), ..self.parts() }),
    {
        RecipeBuilder { retry: Some(retry), ..self }
    }

    /// The recipe, or what it lacks: a title, a description, or both instructions and
    /// a prompt.
    pub fn build(self) -> (r: Result<Recipe, &'static str>)
        ensures
            match r {
                Ok(recipe) => built(self.parts()) == Ok::<_, Seq<char>>(recipe),
                Err(message) => built(self.parts()) == Err::<Recipe, _>(message@),
            },
            r matches Ok(recipe) ==> {
                &&& recipe.version == self.parts().version
                &&& Some(recipe.title) == self.parts().title
                &&& Some(recipe.description) == self.parts().description
                &&& recipe.instructions == self.parts().instructions
                &&& recipe.prompt == self.parts().prompt
                &&& recipe.extensions == self.parts().extensions
                &&& recipe.settings == self.parts().settings
                &&& recipe.activities == self.parts().activities
                &&& recipe.author == self.parts().author
                &&& recipe.parameters == self.parts().parameters
                &&& recipe.response == self.parts().response
                &&& recipe.sub_recipes == self.parts().sub_recipes
                &&& recipe.retry == self.parts().retry
            },
    {
        let title = match self.title {
            Some(title) => title,
            None => {
                return Err("Title is required");
            },
        };
        let description = match self.description {
            Some(description) => description,
            None => {
                return Err("Description is required");
            },
        };
        if self.instructions.is_none() && self.prompt.is_none() {
            return Err("At least one of 'prompt' or 'instructions' is required");
        }
        Ok(
            Recipe {
                version: self.version,
                title,
                description,
                instructions: self.instructions,
                prompt: self.prompt,
                extensions: self.extensions,
                settings: self.settings,
                activities: self.activities,
                author: self.author,
                parameters: self.parameters,
                response: self.response,
                sub_recipes: self.sub_recipes,
                retry: self.retry,
            },
        )
    }
}

/// The recipe of these parts, or what is missing first.
pub open spec fn built(parts: RecipeParts) -> Result<Recipe, Seq<char>> {
    if parts.title is None {
        Err("Title is required"@)
    } else if parts.description is None {
        Err("Description is required"@)
    } else if parts.instructions is None && parts.prompt is None {
        Err("At least one of 'prompt' or 'instructions' is required"@)
    } else {
        Ok(
            Recipe {
                version: parts.version,
                title: parts.title->0,
                description: parts.description->0,
                instructions: parts.instructions,
                prompt: parts.prompt,
                extensions: parts.extensions,
                settings: parts.settings,
                activities: parts.activities,
                author: parts.author,
                parameters: parts.parameters,
                response: parts.response,
                sub_recipes: parts.sub_recipes,
                retry: parts.retry,
            },
        )
    }
}

/// A recipe can be built exactly if it has a title, a description, and instructions
/// or a prompt; a built recipe has instructions or a prompt.
pub proof fn lemma_built_is_complete(parts: RecipeParts)
    ensures
        built(parts) is Ok <==> parts.title is Some && parts.description is Some && (
        parts.instructions is Some || parts.prompt is Some),
        built(parts) matches Ok(recipe) ==> recipe.instructions is Some || recipe.prompt is Some,
{
}

/// A built recipe has in each field what the builder was given for it: nothing is lost,
/// changed or made up.
pub proof fn lemma_built_keeps_every_part(parts: RecipeParts, recipe: Recipe)
    requires
        built(parts) == Ok::<Recipe, Seq<char>>(recipe),
    ensures
        recipe.version == parts.version,
        Some(recipe.title) == parts.title,
        Some(recipe.description) == parts.description,
        recipe.instructions == parts.instructions,
        recipe.prompt == parts.prompt,
        recipe.extensions == parts.extensions,
        recipe.settings == parts.settings,
        recipe.activities == parts.activities,
        recipe.author == parts.author,
        recipe.parameters == parts.parameters,
        recipe.response == parts.response,
        recipe.sub_recipes == parts.sub_recipes,
        recipe.retry == parts.retry,
{
}

/// What is missing is said: first a title, then a description, then instructions or a
/// prompt.
pub proof fn lemma_built_says_what_is_missing(parts: RecipeParts)
    ensures
        parts.title is None ==> built(parts) == Err::<Recipe, Seq<char>>("Title is required"@),
        parts.title is Some && parts.description is None ==> built(parts) == Err::<
            Recipe,
            Seq<char>,
        >("Description is required"@),
        parts.title is Some && parts.description is Some && parts.instructions is None
            && parts.prompt is None ==> built(parts) == Err::<Recipe, Seq<char>>(
            "At least one of 'prompt' or 'instructions' is required"@,
        ),
{
}

/// Two builders that build the same recipe were given the same.
pub proof fn lemma_built_injective(a: RecipeParts, b: RecipeParts)
    requires
        built(a) is Ok,
        built(a) == built(b),
    ensures
        a == b,
{
}

impl Recipe {
    /// A builder that was given nothing yet.
    pub fn builder() -> (r: RecipeBuilder)
        ensures
            r.parts().version@ == "1.0.0"@,
            r.parts() == (RecipeParts {
                version: r.parts().version,
                title: None,
                description: None,
                instructions: None,
                prompt: None,
                extensions: None,
                settings: None,
                activities: None,
                author: None,
                parameters: None,
                response: None,
                sub_recipes: None,
                retry: None,
            }),
    {
        RecipeBuilder {
            version: default_version(),
            title: None,
            description: None,
            instructions: None,
            prompt: None,
            extensions: None,
            settings: None,
            activities: None,
            author: None,
            parameters: None,
            response: None,
            sub_recipes: None,
            retry: None,
        }
    }
}

} // verus!
