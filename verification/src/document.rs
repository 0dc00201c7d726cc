//! Recipes as documents: where in a document a recipe stands, and what is done to
//! one that has been read.

use vstd::prelude::*;

#[allow(unused_imports)]
use crate::extension::ExtensionConfig;
#[allow(unused_imports)]
use crate::injection::{completed, lemma_completed_adds_what_is_due};
use crate::recipe::Recipe;
use crate::text::strip_error_location;
#[allow(unused_imports)]
use crate::text::without_location;

verus! {

/// The YAML value that `serde_yaml::from_str` reads from a text, if it can.
pub uninterp spec fn yaml_document(content: Seq<char>) -> Option<serde_yaml::Value>;

/// The value that `serde_yaml::Value::get` finds under a key, if there is one.
pub uninterp spec fn yaml_entry(document: serde_yaml::Value, key: Seq<char>) -> Option<
    serde_yaml::Value,
>;

/// Trusted: `serde_yaml::from_str`, asked for a `serde_yaml::Value`, reads a text as
/// YAML. What it returns depends on the text alone; of an error no more is kept than
/// that there was one.
#[verifier::external_body]
fn read_yaml(content: &str) -> (r: Option<serde_yaml::Value>)
    ensures
        r == yaml_document(content@),
{
    serde_yaml::from_str::<serde_yaml::Value>(content).ok()
}

/// Trusted: `serde_yaml::Value::get`, asked for a text, returns the value of that key
/// if the value is a mapping that has it. What it returns depends on the value and the
/// key alone.
#[verifier::external_body]
fn get_entry<'a>(document: &'a serde_yaml::Value, key: &str) -> (r: Option<&'a serde_yaml::Value>)
    ensures
        (match r {
            Some(value) => Some(*value),
            None => None,
        }) == yaml_entry(*document, key@),
{
    document.get(key)
}

/// Where a recipe is read from.
#[derive(Debug, Clone)]
pub enum RecipeDocument<'a> {
    /// A value inside a document.
    Nested(serde_yaml::Value),
    /// A whole document.
    Whole(&'a str),
}

/// The value under the key `recipe` of a document.
pub open spec fn nested_recipe(content: Seq<char>) -> Option<serde_yaml::Value> {
    match yaml_document(content) {
        Some(document) => yaml_entry(document, "recipe"@),
        None => None,
    }
}

/// Where the recipe of `content` is read from, given what stands under its key
/// `recipe`.
pub open spec fn placed<'a>(
    nested: Option<serde_yaml::Value>,
    content: &'a str,
) -> RecipeDocument<'a> {
    match nested {
        Some(value) => RecipeDocument::Nested(value),
        None => RecipeDocument::Whole(content),
    }
}

/// Decides where the recipe of `content` is read from, given what stands under its key
/// `recipe`: there, or else from all of it.
pub fn place_recipe<'a>(nested: Option<serde_yaml::Value>, content: &'a str) -> (r: RecipeDocument<
    'a,
>)
    ensures
        r == placed(nested, content),
{
    match nested {
        Some(value) => RecipeDocument::Nested(value),
        None => RecipeDocument::Whole(content),
    }
}

/// Finds the recipe in `content`: under the key `recipe`, if it is YAML that has one,
/// else in all of it.
pub fn find_recipe<'a>(content: &'a str) -> (r: RecipeDocument<'a>)
    ensures
        r == placed(nested_recipe(content@), content),
{
    let nested: Option<serde_yaml::Value> = match read_yaml(content) {
        Some(document) => match get_entry(&document, "recipe") {
            Some(value) => Some(value.clone()),
            None => None,
        },
        None => None,
    };
    place_recipe(nested, content)
}

/// What becomes of a recipe that was read, or of the message of the error that reading
/// it gave.
pub open spec fn loaded(read: Result<Recipe, String>, r: Result<Recipe, String>) -> bool {
    match (read, r) {
        (Ok(recipe), Ok(full)) => completed(recipe, full),
        (Err(message), Err(shown)) => shown@ == without_location(message@),
        _ => false,
    }
}

/// Texts that are written over several lines where they have several.
pub open spec fn multiline_names(fields: Seq<&'static str>) -> bool {
    &&& fields.len() == 2
    &&& fields[0]@ == "prompt"@
    &&& fields[1]@ == "instructions"@
}

/// `reformat` makes `out` of `text` when it is given the names of the fields to lay
/// out.
pub open spec fn laid_out<F: FnOnce(String, [&'static str; 2]) -> String>(
    reformat: F,
    text: String,
    out: String,
) -> bool {
    exists|fields: [&'static str; 2]| #[trigger]
        reformat.ensures((text, fields), out) && multiline_names(fields@)
}

impl Recipe {
    /// Completes a recipe that was read, or strips the location from the message of the
    /// error that reading it gave.
    pub fn load(read: Result<Recipe, String>) -> (r: Result<Recipe, String>)
        ensures
            loaded(read, r),
    {
        match read {
            Ok(recipe) => {
                let mut full = recipe;
                full.complete_extensions();
                Ok(full)
            },
            Err(message) => Err(strip_error_location(message.as_str())),
        }
    }

    /// Reads a recipe. `decode` makes a recipe of where `content` has one, or gives the
    /// message of an error.
    pub fn from_content<'a, D: FnOnce(RecipeDocument<'a>) -> Result<Recipe, String>>(
        content: &'a str,
        decode: D,
    ) -> (r: Result<Recipe, String>)
        requires
            forall|nested: Option<serde_yaml::Value>|
                decode.requires((#[trigger] placed(nested, content),)),
        ensures
            exists|read: Result<Recipe, String>| #[trigger]
                decode.ensures((placed(nested_recipe(content@), content),), read) && loaded(
                    read,
                    r,
                ),
    {
        let document = find_recipe(content);
        let read = decode(document);
        Recipe::load(read)
    }

    /// Writes the recipe. `serialize` writes it as YAML or gives the message of an
    /// error; `reformat` is given the text and the names of the fields whose texts
    /// are to be laid out over several lines.
    pub fn to_yaml<
        S: FnOnce(&Recipe) -> Result<String, String>,
        F: FnOnce(String, [&'static str; 2]) -> String,
    >(&self, serialize: S, reformat: F) -> (r: Result<String, String>)
        requires
            serialize.requires((self,)),
            forall|text: String, fields: [&'static str; 2]|
                serialize.ensures((self,), Ok(text)) && multiline_names(fields@)
                    ==> #[trigger] reformat.requires((text, fields)),
        ensures
            exists|written: Result<String, String>| #[trigger]
                serialize.ensures((self,), written) && match (written, r) {
                    (Ok(text), Ok(out)) => laid_out(reformat, text, out),
                    (Err(message), Err(shown)) => shown@ == "Failed to serialize recipe: "@
                        + message@,
                    _ => false,
                },
    {
        let written = serialize(self);
        assert(serialize.ensures((self,), written));
        match written {
            Ok(text) => {
                let fields: [&'static str; 2] = ["prompt", "instructions"];
                assert(multiline_names(fields@));
                let out = reformat(text, fields);
                assert(laid_out(reformat, text, out));
                Ok(out)
            },
            Err(message) => {
                let mut shown = String::new();
                shown.append("Failed to serialize recipe: ");
                shown.append(message.as_str());
                assert(shown@ =~= "Failed to serialize recipe: "@ + message@);
                Err(shown)
            },
        }
    }
}

/// A recipe is read from under the key `recipe` of a document that has one, and from
/// all of any other text.
pub proof fn lemma_where_a_recipe_is_read(content: &str)
    ensures
        yaml_document(content@) is Some && yaml_entry(yaml_document(content@)->0, "recipe"@)
            is Some ==> placed(nested_recipe(content@), content) == RecipeDocument::Nested(
            yaml_entry(yaml_document(content@)->0, "recipe"@)->0,
        ),
        yaml_document(content@) is Some && yaml_entry(yaml_document(content@)->0, "recipe"@)
            is None ==> placed(nested_recipe(content@), content) == RecipeDocument::Whole(content),
        yaml_document(content@) is None ==> placed(nested_recipe(content@), content)
            == RecipeDocument::Whole(content),
{
}

/// What stands under the key decides where a recipe is read from.
pub proof fn lemma_placed(value: serde_yaml::Value, content: &str)
    ensures
        placed(Some(value), content) == RecipeDocument::Nested(value),
        placed(None, content) == RecipeDocument::Whole(content),
{
}

/// A recipe is loaded exactly if it could be read. Then it is completed; else the
/// message is kept without its location.
pub proof fn lemma_loaded_if_read(read: Result<Recipe, String>, r: Result<Recipe, String>)
    requires
        loaded(read, r),
    ensures
        r is Ok <==> read is Ok,
        r is Ok ==> completed(read->Ok_0, r->Ok_0),
        r is Err ==> r->Err_0@ == without_location(read->Err_0@),
{
}

/// A recipe without the builtin developer extension and without sub-recipes is loaded
/// exactly as it was read.
pub proof fn lemma_loaded_as_read(recipe: Recipe, r: Result<Recipe, String>)
    requires
        loaded(Ok(recipe), r),
        recipe.sub_recipes is None,
        recipe.extensions matches Some(extensions) ==> forall|i: int|
            0 <= i < extensions@.len() ==> !(#[trigger] extensions@[i] matches ExtensionConfig::Builtin {
                name,
                ..
            } && name@ == "developer"@),
    ensures
        r == Ok::<Recipe, String>(recipe),
{
    let full = r->Ok_0;
    lemma_completed_adds_what_is_due(recipe, full);
    let list = recipe.extension_list();
    assert forall|i: int| 0 <= i < list.len() implies !((#[trigger] list[i]) is Builtin
        && list[i].name_text() == "developer"@) by {
        assert(recipe.extensions->0@[i] == list[i]);
    }
}

/// Loading keeps every extension that was read, in its place, and everything else of
/// the recipe.
pub proof fn lemma_loaded_keeps_what_was_read(recipe: Recipe, r: Result<Recipe, String>)
    requires
        loaded(Ok(recipe), r),
    ensures
        r is Ok,
        r->Ok_0 == (Recipe { extensions: r->Ok_0.extensions, ..recipe }),
        recipe.extensions matches Some(extensions) ==> r->Ok_0.extensions is Some
            && extensions@.is_prefix_of(r->Ok_0.extensions->0@),
{
    lemma_completed_adds_what_is_due(recipe, r->Ok_0);
    if let Some(extensions) = recipe.extensions {
        let full = r->Ok_0.extension_list();
        assert(full.take(extensions@.len() as int) == extensions@);
    }
}

/// The fields that are laid out are the prompt and the instructions.
pub proof fn lemma_laid_out_fields<F: FnOnce(String, [&'static str; 2]) -> String>(
    fields: Seq<&'static str>,
    reformat: F,
    text: String,
    out: String,
)
    ensures
        multiline_names(fields) <==> fields.len() == 2 && fields[0]@ == "prompt"@ && fields[1]@
            == "instructions"@,
        laid_out(reformat, text, out) <==> exists|given: [&'static str; 2]| #[trigger]
            reformat.ensures((text, given), out) && given@[0]@ == "prompt"@ && given@[1]@
                == "instructions"@,
{
    if exists|given: [&'static str; 2]| #[trigger]
        reformat.ensures((text, given), out) && given@[0]@ == "prompt"@ && given@[1]@
            == "instructions"@ {
        let given = choose|given: [&'static str; 2]| #[trigger]
            reformat.ensures((text, given), out) && given@[0]@ == "prompt"@ && given@[1]@
                == "instructions"@;
        assert(given@.len() == 2);
        assert(multiline_names(given@));
    }
}

} // verus!
