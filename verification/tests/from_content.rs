//! Reading recipes from text, with a decoder on top of the real YAML reader.

use std::collections::HashMap;
use std::fmt;

use goose_recipe::recipe::default_version;
use goose_recipe::sub_recipe::deserialize_value_map_as_string;
use goose_recipe::{
    Author, Envs, ExtensionConfig, Recipe, RecipeDocument, RecipeParameter,
    RecipeParameterInputType, RecipeParameterRequirement, Response, RetryConfig, Settings,
    StringMap, SubRecipe, SuccessCheck,
};
use serde::de::{Deserialize, Deserializer, Error, IgnoredAny, MapAccess, Visitor};

struct Decoded<T>(T);

struct FieldsOf<T>(std::marker::PhantomData<T>);

/// A value that is read from the fields of a mapping.
trait FromFields: Sized {
    fn from_fields<'de, A: MapAccess<'de>>(map: A) -> Result<Self, A::Error>;
}

impl<'de, T: FromFields> Visitor<'de> for FieldsOf<T> {
    type Value = Decoded<T>;

    fn expecting(&self, f: &mut fmt::Formatter<'_>) -> fmt::Result {
        f.write_str("a mapping")
    }

    fn visit_map<A: MapAccess<'de>>(self, map: A) -> Result<Decoded<T>, A::Error> {
        T::from_fields(map).map(Decoded)
    }
}

impl<'de, T: FromFields> Deserialize<'de> for Decoded<T> {
    fn deserialize<D: Deserializer<'de>>(deserializer: D) -> Result<Self, D::Error> {
        deserializer.deserialize_map(FieldsOf(std::marker::PhantomData))
    }
}

fn plain<T>(decoded: Option<Decoded<T>>) -> Option<T> {
    decoded.map(|d| d.0)
}

fn plain_list<T>(decoded: Option<Vec<Decoded<T>>>) -> Option<Vec<T>> {
    decoded.map(|list| list.into_iter().map(|d| d.0).collect())
}

impl FromFields for Recipe {
    fn from_fields<'de, A: MapAccess<'de>>(mut map: A) -> Result<Self, A::Error> {
        let mut version: Option<String> = None;
        let mut title: Option<String> = None;
        let mut description: Option<String> = None;
        let mut recipe = Recipe {
            version: default_version(),
            title: String::new(),
            description: String::new(),
            instructions: None,
            prompt: None,
            extensions: None,
            settings: None,
            activities: None,
            author: None,
            parameters: None,
            response: None,
            sub_recipes: None,
            retry: None,
        };
        while let Some(key) = map.next_key::<String>()? {
            match key.as_str() {
                "version" => version = Some(map.next_value()?),
                "title" => title = Some(map.next_value()?),
                "description" => description = Some(map.next_value()?),
                "instructions" => recipe.instructions = map.next_value()?,
                "prompt" => recipe.prompt = map.next_value()?,
                "extensions" => recipe.extensions = plain_list(map.next_value()?),
                "settings" => recipe.settings = plain(map.next_value()?),
                "activities" => recipe.activities = map.next_value()?,
                "author" => recipe.author = plain(map.next_value()?),
                "parameters" => recipe.parameters = plain_list(map.next_value()?),
                "response" => recipe.response = plain(map.next_value()?),
                "sub_recipes" => recipe.sub_recipes = plain_list(map.next_value()?),
                "retry" => recipe.retry = plain(map.next_value()?),
                _ => {
                    map.next_value::<IgnoredAny>()?;
                }
            }
        }
        if let Some(version) = version {
            recipe.version = version;
        }
        recipe.title = title.ok_or_else(|| A::Error::missing_field("title"))?;
        recipe.description = description.ok_or_else(|| A::Error::missing_field("description"))?;
        Ok(recipe)
    }
}

impl FromFields for Settings {
    fn from_fields<'de, A: MapAccess<'de>>(mut map: A) -> Result<Self, A::Error> {
        let mut settings = Settings {
            goose_provider: None,
            goose_model: None,
            temperature_bits: None,
            max_turns: None,
        };
        while let Some(key) = map.next_key::<String>()? {
            match key.as_str() {
                "goose_provider" => settings.goose_provider = map.next_value()?,
                "goose_model" => settings.goose_model = map.next_value()?,
                "temperature" => {
                    settings.temperature_bits = map.next_value::<Option<f32>>()?.map(f32::to_bits)
                }
                "max_turns" => settings.max_turns = map.next_value()?,
                _ => {
                    map.next_value::<IgnoredAny>()?;
                }
            }
        }
        Ok(settings)
    }
}

impl FromFields for Author {
    fn from_fields<'de, A: MapAccess<'de>>(mut map: A) -> Result<Self, A::Error> {
        let mut author = Author { contact: None, metadata: None };
        while let Some(key) = map.next_key::<String>()? {
            match key.as_str() {
                "contact" => author.contact = map.next_value()?,
                "metadata" => author.metadata = map.next_value()?,
                _ => {
                    map.next_value::<IgnoredAny>()?;
                }
            }
        }
        Ok(author)
    }
}

impl FromFields for Response {
    fn from_fields<'de, A: MapAccess<'de>>(mut map: A) -> Result<Self, A::Error> {
        let mut response = Response { json_schema: None };
        while let Some(key) = map.next_key::<String>()? {
            if key == "json_schema" {
                response.json_schema = map.next_value()?;
            } else {
                map.next_value::<IgnoredAny>()?;
            }
        }
        Ok(response)
    }
}

impl FromFields for SubRecipe {
    fn from_fields<'de, A: MapAccess<'de>>(mut map: A) -> Result<Self, A::Error> {
        let mut sub = SubRecipe {
            name: String::new(),
            path: String::new(),
            values: None,
            sequential_when_repeated: false,
            description: None,
        };
        while let Some(key) = map.next_key::<String>()? {
            match key.as_str() {
                "name" => sub.name = map.next_value()?,
                "path" => sub.path = map.next_value()?,
                "values" => {
                    let raw: Option<HashMap<String, serde_json::Value>> = map.next_value()?;
                    let pairs = raw.map(|raw| raw.into_iter().collect::<Vec<_>>());
                    sub.values =
                        deserialize_value_map_as_string(pairs).map_err(A::Error::custom)?;
                }
                "sequential_when_repeated" => sub.sequential_when_repeated = map.next_value()?,
                "description" => sub.description = map.next_value()?,
                _ => {
                    map.next_value::<IgnoredAny>()?;
                }
            }
        }
        Ok(sub)
    }
}

impl FromFields for RecipeParameter {
    fn from_fields<'de, A: MapAccess<'de>>(mut map: A) -> Result<Self, A::Error> {
        let mut parameter = RecipeParameter {
            key: String::new(),
            input_type: RecipeParameterInputType::Select,
            requirement: RecipeParameterRequirement::UserPrompt,
            description: String::new(),
            default: None,
            options: None,
        };
        while let Some(key) = map.next_key::<String>()? {
            match key.as_str() {
                "key" => parameter.key = map.next_value()?,
                "input_type" => {
                    let written: String = map.next_value()?;
                    parameter.input_type = RecipeParameterInputType::from_label(&written)
                        .ok_or_else(|| A::Error::custom("unknown input type"))?;
                }
                "requirement" => {
                    let written: String = map.next_value()?;
                    parameter.requirement = RecipeParameterRequirement::from_label(&written)
                        .ok_or_else(|| A::Error::custom("unknown requirement"))?;
                }
                "description" => parameter.description = map.next_value()?,
                "default" => parameter.default = map.next_value()?,
                "options" => parameter.options = map.next_value()?,
                _ => {
                    map.next_value::<IgnoredAny>()?;
                }
            }
        }
        Ok(parameter)
    }
}

impl FromFields for RetryConfig {
    fn from_fields<'de, A: MapAccess<'de>>(mut map: A) -> Result<Self, A::Error> {
        let mut retry = RetryConfig {
            max_retries: 0,
            checks: vec![],
            on_failure: None,
            timeout_seconds: None,
            on_failure_timeout_seconds: None,
        };
        while let Some(key) = map.next_key::<String>()? {
            match key.as_str() {
                "max_retries" => retry.max_retries = map.next_value()?,
                "checks" => {
                    let checks: Vec<HashMap<String, String>> = map.next_value()?;
                    retry.checks = checks
                        .into_iter()
                        .filter_map(|mut check| check.remove("command"))
                        .map(|command| SuccessCheck::Shell { command })
                        .collect();
                }
                "on_failure" => retry.on_failure = map.next_value()?,
                _ => {
                    map.next_value::<IgnoredAny>()?;
                }
            }
        }
        Ok(retry)
    }
}

fn text_of(value: &serde_yaml::Value, key: &str) -> String {
    value.get(key).and_then(|v| v.as_str()).unwrap_or("").to_string()
}

fn texts_of(value: &serde_yaml::Value, key: &str) -> Vec<String> {
    match value.get(key) {
        Some(serde_yaml::Value::Sequence(list)) => {
            list.iter().filter_map(|v| v.as_str()).map(str::to_string).collect()
        }
        _ => vec![],
    }
}

impl FromFields for ExtensionConfig {
    fn from_fields<'de, A: MapAccess<'de>>(mut map: A) -> Result<Self, A::Error> {
        let mut fields = serde_yaml::Mapping::new();
        while let Some(key) = map.next_key::<serde_yaml::Value>()? {
            fields.insert(key, map.next_value::<serde_yaml::Value>()?);
        }
        let value = serde_yaml::Value::Mapping(fields);
        let name = text_of(&value, "name");
        let description = text_of(&value, "description");
        let timeout = value.get("timeout").and_then(|v| v.as_u64());
        Ok(match text_of(&value, "type").as_str() {
            "stdio" => ExtensionConfig::Stdio {
                name,
                description,
                cmd: text_of(&value, "cmd"),
                args: texts_of(&value, "args"),
                envs: Envs::new(StringMap::new()),
                env_keys: texts_of(&value, "env_keys"),
                timeout,
                cwd: value.get("cwd").and_then(|v| v.as_str()).map(str::to_string),
                bundled: None,
                available_tools: vec![],
            },
            "builtin" => ExtensionConfig::Builtin {
                name,
                description,
                display_name: None,
                timeout,
                bundled: None,
                available_tools: vec![],
            },
            "platform" => ExtensionConfig::Platform {
                name,
                description,
                display_name: None,
                bundled: None,
                available_tools: vec![],
            },
            _ => ExtensionConfig::Other { name, definition: value.clone() },
        })
    }
}

fn decode(document: RecipeDocument<'_>) -> Result<Recipe, String> {
    match document {
        RecipeDocument::Nested(value) => serde_yaml::from_value::<Decoded<Recipe>>(value),
        RecipeDocument::Whole(content) => serde_yaml::from_str::<Decoded<Recipe>>(content),
    }
    .map(|decoded| decoded.0)
    .map_err(|e| e.to_string())
}

fn from_content(content: &str) -> Result<Recipe, String> {
    Recipe::from_content(content, decode)
}

#[test]
fn test_from_content_with_json() {
    let content = r#"{
        "version": "1.0.0",
        "title": "Test Recipe",
        "description": "A test recipe",
        "prompt": "Test prompt",
        "instructions": "Test instructions",
        "extensions": [
            {
                "type": "stdio",
                "name": "test_extension",
                "cmd": "test_cmd",
                "args": ["arg1", "arg2"],
                "timeout": 300,
                "description": "Test extension"
            }
        ],
        "parameters": [
            {
                "key": "test_param",
                "input_type": "string",
                "requirement": "required",
                "description": "A test parameter"
            }
        ],
        "response": {
            "json_schema": {
                "type": "object",
                "properties": {
                    "name": {
                        "type": "string"
                    },
                    "age": {
                        "type": "number"
                    }
                },
                "required": ["name"]
            }
        },
        "sub_recipes": [
            {
                "name": "test_sub_recipe",
                "path": "test_sub_recipe.yaml",
                "values": {
                    "sub_recipe_param": "sub_recipe_value"
                }
            }
        ]
    }"#;

    let recipe = from_content(content).unwrap();
    assert_eq!(recipe.version, "1.0.0");
    assert_eq!(recipe.title, "Test Recipe");
    assert_eq!(recipe.description, "A test recipe");
    assert_eq!(recipe.instructions, Some("Test instructions".to_string()));
    assert_eq!(recipe.prompt, Some("Test prompt".to_string()));

    assert!(recipe.extensions.is_some());
    let extensions = recipe.extensions.as_ref().unwrap();
    assert_eq!(extensions.len(), 2);
    assert!(extensions.iter().any(|e| e.name() == "test_extension"));
    assert!(extensions.iter().any(|e| e.name() == "summon"));

    assert!(recipe.parameters.is_some());
    let parameters = recipe.parameters.unwrap();
    assert_eq!(parameters.len(), 1);
    assert_eq!(parameters[0].key, "test_param");
    assert!(matches!(parameters[0].input_type, RecipeParameterInputType::String));
    assert!(matches!(parameters[0].requirement, RecipeParameterRequirement::Required));

    assert!(recipe.response.is_some());
    let response = recipe.response.unwrap();
    assert!(response.json_schema.is_some());
    let json_schema = response.json_schema.unwrap();
    assert_eq!(json_schema["type"], "object");
    assert!(json_schema["properties"].is_object());
    assert_eq!(json_schema["properties"]["name"]["type"], "string");
    assert_eq!(json_schema["properties"]["age"]["type"], "number");
    assert_eq!(
        json_schema["required"],
        serde_json::Value::Array(vec![serde_json::Value::String("name".to_string())])
    );

    assert!(recipe.sub_recipes.is_some());
    let sub_recipes = recipe.sub_recipes.unwrap();
    assert_eq!(sub_recipes.len(), 1);
    assert_eq!(sub_recipes[0].name, "test_sub_recipe");
    assert_eq!(sub_recipes[0].path, "test_sub_recipe.yaml");
    assert_eq!(
        sub_recipes[0].values.as_ref().map(|values| values.pairs()),
        Some(vec![("sub_recipe_param".to_string(), "sub_recipe_value".to_string())])
    );
}

#[test]
fn test_from_content_with_yaml() {
    let content = r#"version: 1.0.0
title: Test Recipe
description: A test recipe
prompt: Test prompt
instructions: Test instructions
extensions:
  - type: stdio
    name: test_extension
    cmd: test_cmd
    args: [arg1, arg2]
    timeout: 300
    description: Test extension
parameters:
  - key: test_param
    input_type: string
    requirement: required
    description: A test parameter
response:
  json_schema:
    type: object
    properties:
      name:
        type: string
      age:
        type: number
    required:
      - name
sub_recipes:
  - name: test_sub_recipe
    path: test_sub_recipe.yaml
    values:
      sub_recipe_param: sub_recipe_value"#;

    let recipe = from_content(content).unwrap();
    assert_eq!(recipe.version, "1.0.0");
    assert_eq!(recipe.title, "Test Recipe");
    assert_eq!(recipe.description, "A test recipe");
    assert_eq!(recipe.instructions, Some("Test instructions".to_string()));
    assert_eq!(recipe.prompt, Some("Test prompt".to_string()));

    assert!(recipe.extensions.is_some());
    let extensions = recipe.extensions.as_ref().unwrap();
    assert_eq!(extensions.len(), 2);
    assert!(extensions.iter().any(|e| e.name() == "test_extension"));
    assert!(extensions.iter().any(|e| e.name() == "summon"));

    assert!(recipe.parameters.is_some());
    let parameters = recipe.parameters.unwrap();
    assert_eq!(parameters.len(), 1);
    assert_eq!(parameters[0].key, "test_param");
    assert!(matches!(parameters[0].input_type, RecipeParameterInputType::String));
    assert!(matches!(parameters[0].requirement, RecipeParameterRequirement::Required));

    assert!(recipe.response.is_some());
    let response = recipe.response.unwrap();
    assert!(response.json_schema.is_some());
    let json_schema = response.json_schema.unwrap();
    assert_eq!(json_schema["type"], "object");
    assert!(json_schema["properties"].is_object());
    assert_eq!(json_schema["properties"]["name"]["type"], "string");
    assert_eq!(json_schema["properties"]["age"]["type"], "number");
    assert_eq!(
        json_schema["required"],
        serde_json::Value::Array(vec![serde_json::Value::String("name".to_string())])
    );

    assert!(recipe.sub_recipes.is_some());
    let sub_recipes = recipe.sub_recipes.unwrap();
    assert_eq!(sub_recipes.len(), 1);
    assert_eq!(sub_recipes[0].name, "test_sub_recipe");
    assert_eq!(sub_recipes[0].path, "test_sub_recipe.yaml");
    assert_eq!(
        sub_recipes[0].values.as_ref().map(|values| values.pairs()),
        Some(vec![("sub_recipe_param".to_string(), "sub_recipe_value".to_string())])
    );
}

#[test]
fn test_from_content_invalid_json() {
    let content = "{ invalid json }";

    let result = from_content(content);
    assert!(result.is_err());
}

#[test]
fn test_from_content_missing_required_fields() {
    let content = r#"{
        "version": "1.0.0",
        "description": "A test recipe"
    }"#;

    let result = from_content(content);
    assert!(result.is_err());
}

#[test]
fn test_from_content_with_author() {
    let content = r#"{
        "version": "1.0.0",
        "title": "Test Recipe",
        "description": "A test recipe",
        "instructions": "Test instructions",
        "author": {
            "contact": "test@example.com"
        }
    }"#;

    let recipe = from_content(content).unwrap();

    assert!(recipe.author.is_some());
    let author = recipe.author.unwrap();
    assert_eq!(author.contact, Some("test@example.com".to_string()));
}

#[test]
fn test_from_content_with_activities() {
    let content = r#"{
        "version": "1.0.0",
        "title": "Test Recipe",
        "description": "A test recipe",
        "instructions": "Test instructions",
        "activities": ["activity1", "activity2"]
    }"#;

    let recipe = from_content(content).unwrap();

    assert!(recipe.activities.is_some());
    let activities = recipe.activities.unwrap();
    assert_eq!(activities, vec!["activity1", "activity2"]);
}

#[test]
fn test_from_content_with_nested_recipe_yaml() {
    let content = r#"name: test_recipe
recipe:
  title: Nested Recipe Test
  description: A test recipe with nested structure
  instructions: Test instructions for nested recipe
  activities:
    - Test activity 1
    - Test activity 2
  prompt: Test prompt
  extensions: []
isGlobal: true"#;

    let recipe = from_content(content).unwrap();
    assert_eq!(recipe.title, "Nested Recipe Test");
    assert_eq!(recipe.description, "A test recipe with nested structure");
    assert_eq!(
        recipe.instructions,
        Some("Test instructions for nested recipe".to_string())
    );
    assert_eq!(recipe.prompt, Some("Test prompt".to_string()));
    assert!(recipe.activities.is_some());
    let activities = recipe.activities.unwrap();
    assert_eq!(activities, vec!["Test activity 1", "Test activity 2"]);
    assert!(recipe.extensions.is_some());
    let extensions = recipe.extensions.unwrap();
    assert_eq!(extensions.len(), 0);
}

#[test]
fn test_from_content_with_null_description() {
    let content = r#"{
        "version": "1.0.0",
        "title": "Test Recipe",
        "description": "A test recipe",
        "instructions": "Test instructions",
        "extensions": [
            {
                "type": "stdio",
                "name": "test_extension",
                "cmd": "test_cmd",
                "args": [],
                "timeout": 300,
                "description": null
            }
        ]
    }"#;

    let recipe = from_content(content).unwrap();

    assert!(recipe.extensions.is_some());
    let extensions = recipe.extensions.unwrap();
    assert_eq!(extensions.len(), 1);

    if let ExtensionConfig::Stdio { name, description, .. } = &extensions[0] {
        assert_eq!(name, "test_extension");
        assert_eq!(description, "");
    } else {
        panic!("Expected Stdio extension");
    }
}

#[test]
fn test_format_serde_error_removes_location() {
    let content = r#"{"version": "1.0.0"}"#;

    let result = from_content(content);
    assert!(result.is_err());

    let error_msg = result.unwrap_err().to_string();
    assert_eq!(error_msg, "missing field `title`");
}

#[test]
fn test_format_serde_error_missing_title() {
    let content = r#"{
        "version": "1.0.0",
        "description": "A test recipe",
        "instructions": "Test instructions"
    }"#;

    let result = from_content(content);
    assert!(result.is_err());

    let error_msg = result.unwrap_err().to_string();
    assert_eq!(error_msg, "missing field `title`");
}

#[test]
fn test_format_serde_error_invalid_type() {
    let content = r#"{
        "version": "1.0.0",
        "title": "Test",
        "description": "Test",
        "instructions": "Test",
        "settings": {
            "temperature": "not_a_number"
        }
    }"#;

    let result = from_content(content);
    assert!(result.is_err());

    let error_msg = result.unwrap_err().to_string();
    assert_eq!(
        error_msg,
        "settings.temperature: invalid type: string \"not_a_number\", expected f32"
    );
}

#[test]
fn default_version_fills_in() {
    let recipe = from_content("title: T\ndescription: D\nprompt: P").unwrap();
    assert_eq!(recipe.version, "1.0.0");
}

#[test]
fn developer_brings_analyze_and_sub_recipes_bring_summon() {
    let content = r#"title: T
description: D
prompt: P
extensions:
  - type: builtin
    name: developer
sub_recipes:
  - name: s
    path: s.yaml
    values:
      count: 3
      flags: [true, null]
      name: plain"#;
    let recipe = from_content(content).unwrap();
    let names: Vec<String> =
        recipe.extensions.as_ref().unwrap().iter().map(|e| e.name()).collect();
    assert_eq!(names, vec!["developer", "analyze", "summon"]);
    let values = recipe.sub_recipes.as_ref().unwrap()[0].values.as_ref().unwrap();
    assert_eq!(values.len(), 3);
    assert_eq!(values.get("count"), Some("3"));
    assert_eq!(values.get("flags"), Some("[true,null]"));
    assert_eq!(values.get("name"), Some("plain"));
    assert_eq!(values.get("other"), None);
}

#[test]
fn settings_keep_the_temperature() {
    let content = "title: T\ndescription: D\nprompt: P\nsettings:\n  temperature: 0.5";
    let recipe = from_content(content).unwrap();
    let bits = recipe.settings.unwrap().temperature_bits.unwrap();
    assert_eq!(f32::from_bits(bits), 0.5);
}

#[test]
fn text_that_is_no_yaml_is_read_as_a_whole() {
    let content = "a: [unclosed";
    assert!(matches!(
        goose_recipe::document::find_recipe(content),
        RecipeDocument::Whole(text) if text == content
    ));
    assert!(from_content(content).is_err());
}

#[test]
fn a_mapping_without_the_key_is_read_as_a_whole() {
    let content = "title: T";
    assert!(matches!(
        goose_recipe::document::find_recipe(content),
        RecipeDocument::Whole(text) if text == content
    ));
}

#[test]
fn the_nested_value_is_found() {
    match goose_recipe::document::find_recipe("recipe:\n  title: T") {
        RecipeDocument::Nested(value) => {
            assert_eq!(value.get("title").and_then(|v| v.as_str()), Some("T"));
        }
        RecipeDocument::Whole(_) => panic!("expected the nested value"),
    }
}
