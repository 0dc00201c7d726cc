//! Texts, characters, maps, the builder and writing.

use goose_recipe::chars::{
    contains_invisible, contains_unicode_tags, is_control, is_invisible, is_unicode_tag,
    is_whitespace, push_unicode_escape,
};
use goose_recipe::display::{display_argv_token, display_command, escape_invisible};
use goose_recipe::document::place_recipe;
use goose_recipe::order::text_precedes;
use goose_recipe::recipe::{
    default_version, BUILT_IN_RECIPE_DIR_PARAM, RECIPE_FILE_EXTENSIONS,
};
use goose_recipe::sub_recipe::{
    collect_values, deserialize_value_map_as_string, value_as_string,
};
use goose_recipe::text::{join, same_text, split_before};
use goose_recipe::{
    strip_error_location, Author, Recipe, RecipeDocument, RecipeParameter,
    RecipeParameterInputType, RecipeParameterRequirement, Response, Settings, StringMap, SubRecipe,
};

#[test]
fn character_classes_agree_with_the_standard_library() {
    for code in 0..=0x10ffffu32 {
        if let Some(c) = char::from_u32(code) {
            assert_eq!(is_control(c), c.is_control());
            assert_eq!(is_whitespace(c), c.is_whitespace());
            assert!(!c.is_control() || is_invisible(c));
        }
    }
}

#[test]
fn escapes_agree_with_the_standard_library() {
    for code in 0..=0x10ffffu32 {
        if let Some(c) = char::from_u32(code) {
            let mut out = String::new();
            push_unicode_escape(&mut out, c);
            assert_eq!(out, c.escape_unicode().to_string());
        }
    }
}

#[test]
fn format_characters_are_invisible() {
    for c in [
        '\u{AD}', '\u{61C}', '\u{200B}', '\u{200F}', '\u{202A}', '\u{202E}', '\u{2060}',
        '\u{2064}', '\u{2066}', '\u{2069}', '\u{FEFF}', '\u{FFF9}', '\u{FFFB}', '\u{E0000}',
        '\u{E007F}', '\n', '\0', '\u{9F}',
    ] {
        assert!(is_invisible(c));
    }
    for c in [
        ' ', 'a', '\u{A0}', '\u{200A}', '\u{2010}', '\u{2029}', '\u{202F}', '\u{2065}', '\u{206A}',
        '\u{FFFC}', '\u{E0080}',
    ] {
        assert!(!is_invisible(c));
    }
    assert!(is_unicode_tag('\u{E0000}') && is_unicode_tag('\u{E007F}'));
    assert!(!is_unicode_tag('\u{DFFFF}') && !is_unicode_tag('\u{E0080}'));
}

#[test]
fn tags_and_invisible_characters_are_found() {
    assert!(contains_unicode_tags("a\u{E0041}b"));
    assert!(!contains_unicode_tags("a\u{202E}b"));
    assert!(contains_invisible("a\u{202E}b"));
    assert!(!contains_invisible("a b"));
    assert!(!contains_invisible(""));
}

#[test]
fn arguments_are_quoted_where_needed() {
    assert_eq!(display_argv_token("plain"), "plain");
    assert_eq!(display_argv_token(""), "\"\"");
    assert_eq!(display_argv_token("a b"), "\"a b\"");
    assert_eq!(display_argv_token("a\u{A0}b"), "\"a\u{A0}b\"");
    assert_eq!(display_argv_token("a\\b"), "\"a\\\\b\"");
    assert_eq!(display_argv_token("\""), "\"\\\"\"");
    assert_eq!(display_argv_token("\t"), "\"\\u{9}\"");
    assert_eq!(display_argv_token("\\u{9}"), "\"\\\\u{9}\"");
}

#[test]
fn commands_are_shown_as_they_are_unless_they_hide_something() {
    assert_eq!(display_command("ls -l \"a b\""), "ls -l \"a b\"");
    assert_eq!(display_command("a\nb"), "\"a\\u{a}b\"");
    let shown = display_command("x\u{FEFF}");
    assert_eq!(shown, "\"x\\u{feff}\"");
    assert_eq!(display_command(&shown), shown);
    assert_eq!(escape_invisible("clean"), None);
    assert_eq!(escape_invisible("a\u{7F}"), Some("a\\u{7f}".to_string()));
}

#[test]
fn locations_are_stripped() {
    assert_eq!(strip_error_location("missing field at line 3 column 5"), "missing field");
    assert_eq!(strip_error_location("a at line 1 at line 2"), "a");
    assert_eq!(strip_error_location("no location"), "no location");
    assert_eq!(strip_error_location(" at line"), "");
    assert_eq!(strip_error_location(""), "");
    let once = strip_error_location("x at line 1");
    assert_eq!(strip_error_location(&once), once);
}

#[test]
fn texts_are_split_joined_and_ordered() {
    assert_eq!(split_before("abcabc", "ca"), "ab");
    assert_eq!(split_before("abc", ""), "");
    assert_eq!(split_before("ab", "abc"), "ab");
    assert_eq!(join(&vec![], ", "), "");
    assert_eq!(join(&vec!["a".to_string()], ", "), "a");
    assert_eq!(join(&vec!["a".to_string(), "b".to_string(), String::new()], ", "), "a, b, ");
    assert!(same_text("é", "é") && !same_text("e", "é") && !same_text("a", "ab"));
    let texts = ["", "A", "AB", "B", "a", "é", "\u{FFFF}", "\u{10000}"];
    for a in texts {
        for b in texts {
            assert_eq!(text_precedes(a, b), a < b);
        }
    }
}

#[test]
fn maps_keep_the_last_value() {
    let mut map = StringMap::from_pairs(vec![
        ("b".to_string(), "1".to_string()),
        ("a".to_string(), "2".to_string()),
        ("b".to_string(), "3".to_string()),
    ]);
    assert_eq!(map.len(), 2);
    assert_eq!(map.get("b"), Some("3"));
    assert_eq!(map.get("c"), None);
    map.insert("c".to_string(), "4".to_string());
    let copy = map.clone();
    let sorted: Vec<(String, String)> = vec![
        ("a".to_string(), "2".to_string()),
        ("b".to_string(), "3".to_string()),
        ("c".to_string(), "4".to_string()),
    ];
    assert_eq!(copy.sorted_pairs(), sorted);
    let ordered: Vec<(String, String)> = vec![
        ("b".to_string(), "3".to_string()),
        ("a".to_string(), "2".to_string()),
        ("c".to_string(), "4".to_string()),
    ];
    assert_eq!(copy.pairs(), ordered);
    assert_eq!(StringMap::default().len(), 0);
}

#[test]
fn values_become_texts() {
    let text = serde_json::Value::String("a \"b\"".to_string());
    assert_eq!(value_as_string(&text), Ok("a \"b\"".to_string()));
    assert_eq!(value_as_string(&serde_json::Value::Null), Ok("null".to_string()));
    assert_eq!(
        value_as_string(&serde_json::Value::Array(vec![text.clone()])),
        Ok("[\"a \\\"b\\\"\"]".to_string())
    );
    let mut object = serde_json::Map::new();
    object.insert("k".to_string(), serde_json::Value::from(1.5));
    assert_eq!(
        value_as_string(&serde_json::Value::Object(object)),
        Ok("{\"k\":1.5}".to_string())
    );
    assert!(matches!(deserialize_value_map_as_string(None), Ok(None)));
    let map = deserialize_value_map_as_string(Some(vec![
        ("t".to_string(), text),
        ("n".to_string(), serde_json::Value::from(7)),
    ]))
    .unwrap()
    .unwrap();
    assert_eq!(map.get("t"), Some("a \"b\""));
    assert_eq!(map.get("n"), Some("7"));
}

#[test]
fn the_first_failing_value_decides() {
    let failed = collect_values(vec![
        ("a".to_string(), Ok("1".to_string())),
        ("b".to_string(), Err("first".to_string())),
        ("c".to_string(), Err("second".to_string())),
    ]);
    assert_eq!(failed.map(|map| map.len()), Err("first".to_string()));
    let kept = collect_values(vec![
        ("a".to_string(), Ok("1".to_string())),
        ("a".to_string(), Ok("2".to_string())),
    ])
    .unwrap();
    assert_eq!(kept.pairs(), vec![("a".to_string(), "2".to_string())]);
}

#[test]
fn parameters_are_named_as_they_are_written() {
    assert_eq!(RecipeParameterRequirement::Required.to_string(), "required");
    assert_eq!(RecipeParameterRequirement::Optional.to_string(), "optional");
    assert_eq!(RecipeParameterRequirement::UserPrompt.to_string(), "user_prompt");
    assert_eq!(RecipeParameterInputType::String.to_string(), "string");
    assert_eq!(RecipeParameterInputType::Number.to_string(), "number");
    assert_eq!(RecipeParameterInputType::Boolean.to_string(), "boolean");
    assert_eq!(RecipeParameterInputType::Date.to_string(), "date");
    assert_eq!(RecipeParameterInputType::File.to_string(), "file");
    assert_eq!(RecipeParameterInputType::Select.to_string(), "select");
}

#[test]
fn parameters_are_read_back_from_their_names() {
    for name in ["required", "optional", "user_prompt"] {
        let requirement = RecipeParameterRequirement::from_label(name).unwrap();
        assert_eq!(requirement.to_string(), name);
    }
    for name in ["string", "number", "boolean", "date", "file", "select"] {
        let kind = RecipeParameterInputType::from_label(name).unwrap();
        assert_eq!(kind.to_string(), name);
    }
    assert!(matches!(
        RecipeParameterRequirement::from_label("user_prompt"),
        Some(RecipeParameterRequirement::UserPrompt)
    ));
    assert!(matches!(
        RecipeParameterInputType::from_label("file"),
        Some(RecipeParameterInputType::File)
    ));
    for name in ["", "Required", "UserPrompt", "user prompt", "date"] {
        assert!(RecipeParameterRequirement::from_label(name).is_none());
    }
    for name in ["", "String", "files", "fil", "required"] {
        assert!(RecipeParameterInputType::from_label(name).is_none());
    }
}

#[test]
fn texts_are_taken_in_every_form() {
    let owned = "title".to_string();
    let recipe = Recipe::builder()
        .title(&owned)
        .description('d')
        .instructions(std::borrow::Cow::Borrowed("instructions"))
        .prompt("prompt".to_string().into_boxed_str())
        .version(std::borrow::Cow::Owned::<str>("2.0.0".to_string()))
        .build()
        .unwrap();
    assert_eq!(recipe.title, "title");
    assert_eq!(recipe.description, "d");
    assert_eq!(recipe.instructions, Some("instructions".to_string()));
    assert_eq!(recipe.prompt, Some("prompt".to_string()));
    assert_eq!(recipe.version, "2.0.0");
}

#[test]
fn the_builder_says_what_is_missing() {
    assert_eq!(Recipe::builder().build().err(), Some("Title is required"));
    assert_eq!(Recipe::builder().title("t").build().err(), Some("Description is required"));
    assert_eq!(
        Recipe::builder().title("t").description("d").build().err(),
        Some("At least one of 'prompt' or 'instructions' is required")
    );
    assert_eq!(Recipe::builder().description("d").prompt("p").build().err(), Some("Title is required"));
}

#[test]
fn the_builder_keeps_what_it_was_given() {
    let recipe = Recipe::builder()
        .title("first")
        .title("t")
        .description("d")
        .instructions("i")
        .extensions(vec![])
        .settings(Settings {
            goose_provider: Some("p".to_string()),
            goose_model: None,
            temperature_bits: None,
            max_turns: Some(4),
        })
        .activities(vec!["a".to_string()])
        .author(Author { contact: None, metadata: Some("m".to_string()) })
        .parameters(vec![RecipeParameter {
            key: "k".to_string(),
            input_type: RecipeParameterInputType::Date,
            requirement: RecipeParameterRequirement::Optional,
            description: String::new(),
            default: None,
            options: None,
        }])
        .response(Response { json_schema: Some(serde_json::Value::Bool(true)) })
        .sub_recipes(vec![SubRecipe {
            name: "s".to_string(),
            path: "s.yaml".to_string(),
            values: None,
            sequential_when_repeated: true,
            description: None,
        }])
        .build()
        .unwrap();
    assert_eq!(recipe.version, default_version());
    assert_eq!(recipe.title, "t");
    assert_eq!(recipe.description, "d");
    assert_eq!(recipe.instructions, Some("i".to_string()));
    assert_eq!(recipe.prompt, None);
    assert_eq!(recipe.extensions.unwrap().len(), 0);
    assert_eq!(recipe.settings.unwrap().max_turns, Some(4));
    assert_eq!(recipe.activities, Some(vec!["a".to_string()]));
    assert_eq!(recipe.author.unwrap().metadata, Some("m".to_string()));
    assert_eq!(recipe.parameters.unwrap()[0].key, "k");
    assert_eq!(recipe.response.unwrap().json_schema, Some(serde_json::Value::Bool(true)));
    assert!(recipe.sub_recipes.unwrap()[0].sequential_when_repeated);
    assert!(recipe.retry.is_none());
}

#[test]
fn writing_lays_out_the_long_texts() {
    let recipe = Recipe::builder().title("t").description("d").prompt("p").build().unwrap();
    let written = recipe.to_yaml(
        |r| Ok(format!("title: {}", r.title)),
        |text, fields| format!("{}|{}|{}", text, fields[0], fields[1]),
    );
    assert_eq!(written, Ok("title: t|prompt|instructions".to_string()));
    let failed = recipe.to_yaml(|_| Err("boom".to_string()), |text, _| text);
    assert_eq!(failed, Err("Failed to serialize recipe: boom".to_string()));
}

#[test]
fn recipes_are_placed_and_loaded() {
    assert!(matches!(place_recipe(None, "c"), RecipeDocument::Whole("c")));
    let value = serde_yaml::Value::Bool(true);
    assert!(matches!(
        place_recipe(Some(value), "c"),
        RecipeDocument::Nested(serde_yaml::Value::Bool(true))
    ));
    let failed = Recipe::load(Err("bad at line 1".to_string()));
    assert_eq!(failed.err(), Some("bad".to_string()));
}

#[test]
fn names_of_files_and_parameters() {
    assert_eq!(BUILT_IN_RECIPE_DIR_PARAM, "recipe_dir");
    assert_eq!(RECIPE_FILE_EXTENSIONS, ["yaml", "json"]);
    assert_eq!(default_version(), "1.0.0");
}

#[test]
fn values_may_be_collected_in_any_order() {
    let a = collect_values(vec![
        ("a".to_string(), Ok("1".to_string())),
        ("b".to_string(), Ok("2".to_string())),
    ])
    .unwrap();
    let b = collect_values(vec![
        ("b".to_string(), Ok("2".to_string())),
        ("a".to_string(), Ok("1".to_string())),
    ])
    .unwrap();
    assert_eq!(a.sorted_pairs(), b.sorted_pairs());
    assert_eq!(a.len(), 2);
    let one = ("a".to_string(), serde_json::Value::from(1));
    let two = ("b".to_string(), serde_json::Value::from("2"));
    let c = deserialize_value_map_as_string(Some(vec![one.clone(), two.clone()])).unwrap();
    let d = deserialize_value_map_as_string(Some(vec![two, one])).unwrap();
    assert_eq!(c.unwrap().sorted_pairs(), d.unwrap().sorted_pairs());
}
