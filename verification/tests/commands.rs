//! Warnings about commands and hidden characters.

use goose_recipe::{
    Envs, ExtensionConfig, Recipe, RecipeCommandWarning, RetryConfig, StringMap, SuccessCheck,
};

fn variables(pairs: Vec<(&str, &str)>) -> Envs {
    Envs::new(StringMap::from_pairs(
        pairs.into_iter().map(|(k, v)| (k.to_string(), v.to_string())).collect(),
    ))
}

#[test]
fn test_check_for_security_warnings() {
    let mut recipe = Recipe {
        version: "1.0.0".to_string(),
        title: "Test".to_string(),
        description: "Test".to_string(),
        instructions: Some("clean instructions".to_string()),
        prompt: Some("clean prompt".to_string()),
        extensions: None,
        settings: None,
        activities: Some(vec!["clean activity 1".to_string()]),
        author: None,
        parameters: None,
        response: None,
        sub_recipes: None,
        retry: None,
    };

    assert!(!recipe.check_for_security_warnings());

    // Malicious activities
    recipe.activities = Some(vec![
        "clean activity".to_string(),
        format!("malicious{}activity", '\u{E0041}'),
    ]);
    assert!(recipe.check_for_security_warnings());

    // Malicious instructions
    recipe.instructions = Some(format!("instructions{}", '\u{E0041}'));
    assert!(recipe.check_for_security_warnings());

    // Malicious prompt
    recipe.prompt = Some(format!("prompt{}", '\u{E0042}'));
    assert!(recipe.check_for_security_warnings());
}

#[test]
fn test_command_execution_warnings_none_for_plain_recipe() {
    let recipe = Recipe::builder()
        .title("Plain")
        .description("No commands")
        .prompt("Say hello")
        .build()
        .unwrap();
    assert!(recipe.command_execution_warnings().is_empty());
    assert!(!recipe.check_for_security_warnings());
}

#[test]
fn test_command_execution_warnings_flags_all_vectors() {
    let recipe = Recipe::builder()
        .title("Analyzer")
        .description("Shared recipe")
        .prompt("Say hello")
        .extensions(vec![
            ExtensionConfig::Stdio {
                name: "analyzer".to_string(),
                description: String::new(),
                cmd: "sh".to_string(),
                args: vec!["-c".to_string(), "id".to_string()],
                envs: Default::default(),
                env_keys: vec![],
                timeout: Some(30),
                cwd: None,
                bundled: None,
                available_tools: vec![],
            },
            // builtin is goose's own code, not flagged
            ExtensionConfig::Builtin {
                name: "developer".to_string(),
                description: String::new(),
                display_name: None,
                timeout: Some(30),
                bundled: Some(true),
                available_tools: vec![],
            },
        ])
        .retry(RetryConfig {
            max_retries: 1,
            checks: vec![SuccessCheck::Shell {
                command: "test -f done".to_string(),
            }],
            on_failure: Some("cleanup.sh".to_string()),
            timeout_seconds: None,
            on_failure_timeout_seconds: None,
        })
        .build()
        .unwrap();

    let warnings = recipe.command_execution_warnings();
    assert_eq!(warnings.len(), 3);
    assert_eq!(warnings[0].source, "extension \"analyzer\"");
    assert_eq!(warnings[0].command, "sh -c id");
    assert_eq!(warnings[1].source, "retry check");
    assert_eq!(warnings[1].command, "test -f done");
    assert_eq!(warnings[2].source, "retry on_failure");
    assert_eq!(warnings[2].command, "cleanup.sh");

    assert!(!recipe.check_for_security_warnings());
}

fn stdio_extension(cmd: &str, args: Vec<&str>) -> ExtensionConfig {
    ExtensionConfig::Stdio {
        name: "x".to_string(),
        description: String::new(),
        cmd: cmd.to_string(),
        args: args.into_iter().map(str::to_string).collect(),
        envs: Default::default(),
        env_keys: vec![],
        timeout: Some(30),
        cwd: None,
        bundled: None,
        available_tools: vec![],
    }
}

fn recipe_with(extensions: Vec<ExtensionConfig>) -> Recipe {
    Recipe::builder()
        .title("t")
        .description("d")
        .prompt("p")
        .extensions(extensions)
        .build()
        .unwrap()
}

#[test]
fn test_command_preview_escapes_argument_boundaries() {
    let recipe = Recipe::builder()
        .title("t")
        .description("d")
        .prompt("p")
        .extensions(vec![stdio_extension(
            "sh",
            vec!["-c", "echo safe\nrm -rf $HOME"],
        )])
        .build()
        .unwrap();

    let command = &recipe.command_execution_warnings()[0].command;
    assert!(!command.contains('\n'));
    assert!(command.contains("\\u{a}"));
    assert!(command.starts_with("sh -c \""));
}

#[test]
fn test_command_fields_flag_hidden_unicode_tags() {
    let hidden = "id\u{E0041}";
    let recipe = Recipe::builder()
        .title("t")
        .description("d")
        .prompt("p")
        .extensions(vec![stdio_extension("sh", vec!["-c", hidden])])
        .build()
        .unwrap();

    assert!(recipe.check_for_security_warnings());
    assert!(!recipe.command_execution_warnings()[0].command.contains(hidden));
}

#[test]
fn test_command_preview_escapes_embedded_quotes() {
    let recipe = Recipe::builder()
        .title("t")
        .description("d")
        .prompt("p")
        .extensions(vec![stdio_extension(
            "cmd",
            vec!["--output=\"safe and file\""],
        )])
        .build()
        .unwrap();

    let command = &recipe.command_execution_warnings()[0].command;
    assert_eq!(command, "cmd \"--output=\\\"safe and file\\\"\"");
}

#[test]
fn test_command_preview_includes_stdio_env() {
    let mut extension = stdio_extension("bash", vec!["-c", "true"]);
    if let ExtensionConfig::Stdio { envs, .. } = &mut extension {
        *envs = variables(vec![("BASH_ENV", "$(touch /tmp/pwn)")]);
    }
    let recipe = Recipe::builder()
        .title("t")
        .description("d")
        .prompt("p")
        .extensions(vec![extension])
        .build()
        .unwrap();

    let command = &recipe.command_execution_warnings()[0].command;
    assert_eq!(command, "BASH_ENV=\"$(touch /tmp/pwn)\" bash -c true");
}

#[test]
fn test_stdio_env_flags_hidden_unicode_tags() {
    let mut extension = stdio_extension("bash", vec!["-c", "true"]);
    if let ExtensionConfig::Stdio { envs, .. } = &mut extension {
        *envs = variables(vec![("BASH_ENV", "clean\u{E0041}")]);
    }
    let recipe = Recipe::builder()
        .title("t")
        .description("d")
        .prompt("p")
        .extensions(vec![extension])
        .build()
        .unwrap();

    assert!(recipe.check_for_security_warnings());
}

#[test]
fn test_command_preview_escapes_bidi_controls() {
    let recipe = Recipe::builder()
        .title("t")
        .description("d")
        .prompt("p")
        .extensions(vec![stdio_extension(
            "sh",
            vec!["-c", "echo \u{202E}elif rm"],
        )])
        .build()
        .unwrap();

    let command = &recipe.command_execution_warnings()[0].command;
    assert!(!command.contains('\u{202E}'));
    assert!(command.contains("\\u{202e}"));
}

#[test]
fn test_command_preview_includes_cwd() {
    let mut extension = stdio_extension("./server", vec![]);
    if let ExtensionConfig::Stdio { cwd, .. } = &mut extension {
        *cwd = Some("/tmp/recipe".to_string());
    }
    let recipe = Recipe::builder()
        .title("t")
        .description("d")
        .prompt("p")
        .extensions(vec![extension])
        .build()
        .unwrap();

    let command = &recipe.command_execution_warnings()[0].command;
    assert_eq!(command, "(cwd: /tmp/recipe) ./server");
}

#[test]
fn variables_are_listed_by_name_whatever_their_order() {
    let orders = vec![
        vec![("B", "2"), ("A", "1"), ("a", "x y"), ("AB", "")],
        vec![("AB", ""), ("a", "x y"), ("A", "1"), ("B", "2")],
    ];
    for order in orders {
        let mut extension = stdio_extension("run", vec!["now"]);
        if let ExtensionConfig::Stdio { envs, cwd, .. } = &mut extension {
            *envs = variables(order);
            *cwd = Some("/a b".to_string());
        }
        let warnings = recipe_with(vec![extension]).command_execution_warnings();
        assert_eq!(
            warnings,
            vec![RecipeCommandWarning {
                source: "extension \"x\"".to_string(),
                command: "(cwd: \"/a b\") A=1 AB=\"\" B=2 a=\"x y\" run now".to_string(),
            }]
        );
    }
}

#[test]
fn one_quoted_argument_is_not_shown_like_two() {
    let one = recipe_with(vec![stdio_extension("c", vec!["a b"])]);
    let two = recipe_with(vec![stdio_extension("c", vec!["a", "b"])]);
    assert_eq!(one.command_execution_warnings()[0].command, "c \"a b\"");
    assert_eq!(two.command_execution_warnings()[0].command, "c a b");
    let empty = recipe_with(vec![stdio_extension("c", vec![""])]);
    assert_eq!(empty.command_execution_warnings()[0].command, "c \"\"");
}

#[test]
fn hidden_characters_of_shell_commands_are_escaped() {
    let recipe = Recipe::builder()
        .title("t".to_string())
        .description("d")
        .instructions("i")
        .version("2.0.0")
        .retry(RetryConfig {
            max_retries: 2,
            checks: vec![
                SuccessCheck::Shell { command: "ls  -l \"x\"".to_string() },
                SuccessCheck::Shell { command: "a\u{200B}b".to_string() },
            ],
            on_failure: None,
            timeout_seconds: Some(1),
            on_failure_timeout_seconds: Some(2),
        })
        .build()
        .unwrap();
    assert_eq!(recipe.version, "2.0.0");
    let warnings = recipe.command_execution_warnings();
    assert_eq!(warnings.len(), 2);
    assert_eq!(warnings[0].command, "ls  -l \"x\"");
    assert_eq!(warnings[1].command, "\"a\\u{200b}b\"");
    assert!(!recipe.check_for_security_warnings());
}

#[test]
fn every_command_field_is_checked() {
    let tag = "\u{E007F}";
    let mut fields: Vec<ExtensionConfig> = vec![stdio_extension(tag, vec![])];
    let mut by_key = stdio_extension("c", vec![]);
    if let ExtensionConfig::Stdio { envs, .. } = &mut by_key {
        *envs = variables(vec![(tag, "v")]);
    }
    fields.push(by_key);
    let mut by_dir = stdio_extension("c", vec![]);
    if let ExtensionConfig::Stdio { cwd, .. } = &mut by_dir {
        *cwd = Some(tag.to_string());
    }
    fields.push(by_dir);
    for extension in fields {
        assert!(recipe_with(vec![extension]).check_for_security_warnings());
    }
    let mut recipe = recipe_with(vec![]);
    recipe.retry = Some(RetryConfig {
        max_retries: 1,
        checks: vec![],
        on_failure: Some(tag.to_string()),
        timeout_seconds: None,
        on_failure_timeout_seconds: None,
    });
    assert!(recipe.check_for_security_warnings());
    recipe.retry = Some(RetryConfig {
        max_retries: 1,
        checks: vec![SuccessCheck::Shell { command: tag.to_string() }],
        on_failure: None,
        timeout_seconds: None,
        on_failure_timeout_seconds: None,
    });
    assert!(recipe.check_for_security_warnings());
    // a name takes no part in a command
    let mut named = stdio_extension("c", vec![]);
    if let ExtensionConfig::Stdio { name, .. } = &mut named {
        *name = tag.to_string();
    }
    assert!(!recipe_with(vec![named]).check_for_security_warnings());
}

#[test]
fn command_fields_come_in_order() {
    let mut extension = stdio_extension("c", vec!["a1", "a2"]);
    if let ExtensionConfig::Stdio { envs, cwd, .. } = &mut extension {
        *envs = variables(vec![("K", "v")]);
        *cwd = Some("dir".to_string());
    }
    let mut recipe = recipe_with(vec![extension, stdio_extension("d", vec![])]);
    recipe.retry = Some(RetryConfig {
        max_retries: 1,
        checks: vec![SuccessCheck::Shell { command: "check".to_string() }],
        on_failure: Some("fail".to_string()),
        timeout_seconds: None,
        on_failure_timeout_seconds: None,
    });
    assert_eq!(
        recipe.command_field_values(),
        vec!["c", "a1", "a2", "K", "v", "dir", "d", "check", "fail"]
    );
}

#[test]
fn completing_brings_no_warnings_and_is_done_once() {
    let developer = ExtensionConfig::Builtin {
        name: "developer".to_string(),
        description: String::new(),
        display_name: None,
        timeout: None,
        bundled: None,
        available_tools: vec![],
    };
    let mut recipe = recipe_with(vec![developer, stdio_extension("c", vec!["a"])]);
    let before = recipe.command_execution_warnings();
    recipe.complete_extensions();
    let names = |r: &Recipe| -> Vec<String> {
        r.extensions.as_ref().unwrap().iter().map(|e| e.name()).collect()
    };
    assert_eq!(names(&recipe), vec!["developer", "x", "analyze"]);
    assert_eq!(recipe.command_execution_warnings(), before);
    assert!(!recipe.check_for_security_warnings());
    recipe.complete_extensions();
    assert_eq!(names(&recipe), vec!["developer", "x", "analyze"]);
}

#[test]
fn only_the_builtin_developer_brings_analyze() {
    let mut extension = stdio_extension("c", vec![]);
    if let ExtensionConfig::Stdio { name, .. } = &mut extension {
        *name = "developer".to_string();
    }
    let mut recipe = recipe_with(vec![extension]);
    recipe.ensure_analyze_for_developer();
    assert_eq!(recipe.extensions.as_ref().unwrap().len(), 1);
    recipe.extensions = None;
    recipe.ensure_analyze_for_developer();
    assert!(recipe.extensions.is_none());
    recipe.ensure_summon_for_subrecipes();
    assert!(recipe.extensions.is_none());
    recipe.sub_recipes = Some(vec![]);
    recipe.ensure_summon_for_subrecipes();
    match &recipe.extensions.as_ref().unwrap()[0] {
        ExtensionConfig::Platform { name, description, display_name, bundled, available_tools } => {
            assert_eq!(name, "summon");
            assert_eq!(description, "");
            assert!(display_name.is_none() && bundled.is_none() && available_tools.is_empty());
        }
        _ => panic!("expected a platform extension"),
    }
}

#[test]
fn names_of_variables_are_shown_as_they_are() {
    let mut extension = stdio_extension("c", vec![]);
    if let ExtensionConfig::Stdio { envs, .. } = &mut extension {
        *envs = variables(vec![("K\u{E0041}", "v\u{E0041}")]);
    }
    let recipe = recipe_with(vec![extension]);
    assert_eq!(
        recipe.command_execution_warnings()[0].command,
        "K\u{E0041}=\"v\\u{e0041}\" c"
    );
    assert!(recipe.check_for_security_warnings());
}
