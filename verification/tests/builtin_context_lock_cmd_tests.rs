use codex_context_lock::lock_cmd::best_catalog_match;
use codex_context_lock::lock_cmd::configured_model;
use codex_context_lock::lock_cmd::configured_personality;
use codex_context_lock::lock_cmd::default_model;
use codex_context_lock::lock_cmd::merged_config_overrides;
use codex_context_lock::lock_cmd::resolve_output_path;
use codex_context_lock::lock_cmd::CliConfigOverrides;
use codex_context_lock::lock_cmd::ModelPresetCandidate;
use codex_context_lock::lock_cmd::OutputPathError;

#[test]
fn explicit_output_wins_over_configured_path() {
    let configured = "/tmp/lock-test/configured.json".to_string();
    let explicit = "/tmp/lock-test/explicit.json".to_string();

    assert_eq!(
        resolve_output_path(Some(Ok(explicit.clone())), Some(configured)).expect("output path"),
        explicit
    );
}

#[test]
fn configured_path_is_default_output() {
    let configured = "/tmp/lock-test/configured.json".to_string();

    assert_eq!(
        resolve_output_path(None, Some(configured.clone())).expect("output path"),
        configured
    );
}

#[test]
fn missing_output_and_configured_path_fails_clearly() {
    let err = resolve_output_path(None, None).expect_err("missing output should fail");

    assert!(err
        .message()
        .contains("pass --output <path> to choose where to write"));
}

#[test]
fn unresolvable_output_is_an_invalid_output_path() {
    let err = resolve_output_path(
        Some(Err("no current directory".to_string())),
        Some("/tmp/configured.json".to_string()),
    )
    .expect_err("an output that cannot be made absolute fails");
    match &err {
        OutputPathError::InvalidOutputPath { detail } => assert_eq!(detail, "no current directory"),
        other => panic!("unexpected error {other:?}"),
    }
    assert_eq!(err.message(), "invalid --output path for builtin context lock");
}

#[test]
fn root_overrides_come_before_subcommand_overrides() {
    let root = CliConfigOverrides {
        raw_overrides: vec!["model=a".to_string(), "x=1".to_string()],
    };
    let command = CliConfigOverrides {
        raw_overrides: vec!["model=b".to_string()],
    };
    let merged = merged_config_overrides(root, command);
    assert_eq!(
        merged.raw_overrides,
        vec!["model=a".to_string(), "x=1".to_string(), "model=b".to_string()]
    );
}

fn candidate(model: &str, priority: i32, supported: bool, picker: bool) -> ModelPresetCandidate {
    ModelPresetCandidate {
        model: model.to_string(),
        priority,
        supported_in_api: supported,
        show_in_picker: picker,
    }
}

#[test]
fn default_model_prefers_lowest_priority_picker_model() {
    let catalog = vec![
        candidate("late", 9, true, true),
        candidate("hidden", 0, true, false),
        candidate("unsupported", 1, false, true),
        candidate("early", 2, true, true),
        candidate("tie", 2, true, true),
    ];
    assert_eq!(default_model(&catalog), "early");
}

#[test]
fn default_model_falls_back_to_first_supported_then_empty() {
    let catalog = vec![
        candidate("b", 5, true, false),
        candidate("a", 3, true, false),
        candidate("c", 1, false, true),
    ];
    assert_eq!(default_model(&catalog), "a");
    let none = vec![candidate("c", 1, false, true)];
    assert_eq!(default_model(&none), "");
    assert_eq!(default_model(&Vec::new()), "");
}

#[test]
fn configured_model_prefers_profile_then_config_then_catalog() {
    let catalog = || Ok(vec![candidate("catalog-model", 1, true, true)]);
    assert_eq!(
        configured_model(Some("p".to_string()), Some("c".to_string()), catalog()),
        Ok("p".to_string())
    );
    assert_eq!(
        configured_model(None, Some("c".to_string()), Err("broken".to_string())),
        Ok("c".to_string())
    );
    assert_eq!(
        configured_model(None, None, catalog()),
        Ok("catalog-model".to_string())
    );
    assert_eq!(
        configured_model(None, None, Err("broken".to_string())),
        Err("broken".to_string())
    );
}

#[test]
fn personality_prefers_explicit_settings() {
    let name = |s: &str| Some(s.to_string());
    assert_eq!(configured_personality(name("friendly"), name("terse"), true), name("friendly"));
    assert_eq!(configured_personality(None, name("terse"), true), name("terse"));
    assert_eq!(configured_personality(None, None, true), name("pragmatic"));
    assert_eq!(configured_personality(None, None, false), None);
}

#[test]
fn catalog_match_takes_longest_slug_prefix() {
    let slugs = vec![
        "gpt-5".to_string(),
        "gpt-5-codex".to_string(),
        "o3".to_string(),
        "gpt-5-codex".to_string(),
    ];
    assert_eq!(best_catalog_match("gpt-5-codex-mini", &slugs), Some(1));
    assert_eq!(best_catalog_match("gpt-5.1", &slugs), Some(0));
    assert_eq!(best_catalog_match("llama-3", &slugs), None);
}
