use codex_context_lock::lock::known_entries;
use codex_context_lock::lock::validate_base_instructions;
use codex_context_lock::lock::BaseInstructionsDecision;
use codex_context_lock::lock::BaseInstructionsEntry;
use codex_context_lock::lock::BuiltinContextLock;
use codex_context_lock::lock::FragmentEntry;
use codex_context_lock::lock::LockError;
use codex_context_lock::lock::LockFile;
use codex_context_lock::lock::TemplateEntry;
use codex_context_lock::lock::ToolEntry;
use codex_context_lock::lock::BASE_INSTRUCTIONS_MODEL_CATALOG_CURRENT_ID;
use codex_context_lock::lock::TOOL_SHELL_ID;

fn base(id: &str, enabled: bool, content: Option<&str>) -> BaseInstructionsEntry {
    BaseInstructionsEntry {
        id: id.to_string(),
        enabled,
        content: content.map(str::to_string),
    }
}

fn fragment(id: &str) -> FragmentEntry {
    FragmentEntry {
        id: id.to_string(),
        enabled: true,
        content: None,
    }
}

fn tool(id: &str) -> ToolEntry {
    ToolEntry {
        id: id.to_string(),
        enabled: true,
        name: Some("shell".to_string()),
        spec: Some(serde_json::Value::Bool(true)),
    }
}

fn lock_file(
    schema_version: u32,
    base_instructions: Vec<BaseInstructionsEntry>,
    fragments: Vec<FragmentEntry>,
    tools: Vec<ToolEntry>,
    templates: Vec<TemplateEntry>,
) -> LockFile {
    LockFile {
        schema_version,
        base_instructions,
        fragments,
        tools,
        templates,
    }
}

#[test]
fn reads_known_entries_and_warns_about_unknown_ones() {
    let mut warnings = vec!["earlier".to_string()];
    let lock = BuiltinContextLock::from_lock_file(
        "/tmp/lock.json".to_string(),
        lock_file(
            1,
            vec![base(BASE_INSTRUCTIONS_MODEL_CATALOG_CURRENT_ID, true, Some("hello"))],
            vec![fragment("builtin.fragment.model_switch"), fragment("builtin.fragment.nope")],
            vec![tool(TOOL_SHELL_ID)],
            vec![TemplateEntry {
                id: "builtin.template.any".to_string(),
                enabled: true,
                content: None,
            }],
        ),
        &mut warnings,
    )
    .expect("lock should read");

    assert_eq!(lock.path, "/tmp/lock.json");
    assert_eq!(lock.schema_version, 1);
    assert_eq!(lock.base_instructions.len(), 1);
    assert_eq!(lock.fragments, vec![fragment("builtin.fragment.model_switch")]);
    assert_eq!(lock.tools, vec![tool(TOOL_SHELL_ID)]);
    assert!(lock.templates.is_empty());
    assert_eq!(
        warnings,
        vec![
            "earlier".to_string(),
            "Ignoring unknown builtin context lock id `builtin.fragment.nope` in `fragments`"
                .to_string(),
            "Ignoring unknown builtin context lock id `builtin.template.any` in `templates`"
                .to_string(),
        ]
    );
    match lock.model_catalog_base_instructions_decision() {
        BaseInstructionsDecision::UseContent(content) => assert_eq!(content, "hello"),
        _ => panic!("expected content"),
    }
}

#[test]
fn rejects_unsupported_schema_version() {
    let mut warnings = Vec::new();
    let err = BuiltinContextLock::from_lock_file(
        "/tmp/lock.json".to_string(),
        lock_file(2, vec![], vec![fragment("builtin.fragment.nope")], vec![], vec![]),
        &mut warnings,
    )
    .expect_err("schema version 2 is not supported");
    assert!(matches!(err, LockError::UnsupportedSchemaVersion { found: 2 }));
    assert_eq!(
        err.message(),
        "unsupported builtin context lock schema_version 2; supported version is 1"
    );
    assert!(warnings.is_empty());
}

#[test]
fn schema_version_message_prints_large_numbers() {
    let err = LockError::UnsupportedSchemaVersion { found: 4_294_967_295 };
    assert_eq!(
        err.message(),
        "unsupported builtin context lock schema_version 4294967295; supported version is 1"
    );
    let err = LockError::UnsupportedSchemaVersion { found: 0 };
    assert_eq!(
        err.message(),
        "unsupported builtin context lock schema_version 0; supported version is 1"
    );
}

#[test]
fn rejects_duplicate_known_id() {
    let mut warnings = Vec::new();
    let err = BuiltinContextLock::from_lock_file(
        "/tmp/lock.json".to_string(),
        lock_file(
            1,
            vec![],
            vec![],
            vec![tool(TOOL_SHELL_ID), tool("builtin.tool.unknown"), tool(TOOL_SHELL_ID)],
            vec![],
        ),
        &mut warnings,
    )
    .expect_err("duplicate tool id");
    assert_eq!(
        err.message(),
        "duplicate builtin context lock id `builtin.tool.shell` in `tools`"
    );
    assert_eq!(
        warnings,
        vec!["Ignoring unknown builtin context lock id `builtin.tool.unknown` in `tools`".to_string()]
    );
}

#[test]
fn duplicate_unknown_ids_only_warn() {
    let mut warnings = Vec::new();
    let kept = known_entries(
        "fragments",
        vec![fragment("a"), fragment("a"), fragment("b")],
        &["b"],
        &mut warnings,
    )
    .expect("unknown duplicates are not an error");
    assert_eq!(kept, vec![fragment("b")]);
    assert_eq!(warnings.len(), 2);
}

#[test]
fn rejects_enabled_base_instructions_without_content() {
    let mut warnings = Vec::new();
    let err = BuiltinContextLock::from_lock_file(
        "/tmp/lock.json".to_string(),
        lock_file(
            1,
            vec![base(BASE_INSTRUCTIONS_MODEL_CATALOG_CURRENT_ID, true, None)],
            vec![],
            vec![],
            vec![],
        ),
        &mut warnings,
    )
    .expect_err("enabled entry needs content");
    assert_eq!(
        err.message(),
        "builtin context lock id `builtin.base_instructions.model_catalog.current` in `base_instructions` must provide `content` when enabled"
    );
}

#[test]
fn validate_accepts_disabled_entry_without_content() {
    assert!(validate_base_instructions(&vec![base("x", false, None)]).is_ok());
    assert!(validate_base_instructions(&vec![base("x", true, Some(""))]).is_ok());
    assert!(matches!(
        validate_base_instructions(&vec![base("x", false, None), base("y", true, None)]),
        Err(LockError::MissingEnabledContent { id }) if id == "y"
    ));
}

#[test]
fn decision_is_unmanaged_or_disabled() {
    let mut warnings = Vec::new();
    let lock = BuiltinContextLock::from_lock_file(
        "/tmp/lock.json".to_string(),
        lock_file(1, vec![], vec![], vec![], vec![]),
        &mut warnings,
    )
    .expect("empty lock");
    assert!(matches!(
        lock.model_catalog_base_instructions_decision(),
        BaseInstructionsDecision::Unmanaged
    ));

    let lock = BuiltinContextLock::from_lock_file(
        "/tmp/lock.json".to_string(),
        lock_file(
            1,
            vec![base(BASE_INSTRUCTIONS_MODEL_CATALOG_CURRENT_ID, false, None)],
            vec![],
            vec![],
            vec![],
        ),
        &mut warnings,
    )
    .expect("disabled entry");
    assert!(matches!(
        lock.model_catalog_base_instructions_decision(),
        BaseInstructionsDecision::Disable
    ));
}

#[test]
fn decision_looks_only_at_the_model_catalog_entry() {
    let lock = BuiltinContextLock {
        path: "/tmp/lock.json".to_string(),
        schema_version: 1,
        base_instructions: vec![
            base("builtin.base_instructions.other", true, None),
            base(BASE_INSTRUCTIONS_MODEL_CATALOG_CURRENT_ID, true, Some("catalog text")),
        ],
        fragments: vec![fragment("builtin.fragment.unknown")],
        tools: vec![],
        templates: vec![],
    };
    match lock.model_catalog_base_instructions_decision() {
        BaseInstructionsDecision::UseContent(content) => assert_eq!(content, "catalog text"),
        _ => panic!("expected content"),
    }
}

#[test]
fn section_order_does_not_change_what_is_read() {
    let entries = vec![
        fragment("builtin.fragment.model_switch"),
        fragment("nope"),
        fragment("builtin.fragment.realtime_start"),
    ];
    let mut reversed = entries.clone();
    reversed.reverse();
    let known = ["builtin.fragment.realtime_start", "builtin.fragment.model_switch"];
    let mut w1 = Vec::new();
    let mut w2 = Vec::new();
    let a = known_entries("fragments", entries, &known, &mut w1).expect("reads");
    let b = known_entries("fragments", reversed, &known, &mut w2).expect("reads");
    assert_eq!(a, b);
    assert_eq!(
        a,
        vec![
            fragment("builtin.fragment.model_switch"),
            fragment("builtin.fragment.realtime_start"),
        ]
    );
    assert_eq!(w1, w2);
}

#[test]
fn validate_names_the_least_offending_id() {
    let entries = vec![base("b", true, None), base("c", true, Some("x")), base("a", true, None)];
    assert!(matches!(
        validate_base_instructions(&entries),
        Err(LockError::MissingEnabledContent { id }) if id == "a"
    ));
}

#[test]
fn sections_are_ordered_by_id() {
    let mut warnings = Vec::new();
    let lock = BuiltinContextLock::from_lock_file(
        "/tmp/lock.json".to_string(),
        lock_file(
            1,
            vec![],
            vec![],
            vec![tool(TOOL_SHELL_ID), tool("builtin.tool.exec_command"), tool("builtin.tool.apply_patch")],
            vec![],
        ),
        &mut warnings,
    )
    .expect("lock should read");
    let ids: Vec<&str> = lock.tools.iter().map(|t| t.id.as_str()).collect();
    assert_eq!(
        ids,
        vec!["builtin.tool.apply_patch", "builtin.tool.exec_command", "builtin.tool.shell"]
    );
}
