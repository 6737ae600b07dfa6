use codex_context_lock::freeform::freeform_arguments;
use codex_context_lock::freeform::is_exact_freeform_input_schema;
use codex_context_lock::freeform::mcp_tool_to_freeform_tool;
use codex_context_lock::freeform::model_visible_output;
use codex_context_lock::freeform::McpContent;
use codex_context_lock::freeform::McpTool;
use codex_context_lock::freeform::ToolName;
use codex_context_lock::json::JsonValue;

fn object(members: Vec<(&str, JsonValue)>) -> JsonValue {
    JsonValue::Object(members.into_iter().map(|(k, v)| (k.to_string(), v)).collect())
}

fn text(s: &str) -> JsonValue {
    JsonValue::String(s.to_string())
}

fn freeform_schema(property: JsonValue, extra: Vec<(&str, JsonValue)>) -> JsonValue {
    let mut members = vec![
        ("type", text("object")),
        ("properties", object(vec![("freeform", property)])),
        ("required", JsonValue::Array(vec![text("freeform")])),
    ];
    members.extend(extra);
    object(members)
}

#[test]
fn non_string_or_renamed_or_extra_fields_are_not_freeform() {
    let number = freeform_schema(object(vec![("type", text("number"))]), vec![]);
    assert!(!is_exact_freeform_input_schema(&number));

    let renamed = object(vec![
        ("type", text("object")),
        ("properties", object(vec![("input", object(vec![("type", text("string"))]))])),
        ("required", JsonValue::Array(vec![text("input")])),
    ]);
    assert!(!is_exact_freeform_input_schema(&renamed));

    let two_fields = object(vec![
        ("type", text("object")),
        (
            "properties",
            object(vec![
                ("freeform", object(vec![("type", text("string"))])),
                ("extra", object(vec![("type", text("string"))])),
            ]),
        ),
        ("required", JsonValue::Array(vec![text("freeform")])),
    ]);
    assert!(!is_exact_freeform_input_schema(&two_fields));

    let schema_additional = freeform_schema(
        object(vec![("type", text("string"))]),
        vec![("additionalProperties", object(vec![]))],
    );
    assert!(!is_exact_freeform_input_schema(&schema_additional));

    assert!(!is_exact_freeform_input_schema(&text("object")));
}

#[test]
fn title_annotation_at_schema_level_is_allowed() {
    let plain = freeform_schema(object(vec![("type", text("string"))]), vec![]);
    assert!(is_exact_freeform_input_schema(&plain));
    let titled = freeform_schema(
        object(vec![("type", text("string"))]),
        vec![("title", text("Run")), ("description", text("Runs things"))],
    );
    assert!(is_exact_freeform_input_schema(&titled));
}

#[test]
fn non_freeform_tool_is_not_converted() {
    let tool = McpTool {
        name: "search".to_string(),
        description: Some("Search".to_string()),
        input_schema: freeform_schema(object(vec![("type", text("integer"))]), vec![]),
    };
    assert!(mcp_tool_to_freeform_tool(&ToolName::namespaced("mcp__s__", "search"), &tool).is_none());
}

#[test]
fn input_description_alone_when_tool_has_none() {
    let tool = McpTool {
        name: "run".to_string(),
        description: None,
        input_schema: freeform_schema(
            object(vec![("type", text("string")), ("description", text("Source."))]),
            vec![],
        ),
    };
    let converted = mcp_tool_to_freeform_tool(&ToolName::plain("run"), &tool).expect("freeform");
    assert_eq!(converted.name, "run");
    assert_eq!(converted.description, "Source.");
}

#[test]
fn raw_input_is_wrapped_into_freeform_argument() {
    match freeform_arguments("print(1)".to_string()) {
        JsonValue::Object(members) => {
            assert_eq!(members.len(), 1);
            assert_eq!(members[0].0, "freeform");
            match &members[0].1 {
                JsonValue::String(s) => assert_eq!(s, "print(1)"),
                other => panic!("unexpected {other:?}"),
            }
        }
        other => panic!("unexpected {other:?}"),
    }
}

#[test]
fn model_sees_only_first_text_content() {
    let content = vec![
        McpContent::Text("first".to_string()),
        McpContent::Text("second".to_string()),
    ];
    assert_eq!(model_visible_output(&content), "first");
    assert_eq!(model_visible_output(&vec![McpContent::Text(String::new())]), "");
    assert_eq!(
        model_visible_output(&vec![McpContent::NonText, McpContent::Text("later".to_string())]),
        ""
    );
    assert_eq!(model_visible_output(&Vec::new()), "");
}

#[test]
fn tool_name_display_joins_namespace_and_name() {
    assert_eq!(ToolName::namespaced("mcp__server__", "tool").display(), "mcp__server__tool");
    assert_eq!(ToolName::plain("shell").display(), "shell");
}

#[test]
fn other_schema_level_members_are_not_freeform() {
    let pattern = freeform_schema(
        object(vec![("type", text("string"))]),
        vec![("patternProperties", object(vec![]))],
    );
    assert!(!is_exact_freeform_input_schema(&pattern));
}
