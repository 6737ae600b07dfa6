use codex_context_lock::freeform::is_exact_freeform_input_schema;
use codex_context_lock::freeform::is_exact_freeform_schema;
use codex_context_lock::freeform::mcp_tool_to_freeform_tool;
use codex_context_lock::freeform::AdditionalProperties;
use codex_context_lock::freeform::JsonSchema;
use codex_context_lock::freeform::JsonSchemaPrimitiveType;
use codex_context_lock::freeform::JsonSchemaType;
use codex_context_lock::freeform::McpTool;
use codex_context_lock::freeform::ToolName;
use codex_context_lock::json::JsonValue;

fn json(v: serde_json::Value) -> JsonValue {
    match v {
        serde_json::Value::Null => JsonValue::Null,
        serde_json::Value::Bool(b) => JsonValue::Bool(b),
        serde_json::Value::Number(n) => JsonValue::Number(n.to_string()),
        serde_json::Value::String(s) => JsonValue::String(s),
        serde_json::Value::Array(items) => JsonValue::Array(items.into_iter().map(json).collect()),
        serde_json::Value::Object(members) => {
            JsonValue::Object(members.into_iter().map(|(k, v)| (k, json(v))).collect())
        }
    }
}

fn mcp_tool(name: &str, description: &str, input_schema: &str) -> McpTool {
    let schema: serde_json::Value = serde_json::from_str(input_schema).expect("schema JSON");
    McpTool {
        name: name.to_string(),
        description: Some(description.to_string()),
        input_schema: json(schema),
    }
}

#[test]
fn exact_freeform_schema_rejects_nullable_string_union() {
    let schema = JsonSchema::object(
        vec![(
            "freeform".to_string(),
            JsonSchema {
                schema_type: Some(JsonSchemaType::Multiple(vec![
                    JsonSchemaPrimitiveType::String,
                    JsonSchemaPrimitiveType::Null,
                ])),
                ..Default::default()
            },
        )],
        Some(vec!["freeform".to_string()]),
        Some(AdditionalProperties::Boolean(false)),
    );

    assert!(!is_exact_freeform_schema(&schema));
}

#[test]
fn exact_freeform_schema_rejects_non_object_schema() {
    let schema = JsonSchema::string(/*description*/ None);

    assert!(!is_exact_freeform_schema(&schema));
}

#[test]
fn exact_freeform_schema_rejects_wrong_property_name() {
    let schema = JsonSchema::object(
        vec![("text".to_string(), JsonSchema::string(/*description*/ None))],
        Some(vec!["text".to_string()]),
        Some(AdditionalProperties::Boolean(false)),
    );

    assert!(!is_exact_freeform_schema(&schema));
}

#[test]
fn exact_freeform_schema_rejects_missing_required() {
    let schema = JsonSchema::object(
        vec![(
            "freeform".to_string(),
            JsonSchema::string(/*description*/ None),
        )],
        /*required*/ None,
        Some(AdditionalProperties::Boolean(false)),
    );

    assert!(!is_exact_freeform_schema(&schema));
}

#[test]
fn exact_freeform_schema_accepts_missing_additional_properties() {
    let schema = JsonSchema::object(
        vec![(
            "freeform".to_string(),
            JsonSchema::string(/*description*/ None),
        )],
        Some(vec!["freeform".to_string()]),
        /*additional_properties*/ None,
    );

    assert!(is_exact_freeform_schema(&schema));
}

#[test]
fn exact_freeform_schema_rejects_additional_properties_true() {
    let schema = JsonSchema::object(
        vec![(
            "freeform".to_string(),
            JsonSchema::string(/*description*/ None),
        )],
        Some(vec!["freeform".to_string()]),
        Some(AdditionalProperties::Boolean(true)),
    );

    assert!(!is_exact_freeform_schema(&schema));
}

#[test]
fn exact_freeform_input_schema_accepts_contract_shape() {
    let tool = mcp_tool(
        "freeform",
        "Exact freeform input",
        r#"{
            "type": "object",
            "properties": {
                "freeform": { "type": "string" }
            },
            "required": ["freeform"],
            "additionalProperties": false
        }"#,
    );

    assert!(is_exact_freeform_input_schema(&tool.input_schema));
}

#[test]
fn exact_freeform_input_schema_accepts_schema_annotations() {
    let tool = mcp_tool(
        "freeform",
        "Annotated freeform input",
        r#"{
            "type": "object",
            "description": "Schema-level annotation",
            "properties": {
                "freeform": {
                    "type": "string",
                    "title": "Freeform text",
                    "description": "Raw input text."
                }
            },
            "required": ["freeform"]
        }"#,
    );

    assert!(is_exact_freeform_input_schema(&tool.input_schema));
}

#[test]
fn mcp_freeform_text_tool_serializes_to_official_text_format() {
    let tool = mcp_tool(
        "freeform",
        "Exact freeform input",
        r#"{
            "type": "object",
            "properties": {
                "freeform": { "type": "string" }
            },
            "required": ["freeform"],
            "additionalProperties": false
        }"#,
    );

    let freeform_tool =
        mcp_tool_to_freeform_tool(&ToolName::namespaced("mcp__sample__", "freeform"), &tool)
            .expect("convert MCP freeform tool");

    assert_eq!(freeform_tool.name, "mcp__sample__freeform");
    assert_eq!(freeform_tool.description, "Exact freeform input");
    assert_eq!(freeform_tool.format.format_type, "text");
}

#[test]
fn mcp_freeform_text_tool_merges_tool_and_input_descriptions() {
    let tool = mcp_tool(
        "freeform",
        "Run raw source text.",
        r#"{
            "type": "object",
            "properties": {
                "freeform": {
                    "type": "string",
                    "description": "The source text to run."
                }
            },
            "required": ["freeform"]
        }"#,
    );

    let freeform_tool =
        mcp_tool_to_freeform_tool(&ToolName::namespaced("mcp__sample__", "freeform"), &tool)
            .expect("convert MCP freeform tool");

    assert_eq!(freeform_tool.name, "mcp__sample__freeform");
    assert_eq!(
        freeform_tool.description,
        "Run raw source text.\n\nInput:\nThe source text to run."
    );
    assert_eq!(freeform_tool.format.format_type, "text");
}

#[test]
fn exact_freeform_input_schema_rejects_string_constraints() {
    let tool = mcp_tool(
        "freeform",
        "Constrained freeform input",
        r#"{
            "type": "object",
            "properties": {
                "freeform": {
                    "type": "string",
                    "minLength": 1
                }
            },
            "required": ["freeform"],
            "additionalProperties": false
        }"#,
    );

    assert!(!is_exact_freeform_input_schema(&tool.input_schema));
}

#[test]
fn exact_freeform_input_schema_rejects_additional_properties_true() {
    let tool = mcp_tool(
        "freeform",
        "Allows extra input fields",
        r#"{
            "type": "object",
            "properties": {
                "freeform": { "type": "string" }
            },
            "required": ["freeform"],
            "additionalProperties": true
        }"#,
    );

    assert!(!is_exact_freeform_input_schema(&tool.input_schema));
}
