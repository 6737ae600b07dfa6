//! The MCP text contract: which MCP tools take raw freeform input, how such
//! a tool is declared to the model, how raw input is wrapped back into MCP
//! arguments, and what of an MCP result the model sees.
use vstd::prelude::*;
use vstd::string::*;
use crate::json::{field_of, is_json_text, json_text_equals, object_field, JsonValue};
use crate::text::same_text;

verus! {

/// A primitive JSON schema type.
#[derive(Debug, Clone, Copy, PartialEq, Eq)]
pub enum JsonSchemaPrimitiveType {
    String,
    Number,
    Boolean,
    Integer,
    Object,
    Array,
    Null,
}

/// A schema's `type`: one primitive type or a union of them.
#[derive(Debug)]
pub enum JsonSchemaType {
    Single(JsonSchemaPrimitiveType),
    Multiple(Vec<JsonSchemaPrimitiveType>),
}

/// A schema's `additionalProperties`.
#[derive(Debug)]
pub enum AdditionalProperties {
    Boolean(bool),
    Schema(Box<JsonSchema>),
}

/// A JSON schema as the tool layer reads it.
#[derive(Debug)]
pub struct JsonSchema {
    pub schema_type: Option<JsonSchemaType>,
    pub description: Option<String>,
    pub items: Option<Box<JsonSchema>>,
    pub properties: Option<Vec<(String, JsonSchema)>>,
    pub required: Option<Vec<String>>,
    pub additional_properties: Option<AdditionalProperties>,
    pub enum_values: Option<Vec<JsonValue>>,
}

/// The schema with no keyword set.
impl Default for JsonSchema {
    fn default() -> (s: Self)
        ensures
            s.schema_type is None,
            s.description is None,
            s.items is None,
            s.properties is None,
            s.required is None,
            s.additional_properties is None,
            s.enum_values is None,
    {
        JsonSchema {
            schema_type: None,
            description: None,
            items: None,
            properties: None,
            required: None,
            additional_properties: None,
            enum_values: None,
        }
    }
}

impl JsonSchema {
    /// An object schema with the given properties.
    pub fn object(
        properties: Vec<(String, JsonSchema)>,
        required: Option<Vec<String>>,
        additional_properties: Option<AdditionalProperties>,
    ) -> (s: Self)
        ensures
            s.schema_type == Some(JsonSchemaType::Single(JsonSchemaPrimitiveType::Object)),
            s.description is None,
            s.items is None,
            s.properties == Some(properties),
            s.required == required,
            s.additional_properties == additional_properties,
            s.enum_values is None,
    {
        JsonSchema {
            schema_type: Some(JsonSchemaType::Single(JsonSchemaPrimitiveType::Object)),
            description: None,
            items: None,
            properties: Some(properties),
            required,
            additional_properties,
            enum_values: None,
        }
    }

    /// A string schema.
    pub fn string(description: Option<String>) -> (s: Self)
        ensures
            s.schema_type == Some(JsonSchemaType::Single(JsonSchemaPrimitiveType::String)),
            s.description == description,
            s.items is None,
            s.properties is None,
            s.required is None,
            s.additional_properties is None,
            s.enum_values is None,
    {
        JsonSchema {
            schema_type: Some(JsonSchemaType::Single(JsonSchemaPrimitiveType::String)),
            description,
            items: None,
            properties: None,
            required: None,
            additional_properties: None,
            enum_values: None,
        }
    }
}

/// The name of the single input field of a freeform MCP tool.
pub open spec fn freeform_field() -> Seq<char> {
    "freeform"@
}

/// A plain string schema: type exactly `string` and no constraint.
pub open spec fn is_plain_string_schema(s: JsonSchema) -> bool {
    &&& s.schema_type matches Some(JsonSchemaType::Single(JsonSchemaPrimitiveType::String))
    &&& s.items is None
    &&& s.properties is None
    &&& s.required is None
    &&& s.additional_properties is None
    &&& s.enum_values is None
}

/// Additional properties are absent or explicitly forbidden.
pub open spec fn forbids_additional(a: Option<AdditionalProperties>) -> bool {
    a is None || a == Some(AdditionalProperties::Boolean(false))
}

/// The schema is exactly one required string field named `freeform`: an
/// object schema whose only property is `freeform`, a plain string, whose
/// `required` list is exactly `["freeform"]`, and which does not allow
/// additional properties. Descriptions are annotations and do not matter.
pub open spec fn exact_freeform_schema(s: JsonSchema) -> bool {
    &&& s.schema_type matches Some(JsonSchemaType::Single(JsonSchemaPrimitiveType::Object))
    &&& s.items is None
    &&& s.enum_values is None
    &&& s.properties matches Some(props) && props@.len() == 1 && props@[0].0@ == freeform_field()
        && is_plain_string_schema(props@[0].1)
    &&& s.required matches Some(req) && req@.len() == 1 && req@[0]@ == freeform_field()
    &&& forbids_additional(s.additional_properties)
}

fn is_plain_string(s: &JsonSchema) -> (r: bool)
    ensures
        r == is_plain_string_schema(*s),
{
    let typed = match &s.schema_type {
        Some(JsonSchemaType::Single(JsonSchemaPrimitiveType::String)) => true,
        _ => false,
    };
    typed && s.items.is_none() && s.properties.is_none() && s.required.is_none()
        && s.additional_properties.is_none() && s.enum_values.is_none()
}

/// Whether a schema is exactly one required string field named `freeform`.
pub fn is_exact_freeform_schema(schema: &JsonSchema) -> (r: bool)
    ensures
        r == exact_freeform_schema(*schema),
{
    let is_object = match &schema.schema_type {
        Some(JsonSchemaType::Single(JsonSchemaPrimitiveType::Object)) => true,
        _ => false,
    };
    if !is_object || schema.items.is_some() || schema.enum_values.is_some() {
        return false;
    }
    let properties_ok = match &schema.properties {
        Some(props) => props.len() == 1 && same_text(props[0].0.as_str(), "freeform")
            && is_plain_string(&props[0].1),
        None => false,
    };
    let required_ok = match &schema.required {
        Some(req) => req.len() == 1 && same_text(req[0].as_str(), "freeform"),
        None => false,
    };
    let additional_ok = match &schema.additional_properties {
        None => true,
        Some(AdditionalProperties::Boolean(allowed)) => !*allowed,
        Some(AdditionalProperties::Schema(_)) => false,
    };
    proof {
        reveal_strlit("freeform");
    }
    properties_ok && required_ok && additional_ok
}

/// The keywords a freeform property may carry besides its type: annotations.
pub open spec fn is_annotation_keyword(key: Seq<char>) -> bool {
    key == "type"@ || key == "description"@ || key == "title"@
}

/// A raw property schema that is exactly `{"type": "string"}` plus annotations.
pub open spec fn raw_plain_string_schema(v: JsonValue) -> bool {
    v matches JsonValue::Object(members) && (field_of(members@, "type"@) matches Some(t)
        && is_json_text(t, "string"@)) && forall|i: int|
        0 <= i < members@.len() ==> is_annotation_keyword(#[trigger] members@[i].0@)
}

/// The members a freeform input schema may have: its shape and annotations.
pub open spec fn is_schema_keyword(key: Seq<char>) -> bool {
    key == "type"@ || key == "description"@ || key == "title"@ || key == "properties"@ || key
        == "required"@ || key == "additionalProperties"@
}

/// A raw `additionalProperties` member that is absent or `false`.
pub open spec fn raw_forbids_additional(a: Option<JsonValue>) -> bool {
    a is None || a matches Some(JsonValue::Bool(false))
}

/// The raw MCP input schema is exactly one required string field named
/// `freeform`: `type` is `"object"`, `properties` holds only `freeform`, a
/// plain string schema with at most `description`/`title` annotations,
/// `required` is exactly `["freeform"]`, `additionalProperties` is absent or
/// `false`, and the schema has no member besides these and the `description`
/// and `title` annotations.
pub open spec fn exact_freeform_input_schema(schema: JsonValue) -> bool {
    schema matches JsonValue::Object(top) && {
        &&& forall|i: int| 0 <= i < top@.len() ==> is_schema_keyword(#[trigger] top@[i].0@)
        &&& field_of(top@, "type"@) matches Some(t) && is_json_text(t, "object"@)
        &&& field_of(top@, "properties"@) matches Some(JsonValue::Object(props)) && props@.len()
            == 1 && props@[0].0@ == freeform_field() && raw_plain_string_schema(props@[0].1)
        &&& field_of(top@, "required"@) matches Some(JsonValue::Array(req)) && req@.len() == 1
            && is_json_text(req@[0], freeform_field())
        &&& raw_forbids_additional(field_of(top@, "additionalProperties"@))
    }
}

fn is_annotation_key(key: &str) -> (r: bool)
    ensures
        r == is_annotation_keyword(key@),
{
    same_text(key, "type") || same_text(key, "description") || same_text(key, "title")
}

fn is_schema_key(key: &str) -> (r: bool)
    ensures
        r == is_schema_keyword(key@),
{
    same_text(key, "type") || same_text(key, "description") || same_text(key, "title")
        || same_text(key, "properties") || same_text(key, "required") || same_text(
        key,
        "additionalProperties",
    )
}

fn only_schema_keys(members: &Vec<(String, JsonValue)>) -> (r: bool)
    ensures
        r == forall|i: int| 0 <= i < members@.len() ==> is_schema_keyword(#[trigger] members@[i].0@),
{
    let mut i: usize = 0;
    while i < members.len()
        invariant
            i <= members@.len(),
            forall|j: int| 0 <= j < i ==> is_schema_keyword(#[trigger] members@[j].0@),
        decreases members@.len() - i,
    {
        if !is_schema_key(members[i].0.as_str()) {
            assert(!is_schema_keyword(members@[i as int].0@));
            return false;
        }
        i = i + 1;
    }
    true
}

fn only_annotation_keys(members: &Vec<(String, JsonValue)>) -> (r: bool)
    ensures
        r == forall|i: int| 0 <= i < members@.len() ==> is_annotation_keyword(#[trigger] members@[i].0@),
{
    let mut i: usize = 0;
    while i < members.len()
        invariant
            i <= members@.len(),
            forall|j: int| 0 <= j < i ==> is_annotation_keyword(#[trigger] members@[j].0@),
        decreases members@.len() - i,
    {
        if !is_annotation_key(members[i].0.as_str()) {
            assert(!is_annotation_keyword(members@[i as int].0@));
            return false;
        }
        i = i + 1;
    }
    true
}

fn is_raw_plain_string(v: &JsonValue) -> (r: bool)
    ensures
        r == raw_plain_string_schema(*v),
{
    match v {
        JsonValue::Object(members) => {
            let typed = match object_field(members, "type") {
                Some(t) => json_text_equals(t, "string"),
                None => false,
            };
            if !typed {
                return false;
            }
            only_annotation_keys(members)
        },
        _ => false,
    }
}

/// Whether a raw MCP input schema is exactly one required string field named
/// `freeform`.
pub fn is_exact_freeform_input_schema(input_schema: &JsonValue) -> (r: bool)
    ensures
        r == exact_freeform_input_schema(*input_schema),
{
    proof {
        reveal_strlit("freeform");
    }
    match input_schema {
        JsonValue::Object(top) => {
            let type_ok = match object_field(top, "type") {
                Some(t) => json_text_equals(t, "object"),
                None => false,
            };
            let properties_ok = match object_field(top, "properties") {
                Some(JsonValue::Object(props)) => props.len() == 1 && same_text(
                    props[0].0.as_str(),
                    "freeform",
                ) && is_raw_plain_string(&props[0].1),
                _ => false,
            };
            let required_ok = match object_field(top, "required") {
                Some(JsonValue::Array(req)) => req.len() == 1 && json_text_equals(&req[0], "freeform"),
                _ => false,
            };
            let additional_ok = match object_field(top, "additionalProperties") {
                None => true,
                Some(JsonValue::Bool(allowed)) => !*allowed,
                Some(_) => false,
            };
            type_ok && properties_ok && required_ok && additional_ok && only_schema_keys(top)
        },
        _ => false,
    }
}

/// The name of a tool as the model sees it: an optional namespace prefix
/// followed by the tool's own name.
#[derive(Debug)]
pub struct ToolName {
    pub namespace: Option<String>,
    pub name: String,
}

/// The text a tool name displays as: the namespace, then the name.
pub open spec fn tool_name_text(t: ToolName) -> Seq<char> {
    match t.namespace {
        Some(ns) => ns@ + t.name@,
        None => t.name@,
    }
}

fn copy_text(s: &str) -> (r: String)
    ensures
        r@ == s@,
{
    let mut r: String = String::new();
    r.append(s);
    proof {
        assert(r@ =~= s@);
    }
    r
}

impl ToolName {
    /// A tool name without namespace.
    pub fn plain(name: &str) -> (t: Self)
        ensures
            t.namespace is None,
            t.name@ == name@,
    {
        ToolName { namespace: None, name: copy_text(name) }
    }

    /// A tool name inside a namespace.
    pub fn namespaced(namespace: &str, name: &str) -> (t: Self)
        ensures
            t.namespace matches Some(ns) && ns@ == namespace@,
            t.name@ == name@,
    {
        ToolName { namespace: Some(copy_text(namespace)), name: copy_text(name) }
    }

    /// The displayed name: namespace followed by name.
    pub fn display(&self) -> (s: String)
        ensures
            s@ == tool_name_text(*self),
    {
        let mut s: String = String::new();
        match &self.namespace {
            Some(ns) => s.append(ns.as_str()),
            None => {},
        }
        s.append(self.name.as_str());
        proof {
            assert(s@ =~= tool_name_text(*self));
        }
        s
    }
}

/// An MCP tool as a server lists it.
#[derive(Debug)]
pub struct McpTool {
    pub name: String,
    pub description: Option<String>,
    pub input_schema: JsonValue,
}

/// The input format of a freeform tool; MCP freeform tools take plain text.
#[derive(Debug)]
pub struct FreeformToolFormat {
    pub format_type: String,
}

/// A freeform (custom) tool as declared to the model.
#[derive(Debug)]
pub struct FreeformTool {
    pub name: String,
    pub description: String,
    pub format: FreeformToolFormat,
}

/// The `description` annotation of the `freeform` property, when it is a string.
pub open spec fn freeform_input_description(schema: JsonValue) -> Option<Seq<char>> {
    match schema {
        JsonValue::Object(top) => match field_of(top@, "properties"@) {
            Some(JsonValue::Object(props)) => match field_of(props@, freeform_field()) {
                Some(JsonValue::Object(p)) => match field_of(p@, "description"@) {
                    Some(JsonValue::String(d)) => Some(d@),
                    _ => None,
                },
                _ => None,
            },
            _ => None,
        },
        _ => None,
    }
}

/// The description of the freeform tool: the tool's description, followed by
/// the input field's description under an `Input:` heading when there is one.
pub open spec fn merged_description(tool_description: Seq<char>, input: Option<Seq<char>>) -> Seq<
    char,
> {
    match input {
        None => tool_description,
        Some(d) => if tool_description.len() == 0 {
            d
        } else {
            tool_description + "\n\nInput:\n"@ + d
        },
    }
}

/// The tool's description, or nothing when it has none.
pub open spec fn tool_description_text(tool: McpTool) -> Seq<char> {
    match tool.description {
        Some(d) => d@,
        None => Seq::empty(),
    }
}

fn input_description(schema: &JsonValue) -> (r: Option<&String>)
    ensures
        match freeform_input_description(*schema) {
            None => r is None,
            Some(d) => r matches Some(x) && x@ == d,
        },
{
    proof {
        reveal_strlit("freeform");
    }
    match schema {
        JsonValue::Object(top) => match object_field(top, "properties") {
            Some(JsonValue::Object(props)) => match object_field(props, "freeform") {
                Some(JsonValue::Object(p)) => match object_field(p, "description") {
                    Some(JsonValue::String(d)) => Some(d),
                    _ => None,
                },
                _ => None,
            },
            _ => None,
        },
        _ => None,
    }
}

/// Declares an MCP tool to the model as a freeform text tool, named by
/// `tool_name`, when its input schema is exactly one required string field
/// named `freeform`; otherwise the tool is not a freeform tool.
pub fn mcp_tool_to_freeform_tool(tool_name: &ToolName, tool: &McpTool) -> (r: Option<FreeformTool>)
    ensures
        (r is Some) <==> exact_freeform_input_schema(tool.input_schema),
        r matches Some(f) ==> {
            &&& f.name@ == tool_name_text(*tool_name)
            &&& f.description@ == merged_description(
                tool_description_text(*tool),
                freeform_input_description(tool.input_schema),
            )
            &&& f.format.format_type@ == "text"@
        },
{
    if !is_exact_freeform_input_schema(&tool.input_schema) {
        return None;
    }
    let mut description: String = String::new();
    match &tool.description {
        Some(d) => description.append(d.as_str()),
        None => {},
    }
    proof {
        assert(description@ =~= tool_description_text(*tool));
    }
    match input_description(&tool.input_schema) {
        Some(d) => {
            if description.unicode_len() == 0 {
                description = copy_text(d.as_str());
            } else {
                description.append("\n\nInput:\n");
                description.append(d.as_str());
            }
        },
        None => {},
    }
    Some(
        FreeformTool {
            name: tool_name.display(),
            description,
            format: FreeformToolFormat { format_type: "text".to_owned() },
        },
    )
}

/// The MCP arguments a raw freeform input is wrapped into: `{"freeform": input}`.
pub fn freeform_arguments(input: String) -> (args: JsonValue)
    ensures
        args matches JsonValue::Object(members) && members@.len() == 1 && members@[0].0@
            == freeform_field() && is_json_text(members@[0].1, input@),
{
    let mut members: Vec<(String, JsonValue)> = Vec::new();
    let key: String = "freeform".to_owned();
    proof {
        reveal_strlit("freeform");
    }
    members.push((key, JsonValue::String(input)));
    JsonValue::Object(members)
}

/// An item of an MCP tool result's content.
#[derive(Debug)]
pub enum McpContent {
    Text(String),
    NonText,
}

/// What the model sees of an MCP result under `model_content_only`: the text
/// of the first content item when it is text, and nothing otherwise.
pub open spec fn model_visible_text(content: Seq<McpContent>) -> Seq<char> {
    if content.len() > 0 {
        match content[0] {
            McpContent::Text(t) => t@,
            McpContent::NonText => Seq::empty(),
        }
    } else {
        Seq::empty()
    }
}

/// The model-visible output of an MCP result under `model_content_only`.
pub fn model_visible_output(content: &Vec<McpContent>) -> (out: String)
    ensures
        out@ == model_visible_text(content@),
{
    if content.len() == 0 {
        return String::new();
    }
    match &content[0] {
        McpContent::Text(t) => copy_text(t.as_str()),
        McpContent::NonText => String::new(),
    }
}

/// Annotations do not decide: a schema's description never changes whether
/// it is an exact freeform schema.
pub proof fn law_description_does_not_decide(a: JsonSchema, b: JsonSchema)
    requires
        a.schema_type == b.schema_type,
        a.items == b.items,
        a.properties == b.properties,
        a.required == b.required,
        a.additional_properties == b.additional_properties,
        a.enum_values == b.enum_values,
    ensures
        exact_freeform_schema(a) == exact_freeform_schema(b),
{
}

/// Adding a schema-level `description` or `title` annotation to a raw input
/// schema that has none keeps it exactly as freeform as it was.
pub proof fn law_schema_annotation_does_not_decide(
    top: Vec<(String, JsonValue)>,
    annotated: Vec<(String, JsonValue)>,
    key: String,
    value: JsonValue,
)
    requires
        key@ == "description"@ || key@ == "title"@,
        annotated@ == top@.push((key, value)),
    ensures
        exact_freeform_input_schema(JsonValue::Object(annotated)) == exact_freeform_input_schema(
            JsonValue::Object(top),
        ),
{
    reveal_strlit("description");
    reveal_strlit("title");
    reveal_strlit("type");
    reveal_strlit("properties");
    reveal_strlit("required");
    reveal_strlit("additionalProperties");
    assert("type"@.len() == 4 && "properties"@.len() == 10 && "required"@.len() == 8);
    assert("description"@.len() == 11 && "title"@.len() == 5);
    assert("additionalProperties"@.len() == 20);
    assert(key@ != "type"@ && key@ != "properties"@ && key@ != "required"@);
    lemma_field_of_push(top@, key, value, "type"@);
    lemma_field_of_push(top@, key, value, "properties"@);
    lemma_field_of_push(top@, key, value, "required"@);
    lemma_field_of_push(top@, key, value, "additionalProperties"@);
    assert(is_schema_keyword(key@));
    assert((forall|i: int| 0 <= i < annotated@.len() ==> is_schema_keyword(#[trigger] annotated@[i].0@))
        <==> (forall|i: int| 0 <= i < top@.len() ==> is_schema_keyword(#[trigger] top@[i].0@))) by {
        if forall|i: int| 0 <= i < top@.len() ==> is_schema_keyword(#[trigger] top@[i].0@) {
            assert forall|i: int| 0 <= i < annotated@.len() implies is_schema_keyword(
                #[trigger] annotated@[i].0@,
            ) by {
                if i < top@.len() {
                    assert(annotated@[i] == top@[i]);
                }
            }
        }
        if forall|i: int| 0 <= i < annotated@.len() ==> is_schema_keyword(#[trigger] annotated@[i].0@) {
            assert forall|i: int| 0 <= i < top@.len() implies is_schema_keyword(#[trigger] top@[i].0@) by {
                assert(annotated@[i] == top@[i]);
            }
        }
    }
}

/// Appending a member with another name leaves a field's value unchanged.
pub proof fn lemma_field_of_push(
    members: Seq<(String, JsonValue)>,
    key: String,
    value: JsonValue,
    name: Seq<char>,
)
    requires
        key@ != name,
    ensures
        field_of(members.push((key, value)), name) == field_of(members, name),
    decreases members.len(),
{
    if members.len() > 0 {
        assert(members.push((key, value))[0] == members[0]);
        assert(members.push((key, value)).drop_first() =~= members.drop_first().push((key, value)));
        lemma_field_of_push(members.drop_first(), key, value, name);
    } else {
        assert(members.push((key, value))[0] == (key, value));
        assert(members.push((key, value)).drop_first() =~= Seq::<(String, JsonValue)>::empty());
        assert(field_of(members.push((key, value)).drop_first(), name) is None);
    }
}

/// What keeps an MCP tool an ordinary function tool: a `properties` member
/// that is not exactly one field, a field named other than `freeform`, a
/// `freeform` field that is not a plain string (non-string type or string
/// constraints), `additionalProperties` that is not `false`, or any other
/// schema-level member than the shape and its annotations.
pub proof fn law_freeform_disqualifiers(top: Vec<(String, JsonValue)>)
    ensures
        (exists|i: int| 0 <= i < top@.len() && !is_schema_keyword(#[trigger] top@[i].0@))
            ==> !exact_freeform_input_schema(JsonValue::Object(top)),
        field_of(top@, "properties"@) matches Some(JsonValue::Object(props)) ==> {
            &&& props@.len() != 1 ==> !exact_freeform_input_schema(JsonValue::Object(top))
            &&& props@.len() == 1 && props@[0].0@ != freeform_field()
                ==> !exact_freeform_input_schema(JsonValue::Object(top))
            &&& props@.len() == 1 && !raw_plain_string_schema(props@[0].1)
                ==> !exact_freeform_input_schema(JsonValue::Object(top))
        },
        !raw_forbids_additional(field_of(top@, "additionalProperties"@))
            ==> !exact_freeform_input_schema(JsonValue::Object(top)),
{
}

/// A raw input schema is freeform only when its `required` member is exactly
/// the one-element array `["freeform"]`: without it, or with anything else
/// there, the tool stays an ordinary function tool.
pub proof fn law_freeform_input_must_require_freeform(top: Vec<(String, JsonValue)>)
    ensures
        !(field_of(top@, "required"@) matches Some(JsonValue::Array(req)) && req@.len() == 1 && (
        req@[0] matches JsonValue::String(r) && r@ == "freeform"@)) ==> !exact_freeform_input_schema(
            JsonValue::Object(top),
        ),
{
    reveal_strlit("freeform");
}

/// The `freeform` property may carry only `type`, `description` and
/// `title`: any other member (a string constraint such as `minLength`,
/// `maxLength`, `pattern` or `enum`) keeps the tool an ordinary function tool.
pub proof fn law_freeform_property_constraints_disqualify(top: Vec<(String, JsonValue)>)
    ensures
        (field_of(top@, "properties"@) matches Some(JsonValue::Object(props)) && props@.len() >= 1
            && (props@[0].1 matches JsonValue::Object(members) && exists|i: int|
            0 <= i < members@.len() && #[trigger] members@[i].0@ != "type"@ && members@[i].0@
                != "description"@ && members@[i].0@ != "title"@))
            ==> !exact_freeform_input_schema(JsonValue::Object(top)),
{
    match field_of(top@, "properties"@) {
        Some(JsonValue::Object(props)) => {
            if props@.len() >= 1 {
                match props@[0].1 {
                    JsonValue::Object(members) => {
                        if exists|i: int|
                            0 <= i < members@.len() && #[trigger] members@[i].0@ != "type"@
                                && members@[i].0@ != "description"@ && members@[i].0@ != "title"@ {
                            let i = choose|i: int|
                                0 <= i < members@.len() && #[trigger] members@[i].0@ != "type"@
                                    && members@[i].0@ != "description"@ && members@[i].0@
                                    != "title"@;
                            assert(!is_annotation_keyword(members@[i].0@));
                        }
                    },
                    _ => {},
                }
            }
        },
        _ => {},
    }
}

/// The `freeform` property must have type exactly `"string"`, and it must be
/// the only property, named `freeform`; the schema itself must have type
/// `"object"` and may have no member but `type`, `description`, `title`,
/// `properties`, `required` and `additionalProperties`, the last absent or
/// `false`.
pub proof fn law_freeform_input_shape(top: Vec<(String, JsonValue)>)
    ensures
        exact_freeform_input_schema(JsonValue::Object(top)) ==> {
            &&& field_of(top@, "type"@) matches Some(JsonValue::String(t)) && t@ == "object"@
            &&& field_of(top@, "properties"@) matches Some(JsonValue::Object(props)) && props@.len()
                == 1 && props@[0].0@ == "freeform"@ && (props@[0].1 matches JsonValue::Object(
                members) && (field_of(members@, "type"@) matches Some(JsonValue::String(ty)) && ty@
                == "string"@))
            &&& (field_of(top@, "additionalProperties"@) is None || (field_of(
                top@,
                "additionalProperties"@,
            ) matches Some(JsonValue::Bool(false))))
            &&& forall|i: int|
                0 <= i < top@.len() ==> (#[trigger] top@[i].0@ == "type"@ || top@[i].0@
                    == "description"@ || top@[i].0@ == "title"@ || top@[i].0@ == "properties"@
                    || top@[i].0@ == "required"@ || top@[i].0@ == "additionalProperties"@)
        },
{
    reveal_strlit("freeform");
}

/// A schema-level `description` or `title` annotation never changes the
/// input description merged into the freeform tool's description: only the
/// `freeform` property's own `description` counts.
pub proof fn law_input_description_ignores_schema_annotations(
    top: Vec<(String, JsonValue)>,
    annotated: Vec<(String, JsonValue)>,
    key: String,
    value: JsonValue,
)
    requires
        key@ == "description"@ || key@ == "title"@,
        annotated@ == top@.push((key, value)),
    ensures
        freeform_input_description(JsonValue::Object(annotated)) == freeform_input_description(
            JsonValue::Object(top),
        ),
{
    reveal_strlit("description");
    reveal_strlit("title");
    reveal_strlit("properties");
    assert("properties"@.len() == 10 && "description"@.len() == 11 && "title"@.len() == 5);
    assert(key@ != "properties"@);
    lemma_field_of_push(top@, key, value, "properties"@);
}

/// The input description is the `description` string of the `freeform`
/// property.
pub proof fn law_input_description_is_property_description(
    top: Vec<(String, JsonValue)>,
    props: Vec<(String, JsonValue)>,
    property: Vec<(String, JsonValue)>,
    d: String,
)
    requires
        field_of(top@, "properties"@) == Some(JsonValue::Object(props)),
        field_of(props@, "freeform"@) == Some(JsonValue::Object(property)),
        field_of(property@, "description"@) == Some(JsonValue::String(d)),
    ensures
        freeform_input_description(JsonValue::Object(top)) == Some(d@),
{
    reveal_strlit("freeform");
}

/// What keeps a parsed schema from being an exact freeform schema: a type
/// other than `object`, properties absent or other than exactly one field
/// named `freeform` of type `string`, `required` absent or other than
/// exactly `["freeform"]`, or additional properties allowed.
pub proof fn law_freeform_schema_disqualifiers(s: JsonSchema)
    ensures
        !(s.schema_type matches Some(JsonSchemaType::Single(JsonSchemaPrimitiveType::Object)))
            ==> !exact_freeform_schema(s),
        s.properties is None ==> !exact_freeform_schema(s),
        s.properties matches Some(props) && props@.len() != 1 ==> !exact_freeform_schema(s),
        s.properties matches Some(props) && props@.len() == 1 && props@[0].0@ != "freeform"@
            ==> !exact_freeform_schema(s),
        s.properties matches Some(props) && props@.len() == 1 && !(props@[0].1.schema_type matches Some(
            JsonSchemaType::Single(JsonSchemaPrimitiveType::String),
        )) ==> !exact_freeform_schema(s),
        s.required is None ==> !exact_freeform_schema(s),
        s.required matches Some(req) && (req@.len() != 1 || req@[0]@ != "freeform"@)
            ==> !exact_freeform_schema(s),
        s.additional_properties matches Some(AdditionalProperties::Boolean(true))
            ==> !exact_freeform_schema(s),
        s.additional_properties matches Some(AdditionalProperties::Schema(_))
            ==> !exact_freeform_schema(s),
{
    reveal_strlit("freeform");
}

} // verus!
