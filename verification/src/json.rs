//! A plain model of JSON values, as MCP servers send them.
use vstd::prelude::*;

verus! {

/// A JSON value. Numbers keep their text; objects keep their members in order.
#[derive(Debug)]
pub enum JsonValue {
    Null,
    Bool(bool),
    Number(String),
    String(String),
    Array(Vec<JsonValue>),
    Object(Vec<(String, JsonValue)>),
}

/// The value of the first member of `members` named `key`.
pub open spec fn field_of(members: Seq<(String, JsonValue)>, key: Seq<char>) -> Option<JsonValue>
    decreases members.len(),
{
    if members.len() == 0 {
        None
    } else if members[0].0@ == key {
        Some(members[0].1)
    } else {
        field_of(members.drop_first(), key)
    }
}

/// Whether `v` is the JSON string `text`.
pub open spec fn is_json_text(v: JsonValue, text: Seq<char>) -> bool {
    v matches JsonValue::String(s) && s@ == text
}

/// The value of the first member named `key`.
pub fn object_field<'a>(members: &'a Vec<(String, JsonValue)>, key: &str) -> (r: Option<&'a JsonValue>)
    ensures
        match field_of(members@, key@) {
            None => r is None,
            Some(v) => r matches Some(x) && *x == v,
        },
{
    let mut i: usize = 0;
    proof {
        assert(members@.skip(0) =~= members@);
    }
    while i < members.len()
        invariant
            i <= members@.len(),
            field_of(members@, key@) == field_of(members@.skip(i as int), key@),
        decreases members@.len() - i,
    {
        proof {
            assert(members@.skip(i as int).drop_first() =~= members@.skip(i + 1));
            assert(members@.skip(i as int)[0] == members@[i as int]);
        }
        if crate::text::same_text(members[i].0.as_str(), key) {
            return Some(&members[i].1);
        }
        i = i + 1;
    }
    None
}

/// Whether `v` is a JSON string equal to `text`.
pub fn json_text_equals(v: &JsonValue, text: &str) -> (r: bool)
    ensures
        r == is_json_text(*v, text@),
{
    match v {
        JsonValue::String(s) => crate::text::same_text(s.as_str(), text),
        _ => false,
    }
}

} // verus!
