use crate::json::{
    json_array, json_as_array_mut, json_as_object_mut, json_as_str, json_is_null, json_null,
    json_object, json_string, object_get, object_get_mut, object_insert, object_new, Json,
    JsonFields,
};
use crate::text::same_text;
#[allow(unused_imports)]
use crate::json::{json_view, json_views, object_view};
use serde_json::Value;
use vstd::prelude::*;

verus! {

/// The entries of an assistant message that carries nothing but tool calls:
/// null content beside an array of calls.
pub open spec fn is_tool_call_fields(fields: JsonFields) -> bool {
    &&& fields.contains_key("role"@)
    &&& fields["role"@] == Json::String("assistant"@)
    &&& fields.contains_key("content"@)
    &&& fields["content"@] == Json::Null
    &&& fields.contains_key("tool_calls"@)
    &&& fields["tool_calls"@] is Array
}

/// An assistant message that carries nothing but tool calls.
pub open spec fn is_tool_call_message(message: Json) -> bool {
    match message {
        Json::Object(fields) => is_tool_call_fields(fields),
        _ => false,
    }
}

/// The entries of a message with the given reasoning, if any.
pub open spec fn with_reasoning(fields: JsonFields, reasoning: Option<Seq<char>>) -> JsonFields {
    match reasoning {
        None => fields,
        Some(text) => fields.insert("reasoning"@, Json::String(text)),
    }
}

/// The entries of a message after reasoning was added to it: a reasoning text
/// that is there already is continued on a new line.
pub open spec fn add_reasoning(fields: JsonFields, reasoning: Option<Seq<char>>) -> JsonFields {
    match reasoning {
        None => fields,
        Some(added) => {
            let text = if fields.contains_key("reasoning"@) {
                match fields["reasoning"@] {
                    Json::String(existing) => if existing.len() > 0 {
                        existing.push('\n') + added
                    } else {
                        added
                    },
                    _ => added,
                }
            } else {
                added
            };
            fields.insert("reasoning"@, Json::String(text))
        },
    }
}

/// The entries of a tool call message after one more call.
pub open spec fn add_tool_call(
    fields: JsonFields,
    tool_call: Json,
    reasoning: Option<Seq<char>>,
) -> JsonFields {
    add_reasoning(
        fields.insert("tool_calls"@, Json::Array(fields["tool_calls"@]->Array_0.push(tool_call))),
        reasoning,
    )
}

/// A tool call message with its first call.
pub open spec fn new_tool_call_fields(tool_call: Json, reasoning: Option<Seq<char>>) -> JsonFields {
    with_reasoning(
        map![
            "role"@ => Json::String("assistant"@),
            "content"@ => Json::Null,
            "tool_calls"@ => Json::Array(seq![tool_call]),
        ],
        reasoning,
    )
}

/// The messages after a tool call: the call joins the last message where that
/// is a tool call message, and opens a tool call message of its own otherwise.
pub open spec fn with_tool_call(
    messages: Seq<Json>,
    tool_call: Json,
    reasoning: Option<Seq<char>>,
) -> Seq<Json> {
    if messages.len() > 0 && is_tool_call_message(messages.last()) {
        messages.drop_last().push(
            Json::Object(add_tool_call(messages.last()->Object_0, tool_call, reasoning)),
        )
    } else {
        messages.push(Json::Object(new_tool_call_fields(tool_call, reasoning)))
    }
}

/// The characters of an optional text.
pub open spec fn optional_text(text: Option<&str>) -> Option<Seq<char>> {
    match text {
        Some(t) => Some(t@),
        None => None,
    }
}

/// Sets the reasoning of a message.
pub(crate) fn set_reasoning(
    fields: &mut serde_json::Map<String, Value>,
    reasoning: Option<&str>,
)
    ensures
        object_view(*final(fields)) == with_reasoning(
            object_view(*old(fields)),
            optional_text(reasoning),
        ),
{
    if let Some(text) = reasoning {
        object_insert(fields, "reasoning".to_string(), json_string(text.to_string()));
    }
}

/// Adds reasoning to the entries of a message.
fn continue_reasoning(fields: &mut serde_json::Map<String, Value>, reasoning: Option<&str>)
    ensures
        object_view(*final(fields)) == add_reasoning(
            object_view(*old(fields)),
            optional_text(reasoning),
        ),
{
    if let Some(added) = reasoning {
        let mut text = String::new();
        if let Some(value) = object_get(fields, "reasoning") {
            if let Some(existing) = json_as_str(value) {
                if !existing.is_empty() {
                    text.append(existing);
                    text.append("\n");
                    proof {
                        reveal_strlit("\n");
                        assert(text@ == existing@.push('\n'));
                    }
                }
            }
        }
        text.append(added);
        object_insert(fields, "reasoning".to_string(), json_string(text));
    }
}

/// Appends a tool call to the messages.
///
/// Chat Completions requires that tool calls are grouped into a single assistant
/// message (with `tool_calls: [...]`) followed by tool role responses.
pub fn push_tool_call_message(
    messages: &mut Vec<Value>,
    tool_call: Value,
    reasoning: Option<&str>,
)
    ensures
        json_views(final(messages)@) == with_tool_call(
            json_views(old(messages)@),
            json_view(tool_call),
            optional_text(reasoning),
        ),
{
    let ghost before = json_views(messages@);
    let count = messages.len();
    if count > 0 {
        if let Some(fields) = json_as_object_mut(&mut messages[count - 1]) {
            if has_role_assistant(fields) && has_null_content(fields) {
                let ghost entries = object_view(*fields);
                if let Some(value) = object_get_mut(fields, "tool_calls") {
                    if let Some(tool_calls) = json_as_array_mut(value) {
                        let ghost calls = json_views(tool_calls@);
                        tool_calls.push(tool_call);
                        assert(json_views(tool_calls@) == calls.push(json_view(tool_call)));
                        continue_reasoning(fields, reasoning);
                        assert(json_views(messages@) == before.drop_last().push(
                            json_view(messages@.last()),
                        ));
                        return;
                    }
                    assert(object_view(*fields) == entries);
                }
            }
        }
    }
    assert(json_views(messages@) == before);
    let mut fields = object_new();
    object_insert(&mut fields, "role".to_string(), json_string("assistant".to_string()));
    object_insert(&mut fields, "content".to_string(), json_null());
    let mut tool_calls: Vec<Value> = Vec::new();
    tool_calls.push(tool_call);
    assert(json_views(tool_calls@) == seq![json_view(tool_call)]);
    object_insert(&mut fields, "tool_calls".to_string(), json_array(tool_calls));
    set_reasoning(&mut fields, reasoning);
    messages.push(json_object(fields));
    assert(json_views(messages@) == before.push(json_view(messages@.last())));
}

/// Whether the entries of a message name the assistant as its role.
fn has_role_assistant(fields: &serde_json::Map<String, Value>) -> (found: bool)
    ensures
        found == (object_view(*fields).contains_key("role"@) && object_view(*fields)["role"@]
            == Json::String("assistant"@)),
{
    match object_get(fields, "role") {
        Some(value) => match json_as_str(value) {
            Some(role) => same_text(role, "assistant"),
            None => false,
        },
        None => false,
    }
}

/// Whether the entries of a message have null as their content.
fn has_null_content(fields: &serde_json::Map<String, Value>) -> (found: bool)
    ensures
        found == (object_view(*fields).contains_key("content"@) && object_view(*fields)["content"@]
            == Json::Null),
{
    match object_get(fields, "content") {
        Some(value) => json_is_null(value),
        None => false,
    }
}

} // verus!
