use crate::json::{json_array, json_object, json_string, object_insert, object_new, Json};
use crate::models::{
    ContentItem, FunctionCallOutputBody, FunctionCallOutputContentItem, FunctionCallOutputPayload,
    ResponseItem,
};
use crate::reasoning::{collect_reasoning, has_role};
use crate::text::same_text;
use crate::tool_calls::{push_tool_call_message, set_reasoning};
#[allow(unused_imports)]
use crate::json::{json_view, json_views, object_view, JsonFields};
#[allow(unused_imports)]
use crate::reasoning::{reasoning_at, text_at};
#[allow(unused_imports)]
use crate::tool_calls::{optional_text, with_reasoning, with_tool_call};
use serde_json::Value;
use std::collections::HashMap;
use vstd::prelude::*;

verus! {

/// A part of a message that is text.
pub open spec fn text_part(text: Seq<char>) -> Json {
    Json::Object(map!["type"@ => Json::String("text"@), "text"@ => Json::String(text)])
}

/// A part of a message that is an image behind a URL.
pub open spec fn image_part(url: Seq<char>) -> Json {
    Json::Object(
        map![
            "type"@ => Json::String("image_url"@),
            "image_url"@ => Json::Object(map!["url"@ => Json::String(url)]),
        ],
    )
}

/// A part of the content of a message, as it is sent.
pub open spec fn content_part(item: ContentItem) -> Json {
    match item {
        ContentItem::InputText { text } => text_part(text@),
        ContentItem::OutputText { text } => text_part(text@),
        ContentItem::InputImage { image_url } => image_part(image_url@),
    }
}

/// The text of a part of the content of a message; an image has none.
pub open spec fn content_item_text(item: ContentItem) -> Seq<char> {
    match item {
        ContentItem::InputText { text } => text@,
        ContentItem::OutputText { text } => text@,
        ContentItem::InputImage { .. } => Seq::empty(),
    }
}

/// The text of the content of a message, put together.
pub open spec fn content_text(content: Seq<ContentItem>) -> Seq<char>
    decreases content.len(),
{
    if content.len() == 0 {
        Seq::empty()
    } else {
        content_text(content.drop_last()) + content_item_text(content.last())
    }
}

/// Whether the content of a message holds an image.
pub open spec fn has_image(content: Seq<ContentItem>) -> bool {
    exists|i: int| 0 <= i < content.len() && (#[trigger] content[i]) is InputImage
}

/// The content of a message, as it is sent: its parts where it holds an image
/// and is not from the assistant, and its text otherwise.
pub open spec fn message_content(role: Seq<char>, content: Seq<ContentItem>) -> Json {
    if role != "assistant"@ && has_image(content) {
        Json::Array(content.map_values(|item: ContentItem| content_part(item)))
    } else {
        Json::String(content_text(content))
    }
}

/// The entries of a message under a role.
pub open spec fn message_fields(role: Seq<char>, content: Json) -> JsonFields {
    map!["role"@ => Json::String(role), "content"@ => content]
}

/// A message of the history, as it is sent: only one from the assistant carries
/// reasoning.
pub open spec fn chat_message(
    role: Seq<char>,
    content: Seq<ContentItem>,
    reasoning: Option<Seq<char>>,
) -> Json {
    let fields = message_fields(role, message_content(role, content));
    Json::Object(
        if role == "assistant"@ {
            with_reasoning(fields, reasoning)
        } else {
            fields
        },
    )
}

/// The message that opens every request: the instructions, under the role of
/// the system.
pub open spec fn system_message(instructions: Seq<char>) -> Json {
    Json::Object(message_fields("system"@, Json::String(instructions)))
}

/// A part of the output of a tool, as it is sent.
pub open spec fn output_part(item: FunctionCallOutputContentItem) -> Json {
    match item {
        FunctionCallOutputContentItem::InputText { text } => text_part(text@),
        FunctionCallOutputContentItem::InputImage { image_url } => image_part(image_url@),
        FunctionCallOutputContentItem::EncryptedContent => text_part("[encrypted]"@),
    }
}

/// The output of a tool, as it is sent.
pub open spec fn output_content(output: FunctionCallOutputPayload) -> Json {
    match output.body {
        FunctionCallOutputBody::Text(text) => Json::String(text@),
        FunctionCallOutputBody::ContentItems(items) => Json::Array(
            items@.map_values(|item: FunctionCallOutputContentItem| output_part(item)),
        ),
    }
}

/// The message that answers a tool call.
pub open spec fn tool_message(call_id: Seq<char>, output: FunctionCallOutputPayload) -> Json {
    Json::Object(
        map![
            "role"@ => Json::String("tool"@),
            "tool_call_id"@ => Json::String(call_id),
            "content"@ => output_content(output),
        ],
    )
}

/// A call of a function, as it is sent.
pub open spec fn function_call(call_id: Seq<char>, name: Seq<char>, arguments: Seq<char>) -> Json {
    Json::Object(
        map![
            "id"@ => Json::String(call_id),
            "type"@ => Json::String("function"@),
            "function"@ => Json::Object(
                map!["name"@ => Json::String(name), "arguments"@ => Json::String(arguments)],
            ),
        ],
    )
}

/// A call of the local shell, as it is sent: a call without an id has the empty
/// one.
pub open spec fn local_shell_call(call_id: Option<Seq<char>>, action: Json) -> Json {
    Json::Object(
        map![
            "id"@ => Json::String(match call_id {
                Some(id) => id,
                None => Seq::empty(),
            }),
            "type"@ => Json::String("local_shell_call"@),
            "action"@ => action,
        ],
    )
}

/// A call of a custom tool, as it is sent.
pub open spec fn custom_tool_call(call_id: Seq<char>, name: Seq<char>, input: Seq<char>) -> Json {
    Json::Object(
        map![
            "id"@ => Json::String(call_id),
            "type"@ => Json::String("custom"@),
            "custom"@ => Json::Object(
                map!["name"@ => Json::String(name), "input"@ => Json::String(input)],
            ),
        ],
    )
}

/// The tool call that an item stands for, as it is sent.
pub open spec fn tool_call_of(item: ResponseItem) -> Option<Json> {
    match item {
        ResponseItem::FunctionCall { name, arguments, call_id } => Some(
            function_call(call_id@, name@, arguments@),
        ),
        ResponseItem::LocalShellCall { call_id, action } => Some(
            local_shell_call(
                match call_id {
                    Some(id) => Some(id@),
                    None => None,
                },
                json_view(action),
            ),
        ),
        ResponseItem::CustomToolCall { call_id, name, input } => Some(
            custom_tool_call(call_id@, name@, input@),
        ),
        _ => None,
    }
}

/// The text of the last assistant message of a history.
pub open spec fn last_assistant_text(items: Seq<ResponseItem>) -> Option<Seq<char>>
    decreases items.len(),
{
    if items.len() == 0 {
        None
    } else {
        match items.last() {
            ResponseItem::Message { role, content } if role@ == "assistant"@ => Some(
                content_text(content@),
            ),
            _ => last_assistant_text(items.drop_last()),
        }
    }
}

/// An assistant message with the text of the assistant message before it.
pub open spec fn repeats_assistant(items: Seq<ResponseItem>, i: int) -> bool {
    match items[i] {
        ResponseItem::Message { role, content } => {
            &&& role@ == "assistant"@
            &&& last_assistant_text(items.take(i)) == Some(content_text(content@))
        },
        _ => false,
    }
}

/// The messages after the item at position `i` was taken up.
pub open spec fn with_item(messages: Seq<Json>, items: Seq<ResponseItem>, i: int) -> Seq<Json> {
    match items[i] {
        ResponseItem::Message { role, content } => if repeats_assistant(items, i) {
            messages
        } else {
            messages.push(chat_message(role@, content@, reasoning_at(items, i)))
        },
        ResponseItem::FunctionCallOutput { call_id, output } => messages.push(
            tool_message(call_id@, output),
        ),
        ResponseItem::CustomToolCallOutput { call_id, output } => messages.push(
            tool_message(call_id@, output),
        ),
        _ => match tool_call_of(items[i]) {
            Some(tool_call) => with_tool_call(messages, tool_call, reasoning_at(items, i)),
            None => messages,
        },
    }
}

/// The messages that stand for the first `n` items of a history.
pub open spec fn messages_upto(
    instructions: Seq<char>,
    items: Seq<ResponseItem>,
    n: int,
) -> Seq<Json>
    decreases n,
{
    if n <= 0 {
        seq![system_message(instructions)]
    } else {
        with_item(messages_upto(instructions, items, n - 1), items, n - 1)
    }
}

/// The messages of a request: the instructions, and then what the items of the
/// history stand for, in their order.
pub open spec fn request_messages(instructions: Seq<char>, items: Seq<ResponseItem>) -> Seq<Json> {
    messages_upto(instructions, items, items.len() as int)
}

/// An object with two entries.
fn object_of_two(key: &str, value: Value, key2: &str, value2: Value) -> (fields: serde_json::Map<
    String,
    Value,
>)
    ensures
        object_view(fields) == map![key@ => json_view(value), key2@ => json_view(value2)],
{
    let mut fields = object_new();
    object_insert(&mut fields, key.to_string(), value);
    object_insert(&mut fields, key2.to_string(), value2);
    fields
}

/// A string, as it is sent.
fn string_value(text: &str) -> (value: Value)
    ensures
        json_view(value) == Json::String(text@),
{
    json_string(text.to_string())
}

/// Renders a part that is text.
fn text_part_value(text: &str) -> (value: Value)
    ensures
        json_view(value) == text_part(text@),
{
    json_object(object_of_two("type", string_value("text"), "text", string_value(text)))
}

/// Renders a part that is an image behind a URL.
fn image_part_value(url: &str) -> (value: Value)
    ensures
        json_view(value) == image_part(url@),
{
    let mut image = object_new();
    object_insert(&mut image, "url".to_string(), string_value(url));
    json_object(
        object_of_two("type", string_value("image_url"), "image_url", json_object(image)),
    )
}

/// Renders the instructions as the message of the system.
pub fn system_message_value(instructions: &str) -> (value: Value)
    ensures
        json_view(value) == system_message(instructions@),
{
    json_object(
        object_of_two("role", string_value("system"), "content", string_value(instructions)),
    )
}

/// Puts the text of the content of a message together.
pub fn join_content(content: &Vec<ContentItem>) -> (text: String)
    ensures
        text@ == content_text(content@),
{
    let mut text = String::new();
    for idx in 0..content.len()
        invariant
            text@ == content_text(content@.take(idx as int)),
    {
        assert(content@.take(idx + 1).drop_last() == content@.take(idx as int));
        match &content[idx] {
            ContentItem::InputText { text: t } => text.append(t.as_str()),
            ContentItem::OutputText { text: t } => text.append(t.as_str()),
            ContentItem::InputImage { .. } => {},
        }
    }
    assert(content@.take(content@.len() as int) == content@);
    text
}

/// Whether the content of a message holds an image.
fn holds_image(content: &Vec<ContentItem>) -> (found: bool)
    ensures
        found == has_image(content@),
{
    for idx in 0..content.len()
        invariant
            forall|i: int| 0 <= i < idx ==> !((#[trigger] content@[i]) is InputImage),
    {
        if let ContentItem::InputImage { .. } = &content[idx] {
            return true;
        }
    }
    false
}

/// Renders the parts of the content of a message.
fn content_part_values(content: &Vec<ContentItem>) -> (values: Vec<Value>)
    ensures
        json_views(values@) == content@.map_values(|item: ContentItem| content_part(item)),
{
    let mut values: Vec<Value> = Vec::new();
    for idx in 0..content.len()
        invariant
            values@.len() == idx,
            forall|i: int| 0 <= i < idx ==> json_view(#[trigger] values@[i]) == content_part(
                content@[i],
            ),
    {
        values.push(
            match &content[idx] {
                ContentItem::InputText { text } => text_part_value(text.as_str()),
                ContentItem::OutputText { text } => text_part_value(text.as_str()),
                ContentItem::InputImage { image_url } => image_part_value(image_url.as_str()),
            },
        );
    }
    values
}

/// Renders the output of a tool.
fn output_value(output: &FunctionCallOutputPayload) -> (value: Value)
    ensures
        json_view(value) == output_content(*output),
{
    match &output.body {
        FunctionCallOutputBody::Text(text) => string_value(text.as_str()),
        FunctionCallOutputBody::ContentItems(items) => {
            let mut values: Vec<Value> = Vec::new();
            for idx in 0..items.len()
                invariant
                    values@.len() == idx,
                    forall|i: int| 0 <= i < idx ==> json_view(#[trigger] values@[i]) == output_part(
                        items@[i],
                    ),
            {
                values.push(
                    match &items[idx] {
                        FunctionCallOutputContentItem::InputText { text } => text_part_value(
                            text.as_str(),
                        ),
                        FunctionCallOutputContentItem::InputImage { image_url } => image_part_value(
                            image_url.as_str(),
                        ),
                        FunctionCallOutputContentItem::EncryptedContent => text_part_value(
                            "[encrypted]",
                        ),
                    },
                );
            }
            assert(json_views(values@) == items@.map_values(
                |item: FunctionCallOutputContentItem| output_part(item),
            ));
            json_array(values)
        },
    }
}

/// Renders the message that answers a tool call.
pub fn tool_message_value(call_id: &str, output: &FunctionCallOutputPayload) -> (value: Value)
    ensures
        json_view(value) == tool_message(call_id@, *output),
{
    let mut fields = object_of_two(
        "role",
        string_value("tool"),
        "tool_call_id",
        string_value(call_id),
    );
    object_insert(&mut fields, "content".to_string(), output_value(output));
    json_object(fields)
}

/// Renders the tool call that an item stands for.
pub fn tool_call_value(item: &ResponseItem) -> (value: Option<Value>)
    ensures
        match value {
            Some(v) => tool_call_of(*item) == Some(json_view(v)),
            None => tool_call_of(*item) is None,
        },
{
    match item {
        ResponseItem::FunctionCall { name, arguments, call_id } => {
            let function = object_of_two(
                "name",
                string_value(name.as_str()),
                "arguments",
                string_value(arguments.as_str()),
            );
            let mut fields = object_of_two(
                "id",
                string_value(call_id.as_str()),
                "type",
                string_value("function"),
            );
            object_insert(&mut fields, "function".to_string(), json_object(function));
            Some(json_object(fields))
        },
        ResponseItem::LocalShellCall { call_id, action } => {
            let id = call_id.clone().unwrap_or_default();
            let mut fields = object_of_two(
                "id",
                json_string(id),
                "type",
                string_value("local_shell_call"),
            );
            object_insert(&mut fields, "action".to_string(), action.clone());
            Some(json_object(fields))
        },
        ResponseItem::CustomToolCall { call_id, name, input } => {
            let custom = object_of_two(
                "name",
                string_value(name.as_str()),
                "input",
                string_value(input.as_str()),
            );
            let mut fields = object_of_two(
                "id",
                string_value(call_id.as_str()),
                "type",
                string_value("custom"),
            );
            object_insert(&mut fields, "custom".to_string(), json_object(custom));
            Some(json_object(fields))
        },
        _ => None,
    }
}

/// The text that a map holds for a position.
fn lookup<'a>(texts: &'a HashMap<usize, String>, position: usize) -> (text: Option<&'a str>)
    ensures
        optional_text(text) == text_at(texts@, position),
{
    match texts.get(&position) {
        Some(text) => Some(text.as_str()),
        None => None,
    }
}

/// Renders a message of the history, given its text.
fn chat_message_value(
    role: &str,
    content: &Vec<ContentItem>,
    text: String,
    reasoning: Option<&str>,
) -> (value: Value)
    requires
        text@ == content_text(content@),
    ensures
        json_view(value) == chat_message(role@, content@, optional_text(reasoning)),
{
    let from_assistant = same_text(role, "assistant");
    let content_value = if !from_assistant && holds_image(content) {
        json_array(content_part_values(content))
    } else {
        json_string(text)
    };
    let mut fields = object_of_two("role", string_value(role), "content", content_value);
    if from_assistant {
        set_reasoning(&mut fields, reasoning);
    }
    json_object(fields)
}

/// Renders the messages of a request.
pub fn build_messages(instructions: &str, input: &[ResponseItem]) -> (messages: Vec<Value>)
    ensures
        json_views(messages@) == request_messages(instructions@, input@),
{
    let mut messages: Vec<Value> = Vec::new();
    messages.push(system_message_value(instructions));
    let reasoning_by_anchor_index = collect_reasoning(input);
    let mut last_text: Option<String> = None;
    assert(json_views(messages@) == seq![system_message(instructions@)]);
    for idx in 0..input.len()
        invariant
            json_views(messages@) == messages_upto(instructions@, input@, idx as int),
            match last_text {
                Some(t) => last_assistant_text(input@.take(idx as int)) == Some(t@),
                None => last_assistant_text(input@.take(idx as int)) is None,
            },
            forall|k: usize| #[trigger]
                text_at(reasoning_by_anchor_index@, k) == reasoning_at(input@, k as int),
    {
        let ghost before = json_views(messages@);
        assert(input@.take(idx + 1).drop_last() == input@.take(idx as int));
        let reasoning = lookup(&reasoning_by_anchor_index, idx);
        match &input[idx] {
            ResponseItem::Message { role, content } => {
                let text = join_content(content);
                let mut repeated = false;
                if has_role(&input[idx], "assistant") {
                    if let Some(prev) = &last_text {
                        repeated = *prev == text;
                    }
                    last_text = Some(text.clone());
                }
                if !repeated {
                    messages.push(chat_message_value(role.as_str(), content, text, reasoning));
                    assert(json_views(messages@) == before.push(json_view(messages@.last())));
                }
            },
            ResponseItem::FunctionCallOutput { call_id, output } => {
                messages.push(tool_message_value(call_id.as_str(), output));
                assert(json_views(messages@) == before.push(json_view(messages@.last())));
            },
            ResponseItem::CustomToolCallOutput { call_id, output } => {
                messages.push(tool_message_value(call_id.as_str(), output));
                assert(json_views(messages@) == before.push(json_view(messages@.last())));
            },
            item => {
                // Items without a Chat Completions equivalent are skipped.
                if let Some(tool_call) = tool_call_value(item) {
                    push_tool_call_message(&mut messages, tool_call, reasoning);
                }
            },
        }
    }
    messages
}

} // verus!
