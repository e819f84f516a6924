//! What holds of every request, whatever the history it is assembled from.
use crate::chat::RequestSettings;
use crate::headers::HeaderFields;
use crate::json::Json;
use crate::models::ResponseItem;
#[allow(unused_imports)]
use crate::chat::request_fields;
#[allow(unused_imports)]
use crate::headers::is_header_value;
#[allow(unused_imports)]
use crate::messages::{
    chat_message, last_assistant_text, messages_upto, repeats_assistant, request_messages,
    system_message, tool_call_of, tool_message, with_item,
};
#[allow(unused_imports)]
use crate::reasoning::reasoning_at;
#[allow(unused_imports)]
use crate::tool_calls::{is_tool_call_message, with_tool_call};
use vstd::prelude::*;
#[allow(unused_imports)]
use vstd::utf8::encode_utf8;

verus! {

/// A document that is an object with the given entry.
pub open spec fn has_entry(message: Json, key: Seq<char>) -> bool {
    match message {
        Json::Object(fields) => fields.contains_key(key),
        _ => false,
    }
}

/// The entry of a document that is an object.
pub open spec fn entry(message: Json, key: Seq<char>) -> Json {
    message->Object_0[key]
}

/// A document that has the shape of a message: a role, which is a string, and
/// content.
pub open spec fn is_message(message: Json) -> bool {
    &&& has_entry(message, "role"@)
    &&& entry(message, "role"@) is String
    &&& has_entry(message, "content"@)
}

/// The entries of a message have names of their own.
pub(crate) proof fn lemma_keys_differ()
    ensures
        "role"@ != "content"@,
        "role"@ != "tool_calls"@,
        "role"@ != "reasoning"@,
        "role"@ != "tool_call_id"@,
        "content"@ != "tool_calls"@,
        "content"@ != "reasoning"@,
        "content"@ != "tool_call_id"@,
        "tool_calls"@ != "reasoning"@,
        "tool_calls"@ != "tool_call_id"@,
        "reasoning"@ != "tool_call_id"@,
        "assistant"@ != "system"@,
        "assistant"@ != "tool"@,
        "assistant"@ != "user"@,
{
    reveal_strlit("role");
    reveal_strlit("content");
    reveal_strlit("tool_calls");
    reveal_strlit("reasoning");
    reveal_strlit("tool_call_id");
    reveal_strlit("assistant");
    reveal_strlit("system");
    reveal_strlit("tool");
    reveal_strlit("user");
    assert("assistant"@.len() == 9);
    assert("system"@.len() == 6);
    assert("tool"@.len() == 4);
    assert("user"@.len() == 4);
    assert("role"@.len() == 4);
    assert("content"@.len() == 7);
    assert("tool_calls"@.len() == 10);
    assert("reasoning"@.len() == 9);
    assert("tool_call_id"@.len() == 12);
}

/// What one item of the history does to the messages: nothing, or one more
/// message that is no tool call message, or one more tool call.
pub(crate) proof fn lemma_step(messages: Seq<Json>, items: Seq<ResponseItem>, i: int)
    ensures
        match tool_call_of(items[i]) {
            Some(call) => with_item(messages, items, i) == with_tool_call(
                messages,
                call,
                reasoning_at(items, i),
            ),
            None => {
                ||| with_item(messages, items, i) == messages
                ||| with_item(messages, items, i).len() > 0 && !is_tool_call_message(
                    with_item(messages, items, i).last(),
                ) && with_item(messages, items, i) == messages.push(
                    with_item(messages, items, i).last(),
                )
            },
        },
{
    lemma_keys_differ();
}

/// A tool call message stays one when a call is added.
pub(crate) proof fn lemma_tool_call_message(
    messages: Seq<Json>,
    call: Json,
    reasoning: Option<Seq<char>>,
)
    ensures
        with_tool_call(messages, call, reasoning).len() > 0,
        is_tool_call_message(with_tool_call(messages, call, reasoning).last()),
        with_tool_call(messages, call, reasoning).len() >= messages.len(),
        with_tool_call(messages, call, reasoning).len() <= messages.len() + 1,
        forall|j: int|
            0 <= j < messages.len() && (j < messages.len() - 1 || !is_tool_call_message(
                messages[j],
            )) ==> with_tool_call(messages, call, reasoning)[j] == #[trigger] messages[j],
{
    lemma_keys_differ();
}

/// The first items alone: see `law_instructions_come_first`.
proof fn lemma_instructions_come_first(instructions: Seq<char>, items: Seq<ResponseItem>, n: int)
    ensures
        messages_upto(instructions, items, n).len() > 0,
        messages_upto(instructions, items, n)[0] == system_message(instructions),
    decreases n,
{
    lemma_keys_differ();
    if n > 0 {
        lemma_instructions_come_first(instructions, items, n - 1);
        let before = messages_upto(instructions, items, n - 1);
        lemma_step(before, items, n - 1);
        if let Some(call) = tool_call_of(items[n - 1]) {
            lemma_tool_call_message(before, call, reasoning_at(items, n - 1));
        }
    }
}

/// Every request opens with the instructions, under the role of the system.
pub proof fn law_instructions_come_first(instructions: Seq<char>, items: Seq<ResponseItem>)
    ensures
        request_messages(instructions, items).len() > 0,
        request_messages(instructions, items)[0] == system_message(instructions),
{
    lemma_instructions_come_first(instructions, items, items.len() as int);
}

/// The first items alone: see `law_tool_calls_are_grouped`.
proof fn lemma_tool_calls_are_grouped(instructions: Seq<char>, items: Seq<ResponseItem>, n: int)
    ensures
        forall|i: int, j: int|
            0 <= i && j == i + 1 && j < messages_upto(instructions, items, n).len() ==> !(
            is_tool_call_message(#[trigger] messages_upto(instructions, items, n)[i])
                && is_tool_call_message(#[trigger] messages_upto(instructions, items, n)[j])),
    decreases n,
{
    lemma_keys_differ();
    if n > 0 {
        lemma_tool_calls_are_grouped(instructions, items, n - 1);
        let before = messages_upto(instructions, items, n - 1);
        lemma_step(before, items, n - 1);
        if let Some(call) = tool_call_of(items[n - 1]) {
            lemma_tool_call_message(before, call, reasoning_at(items, n - 1));
        }
    }
}

/// Tool calls that follow one another share a message: no tool call message
/// stands right before another.
pub proof fn law_tool_calls_are_grouped(instructions: Seq<char>, items: Seq<ResponseItem>)
    ensures
        forall|i: int, j: int|
            0 <= i && j == i + 1 && j < request_messages(instructions, items).len() ==> !(
            is_tool_call_message(#[trigger] request_messages(instructions, items)[i])
                && is_tool_call_message(#[trigger] request_messages(instructions, items)[j])),
{
    lemma_tool_calls_are_grouped(instructions, items, items.len() as int);
}

/// The first items alone: see `law_messages_have_role_and_content`.
proof fn lemma_messages_have_role_and_content(
    instructions: Seq<char>,
    items: Seq<ResponseItem>,
    n: int,
)
    ensures
        forall|i: int|
            0 <= i < messages_upto(instructions, items, n).len() ==> {
                let message = #[trigger] messages_upto(instructions, items, n)[i];
                &&& is_message(message)
                &&& is_tool_call_message(message) ==> entry(message, "tool_calls"@)->Array_0.len()
                    > 0 && !has_entry(message, "tool_call_id"@)
            },
    decreases n,
{
    lemma_keys_differ();
    if n > 0 {
        lemma_messages_have_role_and_content(instructions, items, n - 1);
        let before = messages_upto(instructions, items, n - 1);
        lemma_step(before, items, n - 1);
        if let Some(call) = tool_call_of(items[n - 1]) {
            lemma_tool_call_message(before, call, reasoning_at(items, n - 1));
        }
    }
}

/// Every message has a role and content, and a tool call message holds at least
/// one call and answers none.
pub proof fn law_messages_have_role_and_content(instructions: Seq<char>, items: Seq<ResponseItem>)
    ensures
        forall|i: int|
            0 <= i < request_messages(instructions, items).len() ==> {
                let message = #[trigger] request_messages(instructions, items)[i];
                &&& is_message(message)
                &&& is_tool_call_message(message) ==> entry(message, "tool_calls"@)->Array_0.len()
                    > 0 && !has_entry(message, "tool_call_id"@)
            },
{
    lemma_messages_have_role_and_content(instructions, items, items.len() as int);
}

/// The first items alone: see `law_reasoning_is_of_the_assistant`.
proof fn lemma_reasoning_is_of_the_assistant(
    instructions: Seq<char>,
    items: Seq<ResponseItem>,
    n: int,
)
    ensures
        forall|i: int|
            0 <= i < messages_upto(instructions, items, n).len() ==> {
                let message = #[trigger] messages_upto(instructions, items, n)[i];
                has_entry(message, "reasoning"@) ==> has_entry(message, "role"@) && entry(
                    message,
                    "role"@,
                ) == Json::String("assistant"@)
            },
    decreases n,
{
    lemma_keys_differ();
    if n > 0 {
        lemma_reasoning_is_of_the_assistant(instructions, items, n - 1);
        let before = messages_upto(instructions, items, n - 1);
        lemma_step(before, items, n - 1);
        if let Some(call) = tool_call_of(items[n - 1]) {
            lemma_tool_call_message(before, call, reasoning_at(items, n - 1));
        }
    }
}

/// Only a message of the assistant carries reasoning.
pub proof fn law_reasoning_is_of_the_assistant(instructions: Seq<char>, items: Seq<ResponseItem>)
    ensures
        forall|i: int|
            0 <= i < request_messages(instructions, items).len() ==> {
                let message = #[trigger] request_messages(instructions, items)[i];
                has_entry(message, "reasoning"@) ==> has_entry(message, "role"@) && entry(
                    message,
                    "role"@,
                ) == Json::String("assistant"@)
            },
{
    lemma_reasoning_is_of_the_assistant(instructions, items, items.len() as int);
}

/// The first items alone: see `law_at_most_one_message_per_item`.
proof fn lemma_at_most_one_message_per_item(
    instructions: Seq<char>,
    items: Seq<ResponseItem>,
    n: int,
)
    requires
        0 <= n,
    ensures
        messages_upto(instructions, items, n).len() <= n + 1,
    decreases n,
{
    if n > 0 {
        lemma_at_most_one_message_per_item(instructions, items, n - 1);
        let before = messages_upto(instructions, items, n - 1);
        lemma_step(before, items, n - 1);
        if let Some(call) = tool_call_of(items[n - 1]) {
            lemma_tool_call_message(before, call, reasoning_at(items, n - 1));
        }
    }
}

/// A request has at most one message more than the history has items.
pub proof fn law_at_most_one_message_per_item(instructions: Seq<char>, items: Seq<ResponseItem>)
    ensures
        request_messages(instructions, items).len() <= items.len() + 1,
{
    lemma_at_most_one_message_per_item(instructions, items, items.len() as int);
}

/// The tool calls of a request, in the order of its messages.
pub open spec fn calls_in(messages: Seq<Json>) -> Seq<Json>
    decreases messages.len(),
{
    if messages.len() == 0 {
        Seq::empty()
    } else if is_tool_call_message(messages.last()) {
        calls_in(messages.drop_last()) + entry(messages.last(), "tool_calls"@)->Array_0
    } else {
        calls_in(messages.drop_last())
    }
}

/// The tool calls of the first `n` items of a history, in their order.
pub open spec fn calls_of(items: Seq<ResponseItem>, n: int) -> Seq<Json>
    decreases n,
{
    if n <= 0 {
        Seq::empty()
    } else {
        match tool_call_of(items[n - 1]) {
            Some(call) => calls_of(items, n - 1).push(call),
            None => calls_of(items, n - 1),
        }
    }
}

/// The first items alone: see `law_tool_calls_keep_their_order`.
proof fn lemma_tool_calls_keep_their_order(
    instructions: Seq<char>,
    items: Seq<ResponseItem>,
    n: int,
)
    ensures
        calls_in(messages_upto(instructions, items, n)) == calls_of(items, n),
    decreases n,
{
    lemma_keys_differ();
    let after = messages_upto(instructions, items, n);
    if n > 0 {
        lemma_tool_calls_keep_their_order(instructions, items, n - 1);
        let before = messages_upto(instructions, items, n - 1);
        lemma_step(before, items, n - 1);
        match tool_call_of(items[n - 1]) {
            Some(call) => {
                lemma_tool_call_message(before, call, reasoning_at(items, n - 1));
                if before.len() > 0 && is_tool_call_message(before.last()) {
                    assert(after.drop_last() == before.drop_last());
                    assert(entry(after.last(), "tool_calls"@)->Array_0 == entry(
                        before.last(),
                        "tool_calls"@,
                    )->Array_0.push(call));
                } else {
                    assert(after.drop_last() == before);
                    assert(entry(after.last(), "tool_calls"@)->Array_0 == seq![call]);
                }
                assert(calls_in(after) == calls_in(before).push(call));
            },
            None => {
                if after != before {
                    assert(after.drop_last() == before);
                }
            },
        }
    } else {
        reveal_with_fuel(calls_in, 2);
        assert(after.drop_last() == Seq::<Json>::empty());
    }
}

/// Every tool call of the history is sent exactly once, and in its order.
pub proof fn law_tool_calls_keep_their_order(instructions: Seq<char>, items: Seq<ResponseItem>)
    ensures
        calls_in(request_messages(instructions, items)) == calls_of(items, items.len() as int),
{
    lemma_tool_calls_keep_their_order(instructions, items, items.len() as int);
}

/// The messages of a request that answer a tool call, in their order.
pub open spec fn answers_in(messages: Seq<Json>) -> Seq<Json>
    decreases messages.len(),
{
    if messages.len() == 0 {
        Seq::empty()
    } else if has_entry(messages.last(), "tool_call_id"@) {
        answers_in(messages.drop_last()).push(messages.last())
    } else {
        answers_in(messages.drop_last())
    }
}

/// The outputs of tools among the first `n` items of a history, as they are
/// sent.
pub open spec fn answers_of(items: Seq<ResponseItem>, n: int) -> Seq<Json>
    decreases n,
{
    if n <= 0 {
        Seq::empty()
    } else {
        match items[n - 1] {
            ResponseItem::FunctionCallOutput { call_id, output } => answers_of(items, n - 1).push(
                tool_message(call_id@, output),
            ),
            ResponseItem::CustomToolCallOutput { call_id, output } => answers_of(items, n - 1).push(
                tool_message(call_id@, output),
            ),
            _ => answers_of(items, n - 1),
        }
    }
}

/// The first items alone: see `law_outputs_keep_their_order`.
proof fn lemma_outputs_keep_their_order(
    instructions: Seq<char>,
    items: Seq<ResponseItem>,
    n: int,
)
    ensures
        answers_in(messages_upto(instructions, items, n)) == answers_of(items, n),
    decreases n,
{
    lemma_keys_differ();
    let after = messages_upto(instructions, items, n);
    if n > 0 {
        lemma_outputs_keep_their_order(instructions, items, n - 1);
        lemma_messages_have_role_and_content(instructions, items, n - 1);
        lemma_messages_have_role_and_content(instructions, items, n);
        let before = messages_upto(instructions, items, n - 1);
        lemma_step(before, items, n - 1);
        match tool_call_of(items[n - 1]) {
            Some(call) => {
                lemma_tool_call_message(before, call, reasoning_at(items, n - 1));
                if before.len() > 0 && is_tool_call_message(before.last()) {
                    assert(before[before.len() - 1] == before.last());
                    assert(after.drop_last() == before.drop_last());
                } else {
                    assert(after.drop_last() == before);
                }
                assert(after[after.len() - 1] == after.last());
            },
            None => {
                if after != before {
                    assert(after.drop_last() == before);
                }
            },
        }
    } else {
        reveal_with_fuel(answers_in, 2);
        assert(after.drop_last() == Seq::<Json>::empty());
    }
}

/// Every output of a tool is sent exactly once, in a message of its own, and in
/// its order.
pub proof fn law_outputs_keep_their_order(instructions: Seq<char>, items: Seq<ResponseItem>)
    ensures
        answers_in(request_messages(instructions, items)) == answers_of(items, items.len() as int),
{
    lemma_outputs_keep_their_order(instructions, items, items.len() as int);
}

/// What an item adds leaves the messages before it as they are, except for a
/// tool call message at the end.
pub(crate) proof fn lemma_earlier_messages_stay(
    instructions: Seq<char>,
    items: Seq<ResponseItem>,
    m: int,
    n: int,
)
    requires
        m <= n,
    ensures
        messages_upto(instructions, items, m).len() <= messages_upto(instructions, items, n).len(),
        forall|j: int|
            0 <= j < messages_upto(instructions, items, m).len() && (j < messages_upto(
                instructions,
                items,
                m,
            ).len() - 1 || !is_tool_call_message(messages_upto(instructions, items, m)[j]))
                ==> messages_upto(instructions, items, n)[j] == #[trigger] messages_upto(
                instructions,
                items,
                m,
            )[j],
    decreases n - m,
{
    if m < n && n > 0 {
        lemma_earlier_messages_stay(instructions, items, m, n - 1);
        let before = messages_upto(instructions, items, n - 1);
        lemma_step(before, items, n - 1);
        if let Some(call) = tool_call_of(items[n - 1]) {
            lemma_tool_call_message(before, call, reasoning_at(items, n - 1));
        }
    }
}

/// An output right behind its tool call is sent right behind the message that
/// holds the call.
pub proof fn law_output_follows_call(instructions: Seq<char>, items: Seq<ResponseItem>, i: int)
    requires
        0 <= i,
        i + 1 < items.len(),
        tool_call_of(items[i]) is Some,
        items[i + 1] is FunctionCallOutput || items[i + 1] is CustomToolCallOutput,
    ensures
        ({
            let messages = messages_upto(instructions, items, i + 2);
            let holder = messages[messages.len() - 2];
            &&& 2 <= messages.len() <= request_messages(instructions, items).len()
            &&& messages == request_messages(instructions, items).take(messages.len() as int)
            &&& is_tool_call_message(holder)
            &&& entry(holder, "tool_calls"@)->Array_0.len() > 0
            &&& entry(holder, "tool_calls"@)->Array_0.last() == tool_call_of(items[i])->0
            &&& match items[i + 1] {
                ResponseItem::FunctionCallOutput { call_id, output } => messages.last()
                    == tool_message(call_id@, output),
                ResponseItem::CustomToolCallOutput { call_id, output } => messages.last()
                    == tool_message(call_id@, output),
                _ => false,
            }
        }),
{
    lemma_keys_differ();
    let before = messages_upto(instructions, items, i);
    let middle = messages_upto(instructions, items, i + 1);
    let after = messages_upto(instructions, items, i + 2);
    lemma_step(before, items, i);
    lemma_tool_call_message(before, tool_call_of(items[i])->0, reasoning_at(items, i));
    assert(middle == with_item(before, items, i));
    assert(after == with_item(middle, items, i + 1));
    assert(after[after.len() - 2] == middle.last());
    lemma_earlier_messages_stay(instructions, items, i + 2, items.len() as int);
    assert(after =~= request_messages(instructions, items).take(after.len() as int));
}

/// Items that have no Chat Completions equivalent.
pub open spec fn is_skipped(item: ResponseItem) -> bool {
    !(item is Message || item is FunctionCallOutput || item is CustomToolCallOutput
        || item is FunctionCall || item is LocalShellCall || item is CustomToolCall)
}

/// An item without a Chat Completions equivalent adds no message.
pub proof fn law_other_items_are_skipped(instructions: Seq<char>, items: Seq<ResponseItem>, i: int)
    requires
        0 <= i < items.len(),
        is_skipped(items[i]),
    ensures
        messages_upto(instructions, items, i + 1) == messages_upto(instructions, items, i),
{
}

/// The messages of a request that neither hold tool calls nor answer one, in
/// their order.
pub open spec fn plain_messages_in(messages: Seq<Json>) -> Seq<Json>
    decreases messages.len(),
{
    if messages.len() == 0 {
        Seq::empty()
    } else if is_tool_call_message(messages.last()) || has_entry(
        messages.last(),
        "tool_call_id"@,
    ) {
        plain_messages_in(messages.drop_last())
    } else {
        plain_messages_in(messages.drop_last()).push(messages.last())
    }
}

/// The instructions, and the messages among the first `n` items of a history
/// that are no repetitions, as they are sent.
pub open spec fn plain_messages_of(
    instructions: Seq<char>,
    items: Seq<ResponseItem>,
    n: int,
) -> Seq<Json>
    decreases n,
{
    if n <= 0 {
        seq![system_message(instructions)]
    } else {
        match items[n - 1] {
            ResponseItem::Message { role, content } if !repeats_assistant(items, n - 1) =>
                plain_messages_of(instructions, items, n - 1).push(
                chat_message(role@, content@, reasoning_at(items, n - 1)),
            ),
            _ => plain_messages_of(instructions, items, n - 1),
        }
    }
}

/// The first items alone: see `law_messages_keep_their_order`.
proof fn lemma_messages_keep_their_order(
    instructions: Seq<char>,
    items: Seq<ResponseItem>,
    n: int,
)
    ensures
        plain_messages_in(messages_upto(instructions, items, n)) == plain_messages_of(
            instructions,
            items,
            n,
        ),
    decreases n,
{
    lemma_keys_differ();
    let after = messages_upto(instructions, items, n);
    if n > 0 {
        lemma_messages_keep_their_order(instructions, items, n - 1);
        let before = messages_upto(instructions, items, n - 1);
        lemma_step(before, items, n - 1);
        match tool_call_of(items[n - 1]) {
            Some(call) => {
                lemma_tool_call_message(before, call, reasoning_at(items, n - 1));
                if before.len() > 0 && is_tool_call_message(before.last()) {
                    assert(after.drop_last() == before.drop_last());
                } else {
                    assert(after.drop_last() == before);
                }
            },
            None => {
                if after != before {
                    assert(after.drop_last() == before);
                }
            },
        }
    } else {
        reveal_with_fuel(plain_messages_in, 2);
        assert(after.drop_last() == Seq::<Json>::empty());
        assert(plain_messages_in(after) == seq![system_message(instructions)]);
    }
}

/// The instructions, and then every message of the history that is no
/// repetition, are sent exactly once, and in their order.
pub proof fn law_messages_keep_their_order(instructions: Seq<char>, items: Seq<ResponseItem>)
    ensures
        plain_messages_in(request_messages(instructions, items)) == plain_messages_of(
            instructions,
            items,
            items.len() as int,
        ),
{
    lemma_messages_keep_their_order(instructions, items, items.len() as int);
}

/// The contents of the assistant messages of a request that are no tool call
/// messages, in their order.
pub open spec fn assistant_contents(messages: Seq<Json>) -> Seq<Json>
    decreases messages.len(),
{
    if messages.len() == 0 {
        Seq::empty()
    } else if has_entry(messages.last(), "role"@) && entry(messages.last(), "role"@)
        == Json::String("assistant"@) && !is_tool_call_message(messages.last()) {
        assistant_contents(messages.drop_last()).push(entry(messages.last(), "content"@))
    } else {
        assistant_contents(messages.drop_last())
    }
}

/// The first items alone: see `law_assistant_is_not_repeated`.
proof fn lemma_assistant_is_not_repeated(
    instructions: Seq<char>,
    items: Seq<ResponseItem>,
    n: int,
)
    requires
        n <= items.len(),
    ensures
        ({
            let contents = assistant_contents(messages_upto(instructions, items, n));
            &&& contents.len() == 0 <==> n <= 0 || last_assistant_text(items.take(n)) is None
            &&& contents.len() > 0 ==> contents.last() == Json::String(
                last_assistant_text(items.take(n))->0,
            )
            &&& forall|i: int, j: int|
                0 <= i && j == i + 1 && j < contents.len() ==> #[trigger] contents[i]
                    != #[trigger] contents[j]
        }),
    decreases n,
{
    lemma_keys_differ();
    let after = messages_upto(instructions, items, n);
    if n > 0 {
        lemma_assistant_is_not_repeated(instructions, items, n - 1);
        let before = messages_upto(instructions, items, n - 1);
        assert(items.take(n).drop_last() == items.take(n - 1));
        lemma_step(before, items, n - 1);
        match tool_call_of(items[n - 1]) {
            Some(call) => {
                lemma_tool_call_message(before, call, reasoning_at(items, n - 1));
                if before.len() > 0 && is_tool_call_message(before.last()) {
                    assert(after.drop_last() == before.drop_last());
                } else {
                    assert(after.drop_last() == before);
                }
                assert(assistant_contents(after) == assistant_contents(before));
            },
            None => {
                if after != before {
                    assert(after.drop_last() == before);
                }
            },
        }
    } else {
        reveal_with_fuel(assistant_contents, 2);
        assert(after.drop_last() == Seq::<Json>::empty());
    }
}

/// An assistant message that repeats the one before it is not sent again: no
/// two neighbours among the assistant messages of a request have the same
/// content.
pub proof fn law_assistant_is_not_repeated(instructions: Seq<char>, items: Seq<ResponseItem>)
    ensures
        ({
            let contents = assistant_contents(request_messages(instructions, items));
            forall|i: int, j: int|
                0 <= i && j == i + 1 && j < contents.len() ==> #[trigger] contents[i]
                    != #[trigger] contents[j]
        }),
{
    lemma_assistant_is_not_repeated(instructions, items, items.len() as int);
}

/// A header of a request: it is there if and only if a value for it was given
/// that a header can have, and then it has that value alone.
pub open spec fn is_field(
    fields: HeaderFields,
    name: Seq<char>,
    value: Option<Seq<char>>,
) -> bool {
    match value {
        Some(text) if is_header_value(text) => fields.contains_key(name) && fields[name]
            == seq![encode_utf8(text)],
        _ => !fields.contains_key(name),
    }
}

/// The headers of a request are the session, the thread and the subagent, each
/// independent of the others, and no more.
pub proof fn law_headers_are_independent(settings: RequestSettings)
    ensures
        is_field(request_fields(settings), "session-id"@, settings.session_id),
        is_field(request_fields(settings), "thread-id"@, settings.thread_id),
        is_field(request_fields(settings), "x-openai-subagent"@, settings.subagent),
        forall|name: Seq<char>| #[trigger]
            request_fields(settings).contains_key(name) ==> name == "session-id"@ || name
                == "thread-id"@ || name == "x-openai-subagent"@,
{
    reveal_strlit("session-id");
    reveal_strlit("thread-id");
    reveal_strlit("x-openai-subagent");
    assert("session-id"@.len() == 10);
    assert("thread-id"@.len() == 9);
    assert("x-openai-subagent"@.len() == 17);
}

} // verus!
