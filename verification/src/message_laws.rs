//! What is sent for each item of a history, entry by entry.
use crate::json::Json;
use crate::models::{
    ContentItem, FunctionCallOutputBody, FunctionCallOutputContentItem, FunctionCallOutputPayload,
    ResponseItem,
};
#[allow(unused_imports)]
use crate::history_laws::{from_assistant, law_last_assistant_text_is_the_last};
#[allow(unused_imports)]
use crate::json::json_view;
#[allow(unused_imports)]
use crate::laws::{
    entry, has_entry, lemma_earlier_messages_stay, lemma_keys_differ, lemma_step,
    lemma_tool_call_message,
};
#[allow(unused_imports)]
use crate::messages::{
    content_text, last_assistant_text, messages_upto, output_content, repeats_assistant,
    request_messages, tool_call_of, with_item,
};
#[allow(unused_imports)]
use crate::reasoning::reasoning_at;
#[allow(unused_imports)]
use crate::tool_calls::{is_tool_call_message, with_tool_call};
use vstd::prelude::*;

verus! {

/// A document that is an object with the given keys and no others.
pub open spec fn has_keys(document: Json, keys: Set<Seq<char>>) -> bool {
    document is Object && document->Object_0.dom() =~= keys
}

/// A document that is a part of text.
pub open spec fn is_text_part(part: Json, text: Seq<char>) -> bool {
    &&& has_keys(part, set!["type"@, "text"@])
    &&& entry(part, "type"@) == Json::String("text"@)
    &&& entry(part, "text"@) == Json::String(text)
}

/// A document that is a part with an image.
pub open spec fn is_image_part(part: Json, url: Seq<char>) -> bool {
    &&& has_keys(part, set!["type"@, "image_url"@])
    &&& entry(part, "type"@) == Json::String("image_url"@)
    &&& has_keys(entry(part, "image_url"@), set!["url"@])
    &&& entry(entry(part, "image_url"@), "url"@) == Json::String(url)
}

/// A document that shows a part of the content of a message.
pub open spec fn shows_content(part: Json, item: ContentItem) -> bool {
    &&& item is InputText ==> is_text_part(part, item->InputText_text@)
    &&& item is OutputText ==> is_text_part(part, item->OutputText_text@)
    &&& item is InputImage ==> is_image_part(part, item->InputImage_image_url@)
}

/// A document that shows a part of the output of a tool. Encrypted parts are not
/// disclosed.
pub open spec fn shows_output_part(part: Json, item: FunctionCallOutputContentItem) -> bool {
    &&& item is InputText ==> is_text_part(part, item->InputText_text@)
    &&& item is InputImage ==> is_image_part(part, item->InputImage_image_url@)
    &&& item is EncryptedContent ==> is_text_part(part, "[encrypted]"@)
}

/// A document that shows the output of a tool: a text as it is, and a list part
/// by part.
pub open spec fn shows_output(content: Json, output: FunctionCallOutputPayload) -> bool {
    match output.body {
        FunctionCallOutputBody::Text(text) => content == Json::String(text@),
        FunctionCallOutputBody::ContentItems(items) => {
            &&& content is Array
            &&& content->Array_0.len() == items@.len()
            &&& forall|j: int|
                0 <= j < items@.len() ==> shows_output_part(
                    #[trigger] content->Array_0[j],
                    items@[j],
                )
        },
    }
}

/// The names of the entries of parts and calls differ.
pub(crate) proof fn lemma_part_keys_differ()
    ensures
        "type"@ != "text"@,
        "type"@ != "image_url"@,
        "id"@ != "type"@,
        "id"@ != "function"@,
        "id"@ != "action"@,
        "id"@ != "custom"@,
        "type"@ != "function"@,
        "type"@ != "action"@,
        "type"@ != "custom"@,
        "name"@ != "arguments"@,
        "name"@ != "input"@,
{
    reveal_strlit("type");
    reveal_strlit("text");
    reveal_strlit("image_url");
    reveal_strlit("id");
    reveal_strlit("function");
    reveal_strlit("action");
    reveal_strlit("custom");
    reveal_strlit("name");
    reveal_strlit("arguments");
    reveal_strlit("input");
    assert("type"@.len() == 4);
    assert("text"@.len() == 4);
    assert("type"@[1] == 'y');
    assert("text"@[1] == 'e');
    assert("image_url"@.len() == 9);
    assert("id"@.len() == 2);
    assert("function"@.len() == 8);
    assert("action"@.len() == 6);
    assert("custom"@.len() == 6);
    assert("name"@.len() == 4);
    assert("arguments"@.len() == 9);
    assert("input"@.len() == 5);
}

/// The history is taken up item by item, and the request is what stands for all
/// of it. What was taken up stays, but for a last message that holds tool calls.
pub proof fn law_history_is_taken_up_in_order(
    instructions: Seq<char>,
    items: Seq<ResponseItem>,
    n: int,
)
    requires
        0 <= n <= items.len(),
    ensures
        request_messages(instructions, items) == messages_upto(
            instructions,
            items,
            items.len() as int,
        ),
        messages_upto(instructions, items, 0).len() == 1,
        messages_upto(instructions, items, n).len() <= request_messages(instructions, items).len(),
        forall|j: int|
            0 <= j < messages_upto(instructions, items, n).len() && !(j == messages_upto(
                instructions,
                items,
                n,
            ).len() - 1 && has_entry(messages_upto(instructions, items, n)[j], "tool_calls"@))
                ==> request_messages(instructions, items)[j] == #[trigger] messages_upto(
                instructions,
                items,
                n,
            )[j],
{
    lemma_earlier_messages_stay(instructions, items, n, items.len() as int);
}

/// The first message is the system's, with the instructions as its content.
pub proof fn law_system_message_holds_the_instructions(
    instructions: Seq<char>,
    items: Seq<ResponseItem>,
)
    ensures
        ({
            let message = request_messages(instructions, items)[0];
            &&& request_messages(instructions, items).len() > 0
            &&& has_keys(message, set!["role"@, "content"@])
            &&& entry(message, "role"@) == Json::String("system"@)
            &&& entry(message, "content"@) == Json::String(instructions)
        }),
{
    lemma_keys_differ();
    lemma_earlier_messages_stay(instructions, items, 0, items.len() as int);
    let first = messages_upto(instructions, items, 0);
    assert(!is_tool_call_message(first[0]));
    assert(request_messages(instructions, items)[0] == first[0]);
    assert(has_keys(first[0], set!["role"@, "content"@]));
}

/// An item gives a message of its own: what stands for the items before it is
/// followed by that message, and the request holds it in this place.
pub open spec fn gives_a_message(
    instructions: Seq<char>,
    items: Seq<ResponseItem>,
    n: int,
    message: Json,
) -> bool {
    let before = messages_upto(instructions, items, n);
    &&& messages_upto(instructions, items, n + 1) == before.push(message)
    &&& before.len() < request_messages(instructions, items).len()
    &&& request_messages(instructions, items)[before.len() as int] == message
}

/// An item that adds a message which is no tool call message gives a message of
/// its own.
proof fn lemma_gives_a_message(instructions: Seq<char>, items: Seq<ResponseItem>, n: int)
    requires
        0 <= n < items.len(),
        ({
            let after = with_item(messages_upto(instructions, items, n), items, n);
            &&& after.len() > 0
            &&& !is_tool_call_message(after.last())
            &&& after == messages_upto(instructions, items, n).push(after.last())
        }),
    ensures
        gives_a_message(
            instructions,
            items,
            n,
            with_item(messages_upto(instructions, items, n), items, n).last(),
        ),
{
    let before = messages_upto(instructions, items, n);
    let after = messages_upto(instructions, items, n + 1);
    assert(after == with_item(before, items, n));
    lemma_earlier_messages_stay(instructions, items, n + 1, items.len() as int);
    let p = before.len() as int;
    assert(after[p] == after.last());
    assert(request_messages(instructions, items)[p] == after[p]);
}

/// A message that is not from the assistant and holds an image is sent with its
/// content part by part, wherever the image stands: no part is lost.
pub proof fn law_message_with_an_image_is_sent_in_parts(
    instructions: Seq<char>,
    items: Seq<ResponseItem>,
    n: int,
    i: int,
)
    requires
        0 <= n < items.len(),
        items[n] is Message,
        items[n]->Message_role@ != "assistant"@,
        0 <= i < items[n]->Message_content@.len(),
        items[n]->Message_content@[i] is InputImage,
    ensures
        ({
            let content = items[n]->Message_content@;
            let p = messages_upto(instructions, items, n).len() as int;
            let message = request_messages(instructions, items)[p];
            let sent = entry(message, "content"@);
            &&& gives_a_message(instructions, items, n, message)
            &&& has_keys(message, set!["role"@, "content"@])
            &&& entry(message, "role"@) == Json::String(items[n]->Message_role@)
            &&& sent is Array
            &&& sent->Array_0.len() == content.len()
            &&& forall|j: int|
                0 <= j < content.len() ==> shows_content(#[trigger] sent->Array_0[j], content[j])
        }),
{
    lemma_keys_differ();
    lemma_part_keys_differ();
    let before = messages_upto(instructions, items, n);
    let after = with_item(before, items, n);
    lemma_step(before, items, n);
    assert(!repeats_assistant(items, n));
    lemma_gives_a_message(instructions, items, n);
    assert(has_keys(after.last(), set!["role"@, "content"@]));
    let content = items[n]->Message_content@;
    let sent = entry(after.last(), "content"@);
    assert(content[i] is InputImage);
    assert(sent is Array);
    assert forall|j: int| 0 <= j < content.len() implies shows_content(
        #[trigger] sent->Array_0[j],
        content[j],
    ) by {}
}

/// A message that is not from the assistant and holds no image is sent with its
/// text, however often it was said before.
pub proof fn law_message_without_an_image_is_sent_as_text(
    instructions: Seq<char>,
    items: Seq<ResponseItem>,
    n: int,
)
    requires
        0 <= n < items.len(),
        items[n] is Message,
        items[n]->Message_role@ != "assistant"@,
        forall|i: int|
            0 <= i < items[n]->Message_content@.len() ==> !(
            #[trigger] items[n]->Message_content@[i] is InputImage),
    ensures
        ({
            let p = messages_upto(instructions, items, n).len() as int;
            let message = request_messages(instructions, items)[p];
            &&& gives_a_message(instructions, items, n, message)
            &&& has_keys(message, set!["role"@, "content"@])
            &&& entry(message, "role"@) == Json::String(items[n]->Message_role@)
            &&& entry(message, "content"@) == Json::String(
                content_text(items[n]->Message_content@),
            )
        }),
{
    lemma_keys_differ();
    let before = messages_upto(instructions, items, n);
    let after = with_item(before, items, n);
    lemma_step(before, items, n);
    assert(!repeats_assistant(items, n));
    lemma_gives_a_message(instructions, items, n);
    assert(has_keys(after.last(), set!["role"@, "content"@]));
}

/// An assistant message at `n` with another text than the assistant message
/// before it, if there is one.
pub open spec fn says_something_new(items: Seq<ResponseItem>, n: int) -> bool {
    &&& from_assistant(items[n])
    &&& forall|j: int|
        0 <= j < n && from_assistant(#[trigger] items[j]) && (forall|k: int|
            j < k < n ==> !from_assistant(#[trigger] items[k])) ==> content_text(
            items[j]->Message_content@,
        ) != content_text(items[n]->Message_content@)
}

/// An assistant message is suppressed as a repetition if and only if it says
/// nothing new.
pub(crate) proof fn lemma_repetition(items: Seq<ResponseItem>, n: int)
    requires
        0 <= n < items.len(),
        from_assistant(items[n]),
    ensures
        repeats_assistant(items, n) <==> !says_something_new(items, n),
{
    let first = items.take(n);
    law_last_assistant_text_is_the_last(first);
    assert forall|j: int| 0 <= j < n implies #[trigger] items[j] == first[j] by {}
    match last_assistant_text(first) {
        Some(text) => {
            let i = choose|i: int|
                {
                    &&& 0 <= i < first.len()
                    &&& from_assistant(#[trigger] first[i])
                    &&& text == content_text(first[i]->Message_content@)
                    &&& forall|j: int| i < j < first.len() ==> !from_assistant(#[trigger] first[j])
                };
            assert(items[i] == first[i]);
            assert(forall|k: int| i < k < n ==> !from_assistant(#[trigger] items[k]));
            assert forall|j: int|
                0 <= j < n && from_assistant(#[trigger] items[j]) && (forall|k: int|
                    j < k < n ==> !from_assistant(#[trigger] items[k])) implies j == i by {
                if j < i {
                    assert(!from_assistant(items[i]));
                }
                if i < j {
                    assert(!from_assistant(items[j]));
                }
            }
        },
        None => {},
    }
}

/// An assistant message that says something new is sent with its text, whatever
/// images it holds, and perhaps with reasoning.
pub proof fn law_assistant_message_is_sent_as_text(
    instructions: Seq<char>,
    items: Seq<ResponseItem>,
    n: int,
)
    requires
        0 <= n < items.len(),
        says_something_new(items, n),
    ensures
        ({
            let p = messages_upto(instructions, items, n).len() as int;
            let message = request_messages(instructions, items)[p];
            &&& gives_a_message(instructions, items, n, message)
            &&& has_keys(message, set!["role"@, "content"@]) || has_keys(
                message,
                set!["role"@, "content"@, "reasoning"@],
            )
            &&& entry(message, "role"@) == Json::String("assistant"@)
            &&& entry(message, "content"@) == Json::String(
                content_text(items[n]->Message_content@),
            )
        }),
{
    lemma_keys_differ();
    lemma_repetition(items, n);
    let before = messages_upto(instructions, items, n);
    let after = with_item(before, items, n);
    lemma_step(before, items, n);
    lemma_gives_a_message(instructions, items, n);
    match reasoning_at(items, n) {
        Some(_) => {
            assert(has_keys(after.last(), set!["role"@, "content"@, "reasoning"@]));
        },
        None => {
            assert(has_keys(after.last(), set!["role"@, "content"@]));
        },
    }
}

/// An assistant message with the text of the assistant message before it adds
/// nothing to the request.
pub proof fn law_repetition_adds_nothing(
    instructions: Seq<char>,
    items: Seq<ResponseItem>,
    j: int,
    n: int,
)
    requires
        0 <= j < n < items.len(),
        from_assistant(items[j]),
        from_assistant(items[n]),
        forall|k: int| j < k < n ==> !from_assistant(#[trigger] items[k]),
        content_text(items[j]->Message_content@) == content_text(items[n]->Message_content@),
    ensures
        messages_upto(instructions, items, n + 1) == messages_upto(instructions, items, n),
{
    lemma_repetition(items, n);
    assert(from_assistant(items[j]));
    assert(!says_something_new(items, n));
}

/// The output of a tool is sent under the role of the tool, with the id of its
/// call and all of what the tool returned.
pub proof fn law_output_is_sent(instructions: Seq<char>, items: Seq<ResponseItem>, n: int)
    requires
        0 <= n < items.len(),
        items[n] is FunctionCallOutput || items[n] is CustomToolCallOutput,
    ensures
        ({
            let p = messages_upto(instructions, items, n).len() as int;
            let message = request_messages(instructions, items)[p];
            &&& gives_a_message(instructions, items, n, message)
            &&& has_keys(message, set!["role"@, "tool_call_id"@, "content"@])
            &&& entry(message, "role"@) == Json::String("tool"@)
            &&& items[n] is FunctionCallOutput ==> {
                &&& entry(message, "tool_call_id"@) == Json::String(
                    items[n]->FunctionCallOutput_call_id@,
                )
                &&& shows_output(entry(message, "content"@), items[n]->FunctionCallOutput_output)
            }
            &&& items[n] is CustomToolCallOutput ==> {
                &&& entry(message, "tool_call_id"@) == Json::String(
                    items[n]->CustomToolCallOutput_call_id@,
                )
                &&& shows_output(entry(message, "content"@), items[n]->CustomToolCallOutput_output)
            }
        }),
{
    lemma_keys_differ();
    let before = messages_upto(instructions, items, n);
    let after = with_item(before, items, n);
    lemma_step(before, items, n);
    lemma_gives_a_message(instructions, items, n);
    assert(has_keys(after.last(), set!["role"@, "tool_call_id"@, "content"@]));
    if items[n] is FunctionCallOutput {
        law_output_is_shown(items[n]->FunctionCallOutput_output);
    } else {
        law_output_is_shown(items[n]->CustomToolCallOutput_output);
    }
}

/// The output of a tool is sent as it is where it is text, and part by part
/// where it is a list.
pub proof fn law_output_is_shown(output: FunctionCallOutputPayload)
    ensures
        shows_output(output_content(output), output),
{
    lemma_part_keys_differ();
    if let FunctionCallOutputBody::ContentItems(items) = output.body {
        let sent = output_content(output)->Array_0;
        assert forall|j: int| 0 <= j < items@.len() implies shows_output_part(
            #[trigger] sent[j],
            items@[j],
        ) by {}
    }
}

/// A call of a function that is sent: its id, its kind, its name and its
/// arguments, and no more.
pub open spec fn is_function_call(
    call: Json,
    call_id: Seq<char>,
    name: Seq<char>,
    arguments: Seq<char>,
) -> bool {
    let function = entry(call, "function"@);
    &&& has_keys(call, set!["id"@, "type"@, "function"@])
    &&& entry(call, "id"@) == Json::String(call_id)
    &&& entry(call, "type"@) == Json::String("function"@)
    &&& has_keys(function, set!["name"@, "arguments"@])
    &&& entry(function, "name"@) == Json::String(name)
    &&& entry(function, "arguments"@) == Json::String(arguments)
}

/// A call of the local shell that is sent: its id, its kind and its action, and
/// no more.
pub open spec fn is_shell_call(call: Json, call_id: Seq<char>, action: Json) -> bool {
    &&& has_keys(call, set!["id"@, "type"@, "action"@])
    &&& entry(call, "id"@) == Json::String(call_id)
    &&& entry(call, "type"@) == Json::String("local_shell_call"@)
    &&& entry(call, "action"@) == action
}

/// A call of a custom tool that is sent: its id, its kind, its name and its
/// input, and no more.
pub open spec fn is_custom_call(
    call: Json,
    call_id: Seq<char>,
    name: Seq<char>,
    input: Seq<char>,
) -> bool {
    let custom = entry(call, "custom"@);
    &&& has_keys(call, set!["id"@, "type"@, "custom"@])
    &&& entry(call, "id"@) == Json::String(call_id)
    &&& entry(call, "type"@) == Json::String("custom"@)
    &&& has_keys(custom, set!["name"@, "input"@])
    &&& entry(custom, "name"@) == Json::String(name)
    &&& entry(custom, "input"@) == Json::String(input)
}

/// The items that are calls.
pub open spec fn is_call(item: ResponseItem) -> bool {
    item is FunctionCall || item is LocalShellCall || item is CustomToolCall
}

/// A document that shows a call of the history. A shell call without an id is
/// sent with the empty one.
pub open spec fn shows_call(call: Json, item: ResponseItem) -> bool {
    &&& item is FunctionCall ==> is_function_call(
        call,
        item->FunctionCall_call_id@,
        item->FunctionCall_name@,
        item->FunctionCall_arguments@,
    )
    &&& item is LocalShellCall && item->LocalShellCall_call_id is Some ==> is_shell_call(
        call,
        item->LocalShellCall_call_id->0@,
        json_view(item->LocalShellCall_action),
    )
    &&& item is LocalShellCall && item->LocalShellCall_call_id is None ==> is_shell_call(
        call,
        Seq::empty(),
        json_view(item->LocalShellCall_action),
    )
    &&& item is CustomToolCall ==> is_custom_call(
        call,
        item->CustomToolCall_call_id@,
        item->CustomToolCall_name@,
        item->CustomToolCall_input@,
    )
}

/// A call is sent with everything that it says, and nothing else is a call.
pub proof fn law_call_is_shown(item: ResponseItem)
    ensures
        tool_call_of(item) is Some <==> is_call(item),
        is_call(item) ==> shows_call(tool_call_of(item)->0, item),
{
    lemma_part_keys_differ();
    if is_call(item) {
        let call = tool_call_of(item)->0;
        if item is FunctionCall {
            assert(has_keys(call, set!["id"@, "type"@, "function"@]));
            assert(has_keys(entry(call, "function"@), set!["name"@, "arguments"@]));
        } else if item is LocalShellCall {
            assert(has_keys(call, set!["id"@, "type"@, "action"@]));
        } else {
            assert(has_keys(call, set!["id"@, "type"@, "custom"@]));
            assert(has_keys(entry(call, "custom"@), set!["name"@, "input"@]));
        }
    }
}

/// A message of the assistant with null content and a list of calls.
pub open spec fn holds_calls(message: Json) -> bool {
    &&& has_entry(message, "role"@)
    &&& entry(message, "role"@) == Json::String("assistant"@)
    &&& has_entry(message, "content"@)
    &&& entry(message, "content"@) == Json::Null
    &&& has_entry(message, "tool_calls"@)
    &&& entry(message, "tool_calls"@) is Array
}

/// A call that follows a message with calls joins it: it comes behind the calls
/// there, every other message and entry stays, and reasoning that comes with it
/// starts a new line behind a reasoning text that is there, or is the reasoning
/// where there is no such text.
pub proof fn law_call_joins_a_message_with_calls(
    messages: Seq<Json>,
    call: Json,
    reasoning: Option<Seq<char>>,
)
    requires
        messages.len() > 0,
        holds_calls(messages.last()),
    ensures
        ({
            let after = with_tool_call(messages, call, reasoning);
            let old_keys = messages.last()->Object_0.dom();
            &&& after.len() == messages.len()
            &&& after.drop_last() == messages.drop_last()
            &&& holds_calls(after.last())
            &&& entry(after.last(), "tool_calls"@)->Array_0 == entry(
                messages.last(),
                "tool_calls"@,
            )->Array_0.push(call)
            &&& forall|key: Seq<char>| #[trigger]
                has_entry(messages.last(), key) && key != "tool_calls"@ && key != "reasoning"@
                    ==> entry(after.last(), key) == entry(messages.last(), key)
            &&& reasoning is None ==> has_keys(after.last(), old_keys) && (has_entry(
                messages.last(),
                "reasoning"@,
            ) ==> entry(after.last(), "reasoning"@) == entry(messages.last(), "reasoning"@))
            &&& reasoning is Some ==> has_keys(after.last(), old_keys.insert("reasoning"@))
            &&& reasoning is Some && has_entry(messages.last(), "reasoning"@) ==> match entry(
                messages.last(),
                "reasoning"@,
            ) {
                Json::String(old_text) => entry(after.last(), "reasoning"@) == Json::String(
                    if old_text.len() == 0 {
                        reasoning->0
                    } else {
                        old_text + seq!['\n'] + reasoning->0
                    },
                ),
                _ => entry(after.last(), "reasoning"@) == Json::String(reasoning->0),
            }
            &&& reasoning is Some && !has_entry(messages.last(), "reasoning"@) ==> entry(
                after.last(),
                "reasoning"@,
            ) == Json::String(reasoning->0)
        }),
{
    lemma_keys_differ();
    let after = with_tool_call(messages, call, reasoning);
    assert(after.drop_last() =~= messages.drop_last());
    if has_entry(messages.last(), "reasoning"@) {
        if let Json::String(old_text) = entry(messages.last(), "reasoning"@) {
            assert(old_text + seq!['\n'] =~= old_text.push('\n'));
        }
    }
}

/// A call that follows no message with calls opens one: a message of the
/// assistant with null content, with this call alone, with the reasoning that
/// comes with it, and with no more.
pub proof fn law_call_opens_a_message(
    messages: Seq<Json>,
    call: Json,
    reasoning: Option<Seq<char>>,
)
    requires
        messages.len() == 0 || !holds_calls(messages.last()),
    ensures
        ({
            let after = with_tool_call(messages, call, reasoning);
            &&& after.len() == messages.len() + 1
            &&& after.drop_last() == messages
            &&& holds_calls(after.last())
            &&& entry(after.last(), "tool_calls"@)->Array_0 == seq![call]
            &&& reasoning is None ==> has_keys(
                after.last(),
                set!["role"@, "content"@, "tool_calls"@],
            )
            &&& reasoning is Some ==> has_keys(
                after.last(),
                set!["role"@, "content"@, "tool_calls"@, "reasoning"@],
            ) && entry(after.last(), "reasoning"@) == Json::String(reasoning->0)
        }),
{
    lemma_keys_differ();
    let after = with_tool_call(messages, call, reasoning);
    assert(after.drop_last() =~= messages);
    match reasoning {
        Some(_) => {
            assert(has_keys(
                after.last(),
                set!["role"@, "content"@, "tool_calls"@, "reasoning"@],
            ));
        },
        None => {
            assert(has_keys(after.last(), set!["role"@, "content"@, "tool_calls"@]));
        },
    }
}

/// The calls that a message holds stay in their places when more join it.
pub(crate) proof fn lemma_calls_stay(
    instructions: Seq<char>,
    items: Seq<ResponseItem>,
    m: int,
    n: int,
)
    requires
        0 <= m <= n,
        messages_upto(instructions, items, m).len() > 0,
        is_tool_call_message(messages_upto(instructions, items, m).last()),
    ensures
        ({
            let first = messages_upto(instructions, items, m);
            let p = first.len() - 1;
            let message = messages_upto(instructions, items, n)[p];
            &&& p < messages_upto(instructions, items, n).len()
            &&& is_tool_call_message(message)
            &&& entry(first[p], "tool_calls"@)->Array_0.len() <= entry(
                message,
                "tool_calls"@,
            )->Array_0.len()
            &&& forall|q: int|
                0 <= q < entry(first[p], "tool_calls"@)->Array_0.len() ==> #[trigger] entry(
                    message,
                    "tool_calls"@,
                )->Array_0[q] == entry(first[p], "tool_calls"@)->Array_0[q]
        }),
    decreases n - m,
{
    lemma_keys_differ();
    if m < n {
        lemma_calls_stay(instructions, items, m, n - 1);
        let p = messages_upto(instructions, items, m).len() - 1;
        let before = messages_upto(instructions, items, n - 1);
        let after = messages_upto(instructions, items, n);
        lemma_step(before, items, n - 1);
        if let Some(call) = tool_call_of(items[n - 1]) {
            lemma_tool_call_message(before, call, reasoning_at(items, n - 1));
            if p == before.len() - 1 {
                assert(before[p] == before.last());
                assert(after[p] == after.last());
            } else {
                assert(after[p] == before[p]);
            }
        }
    }
}

/// A call of the history is sent with everything that it says: the message that
/// stands last for the items up to the call holds calls, the call is the last
/// of them, and the request has it in the same place.
pub proof fn law_call_is_sent(instructions: Seq<char>, items: Seq<ResponseItem>, n: int)
    requires
        0 <= n < items.len(),
        is_call(items[n]),
    ensures
        ({
            let after = messages_upto(instructions, items, n + 1);
            let p = after.len() - 1;
            let q = entry(after.last(), "tool_calls"@)->Array_0.len() - 1;
            let message = request_messages(instructions, items)[p];
            &&& 0 <= p < request_messages(instructions, items).len()
            &&& holds_calls(after.last())
            &&& holds_calls(message)
            &&& 0 <= q < entry(message, "tool_calls"@)->Array_0.len()
            &&& shows_call(entry(message, "tool_calls"@)->Array_0[q], items[n])
        }),
{
    lemma_keys_differ();
    law_call_is_shown(items[n]);
    let call = tool_call_of(items[n])->0;
    let before = messages_upto(instructions, items, n);
    let after = messages_upto(instructions, items, n + 1);
    lemma_step(before, items, n);
    lemma_tool_call_message(before, call, reasoning_at(items, n));
    assert(after == with_item(before, items, n));
    lemma_calls_stay(instructions, items, n + 1, items.len() as int);
    assert(entry(after.last(), "tool_calls"@)->Array_0.last() == call);
    assert(after[after.len() - 1] == after.last());
}

/// A call right behind another one, with nothing between them but items that
/// are not sent, joins its message; whatever else the message holds stays.
pub proof fn law_calls_in_a_row_share_a_message(
    instructions: Seq<char>,
    items: Seq<ResponseItem>,
    m: int,
    n: int,
)
    requires
        0 <= m < n < items.len(),
        is_call(items[m]),
        is_call(items[n]),
        forall|k: int|
            m < k < n ==> !is_call(#[trigger] items[k]) && !(items[k] is Message) && !(
            items[k] is FunctionCallOutput) && !(items[k] is CustomToolCallOutput),
    ensures
        ({
            let first = messages_upto(instructions, items, m + 1);
            let second = messages_upto(instructions, items, n + 1);
            &&& second.len() == first.len()
            &&& second.drop_last() == first.drop_last()
            &&& entry(second.last(), "tool_calls"@)->Array_0.len() == entry(
                first.last(),
                "tool_calls"@,
            )->Array_0.len() + 1
        }),
{
    lemma_keys_differ();
    let first = messages_upto(instructions, items, m + 1);
    law_call_is_sent(instructions, items, m);
    lemma_nothing_is_sent(instructions, items, m + 1, n);
    law_call_is_shown(items[n]);
    let call = tool_call_of(items[n])->0;
    lemma_step(first, items, n);
    law_call_joins_a_message_with_calls(first, call, reasoning_at(items, n));
}

/// Items that are not sent leave the messages as they are.
pub(crate) proof fn lemma_nothing_is_sent(
    instructions: Seq<char>,
    items: Seq<ResponseItem>,
    m: int,
    n: int,
)
    requires
        0 <= m <= n,
        forall|k: int|
            m <= k < n ==> !is_call(#[trigger] items[k]) && !(items[k] is Message) && !(
            items[k] is FunctionCallOutput) && !(items[k] is CustomToolCallOutput),
    ensures
        messages_upto(instructions, items, m) == messages_upto(instructions, items, n),
    decreases n - m,
{
    if m < n {
        lemma_nothing_is_sent(instructions, items, m, n - 1);
        assert(!is_call(items[n - 1]));
    }
}

/// A call right behind a message or an output that was sent, or at the start of
/// the history, opens a message of its own.
pub proof fn law_call_after_another_message_stands_alone(
    instructions: Seq<char>,
    items: Seq<ResponseItem>,
    n: int,
)
    requires
        0 <= n < items.len(),
        is_call(items[n]),
        n == 0 || items[n - 1] is FunctionCallOutput || items[n - 1] is CustomToolCallOutput || (
        items[n - 1] is Message && (from_assistant(items[n - 1]) ==> says_something_new(
            items,
            n - 1,
        ))),
    ensures
        ({
            let before = messages_upto(instructions, items, n);
            let after = messages_upto(instructions, items, n + 1);
            &&& after.len() == before.len() + 1
            &&& after.drop_last() == before
            &&& entry(after.last(), "tool_calls"@)->Array_0.len() == 1
        }),
{
    lemma_keys_differ();
    let before = messages_upto(instructions, items, n);
    if n > 0 {
        if from_assistant(items[n - 1]) {
            lemma_repetition(items, n - 1);
        }
        lemma_step(messages_upto(instructions, items, n - 1), items, n - 1);
        assert(before == with_item(messages_upto(instructions, items, n - 1), items, n - 1));
        assert(before.last() == before[before.len() - 1]);
    }
    assert(!holds_calls(before.last()));
    law_call_is_shown(items[n]);
    lemma_step(before, items, n);
    law_call_opens_a_message(before, tool_call_of(items[n])->0, reasoning_at(items, n));
}

} // verus!
