//! What holds of the reasoning that requests carry.
use crate::json::Json;
use crate::models::ResponseItem;
#[allow(unused_imports)]
use crate::laws::{
    entry, has_entry, lemma_earlier_messages_stay, lemma_keys_differ, lemma_step,
    lemma_tool_call_message,
};
#[allow(unused_imports)]
use crate::messages::{
    last_assistant_text, messages_upto, repeats_assistant, request_messages, tool_call_of,
    with_item,
};
#[allow(unused_imports)]
use crate::reasoning::{
    anchor, contribution, in_open_turn, is_message_of, last_role, last_user, reasoning_at,
    reasoning_text,
};
#[allow(unused_imports)]
use crate::tool_calls::{is_tool_call_message, with_tool_call};
use vstd::prelude::*;

verus! {

/// No message carries reasoning.
pub open spec fn free_of_reasoning(messages: Seq<Json>) -> bool {
    forall|i: int| 0 <= i < messages.len() ==> !has_entry(#[trigger] messages[i], "reasoning"@)
}

/// Where no item has reasoning of its own, no message carries any.
pub(crate) proof fn lemma_free_of_reasoning(
    instructions: Seq<char>,
    items: Seq<ResponseItem>,
    n: int,
)
    requires
        forall|k: int| 0 <= k < n ==> #[trigger] reasoning_at(items, k) is None,
    ensures
        free_of_reasoning(messages_upto(instructions, items, n)),
    decreases n,
{
    lemma_keys_differ();
    if n > 0 {
        lemma_free_of_reasoning(instructions, items, n - 1);
        assert(reasoning_at(items, n - 1) is None);
    }
}

/// No reasoning is sent in answer to the user: a history that ends with a
/// message of the user gives a request without any.
pub proof fn law_no_reasoning_when_the_user_is_last(
    instructions: Seq<char>,
    items: Seq<ResponseItem>,
)
    requires
        last_role(items) == Some("user"@),
    ensures
        free_of_reasoning(request_messages(instructions, items)),
{
    lemma_free_of_reasoning(instructions, items, items.len() as int);
}

/// A history whose open turn holds no reasoning, or none that is more than
/// blank, gives a request without any.
pub proof fn law_blank_reasoning_is_not_sent(instructions: Seq<char>, items: Seq<ResponseItem>)
    requires
        forall|i: int| in_open_turn(items, i) ==> reasoning_text(#[trigger] items[i]) is None,
    ensures
        free_of_reasoning(request_messages(instructions, items)),
{
    assert forall|k: int| 0 <= k < items.len() implies #[trigger] reasoning_at(items, k) is None by {
        assert(contribution(items, k - 1, k) is None);
        assert(contribution(items, k + 1, k) is None);
    }
    lemma_free_of_reasoning(instructions, items, items.len() as int);
}

/// The last message of the user is one.
proof fn lemma_last_user(items: Seq<ResponseItem>)
    ensures
        last_user(items) matches Some(u) ==> 0 <= u < items.len() && is_message_of(
            items[u],
            "user"@,
        ),
    decreases items.len(),
{
    if items.len() > 0 {
        lemma_last_user(items.drop_last());
    }
}

/// Reasoning from before the last message of the user is not sent: the request
/// carries none up to and with that message.
pub proof fn law_no_reasoning_up_to_the_last_user(
    instructions: Seq<char>,
    items: Seq<ResponseItem>,
    u: int,
)
    requires
        last_user(items) == Some(u),
    ensures
        ({
            let first = messages_upto(instructions, items, u + 1);
            &&& first.len() <= request_messages(instructions, items).len()
            &&& first == request_messages(instructions, items).take(first.len() as int)
            &&& free_of_reasoning(first)
        }),
{
    lemma_last_user(items);
    lemma_keys_differ();
    assert forall|k: int| 0 <= k < u + 1 implies #[trigger] reasoning_at(items, k) is None by {
        assert(contribution(items, k - 1, k) is None);
        assert(contribution(items, k + 1, k) is None);
    }
    lemma_free_of_reasoning(instructions, items, u + 1);
    let first = messages_upto(instructions, items, u + 1);
    assert(first == with_item(messages_upto(instructions, items, u), items, u));
    assert(!is_tool_call_message(first.last()));
    lemma_earlier_messages_stay(instructions, items, u + 1, items.len() as int);
    assert(first =~= request_messages(instructions, items).take(first.len() as int));
}

/// Two histories of the same length that differ at most in the reasoning that
/// they hold before position `u`.
pub open spec fn differ_in_reasoning_before(
    items: Seq<ResponseItem>,
    others: Seq<ResponseItem>,
    u: int,
) -> bool {
    &&& items.len() == others.len()
    &&& forall|i: int|
        0 <= i < items.len() ==> #[trigger] items[i] == others[i] || (i < u && items[i] is Reasoning
            && others[i] is Reasoning)
}

/// Reasoning at earlier positions takes no part in the order of the roles.
proof fn lemma_same_roles(
    items: Seq<ResponseItem>,
    others: Seq<ResponseItem>,
    u: int,
)
    requires
        differ_in_reasoning_before(items, others, u),
    ensures
        last_role(items) == last_role(others),
        last_user(items) == last_user(others),
        last_assistant_text(items) == last_assistant_text(others),
    decreases items.len(),
{
    if items.len() > 0 {
        let last = items.len() - 1;
        assert(items[last] == others[last] || (items[last] is Reasoning
            && others[last] is Reasoning));
        assert(differ_in_reasoning_before(items.drop_last(), others.drop_last(), u)) by {
            assert forall|i: int| 0 <= i < items.len() - 1 implies #[trigger] items.drop_last()[i]
                == others.drop_last()[i] || (i < u && items.drop_last()[i] is Reasoning
                && others.drop_last()[i] is Reasoning) by {
                assert(items[i] == others[i] || (i < u && items[i] is Reasoning
                    && others[i] is Reasoning));
            }
        }
        lemma_same_roles(items.drop_last(), others.drop_last(), u);
    }
}

/// Two such histories have the same reasoning to send.
proof fn lemma_same_reasoning(
    items: Seq<ResponseItem>,
    others: Seq<ResponseItem>,
    u: int,
    k: int,
)
    requires
        last_user(items) == Some(u),
        differ_in_reasoning_before(items, others, u),
    ensures
        reasoning_at(items, k) == reasoning_at(others, k),
{
    lemma_last_user(items);
    lemma_same_roles(items, others, u);
    assert forall|i: int| #[trigger] contribution(items, i, k) == contribution(others, i, k) by {
        if u < i && 0 <= i < items.len() {
            assert(items[i] == others[i]);
            assert(items[i - 1] == others[i - 1]);
            if i + 1 < items.len() {
                assert(items[i + 1] == others[i + 1]);
            }
        }
    }
    assert(contribution(items, k - 1, k) == contribution(others, k - 1, k));
    assert(contribution(items, k + 1, k) == contribution(others, k + 1, k));
}

/// Two such histories give the same messages, item by item.
proof fn lemma_same_messages(
    instructions: Seq<char>,
    items: Seq<ResponseItem>,
    others: Seq<ResponseItem>,
    u: int,
    n: int,
)
    requires
        last_user(items) == Some(u),
        differ_in_reasoning_before(items, others, u),
        n <= items.len(),
    ensures
        messages_upto(instructions, items, n) == messages_upto(instructions, others, n),
    decreases n,
{
    if n > 0 {
        lemma_same_messages(instructions, items, others, u, n - 1);
        lemma_same_reasoning(items, others, u, n - 1);
        let start = items.take(n - 1);
        let other_start = others.take(n - 1);
        assert(differ_in_reasoning_before(start, other_start, u)) by {
            assert forall|i: int| 0 <= i < n - 1 implies #[trigger] start[i] == other_start[i] || (i
                < u && start[i] is Reasoning && other_start[i] is Reasoning) by {
                assert(items[i] == others[i] || (i < u && items[i] is Reasoning
                    && others[i] is Reasoning));
            }
        }
        lemma_same_roles(start, other_start, u);
        assert(items[n - 1] == others[n - 1] || (items[n - 1] is Reasoning
            && others[n - 1] is Reasoning));
    }
}

/// Reasoning from before the last message of the user is ignored: whatever it
/// says, the messages of the request are the same.
pub proof fn law_earlier_reasoning_is_ignored(
    instructions: Seq<char>,
    items: Seq<ResponseItem>,
    others: Seq<ResponseItem>,
    u: int,
)
    requires
        last_user(items) == Some(u),
        differ_in_reasoning_before(items, others, u),
    ensures
        request_messages(instructions, items) == request_messages(instructions, others),
{
    lemma_same_messages(instructions, items, others, u, items.len() as int);
}

/// `part` occurs in `text`.
pub open spec fn occurs_in(part: Seq<char>, text: Seq<char>) -> bool {
    exists|start: int|
        0 <= start <= text.len() - part.len() && #[trigger] text.subrange(
            start,
            start + part.len(),
        ) == part
}

/// A message whose reasoning holds the given text.
pub open spec fn carries(message: Json, text: Seq<char>) -> bool {
    &&& has_entry(message, "reasoning"@)
    &&& match entry(message, "reasoning"@) {
        Json::String(reasoning) => occurs_in(text, reasoning),
        _ => false,
    }
}

/// What occurs in a text occurs in it with more before and after.
proof fn lemma_occurs_in_longer(
    part: Seq<char>,
    before: Seq<char>,
    text: Seq<char>,
    after: Seq<char>,
)
    requires
        occurs_in(part, text),
    ensures
        occurs_in(part, before + text + after),
{
    let start = choose|start: int|
        0 <= start <= text.len() - part.len() && #[trigger] text.subrange(
            start,
            start + part.len(),
        ) == part;
    let from = before.len() + start;
    assert((before + text + after).subrange(from, from + part.len()) =~= text.subrange(
        start,
        start + part.len(),
    ));
}

/// A text occurs in itself.
pub(crate) proof fn lemma_occurs_in_itself(text: Seq<char>)
    ensures
        occurs_in(text, text),
{
    assert(text.subrange(0, 0int + text.len()) =~= text);
}

/// One more tool call keeps the reasoning of the message that it joins, and
/// adds its own.
proof fn lemma_tool_call_carries(
    messages: Seq<Json>,
    call: Json,
    reasoning: Option<Seq<char>>,
    text: Seq<char>,
)
    ensures
        forall|j: int|
            0 <= j < messages.len() && carries(#[trigger] messages[j], text) ==> carries(
                with_tool_call(messages, call, reasoning)[j],
                text,
            ),
        reasoning matches Some(r) && occurs_in(text, r) ==> carries(
            with_tool_call(messages, call, reasoning).last(),
            text,
        ),
{
    lemma_keys_differ();
    lemma_tool_call_message(messages, call, reasoning);
    let after = with_tool_call(messages, call, reasoning);
    if messages.len() > 0 && is_tool_call_message(messages.last()) {
        let fields = messages.last()->Object_0;
        if let Some(r) = reasoning {
            if has_entry(messages.last(), "reasoning"@) {
                if let Json::String(existing) = fields["reasoning"@] {
                    let none = Seq::<char>::empty();
                    if existing.len() > 0 {
                        let joined = existing.push('\n') + r;
                        if occurs_in(text, existing) {
                            lemma_occurs_in_longer(text, none, existing, seq!['\n'] + r);
                            assert(none + existing + (seq!['\n'] + r) =~= joined);
                        }
                        if occurs_in(text, r) {
                            lemma_occurs_in_longer(text, existing.push('\n'), r, none);
                            assert(existing.push('\n') + r + none =~= joined);
                        }
                    } else if occurs_in(text, existing) {
                        assert(text =~= none);
                        assert(r.subrange(0, 0int + text.len()) =~= text);
                    }
                }
            }
        }
        assert forall|j: int|
            0 <= j < messages.len() && carries(#[trigger] messages[j], text) implies carries(
            after[j],
            text,
        ) by {
            if j == messages.len() - 1 {
                assert(messages[j] == messages.last());
                assert(after[j] == after.last());
            }
        }
    }
}

/// Reasoning that a request carries for some items is carried for more, too.
pub(crate) proof fn lemma_carried_further(
    instructions: Seq<char>,
    items: Seq<ResponseItem>,
    m: int,
    n: int,
    j: int,
    text: Seq<char>,
)
    requires
        m <= n,
        0 <= j < messages_upto(instructions, items, m).len(),
        carries(messages_upto(instructions, items, m)[j], text),
    ensures
        j < messages_upto(instructions, items, n).len(),
        carries(messages_upto(instructions, items, n)[j], text),
    decreases n - m,
{
    if m < n && n > 0 {
        lemma_carried_further(instructions, items, m, n - 1, j, text);
        let before = messages_upto(instructions, items, n - 1);
        lemma_step(before, items, n - 1);
        if let Some(call) = tool_call_of(items[n - 1]) {
            lemma_tool_call_message(before, call, reasoning_at(items, n - 1));
            lemma_tool_call_carries(before, call, reasoning_at(items, n - 1), text);
        }
    }
}

/// What an item contributes to the reasoning of another occurs in it.
proof fn lemma_contribution_occurs(items: Seq<ResponseItem>, i: int, k: int)
    requires
        contribution(items, i, k) is Some,
    ensures
        reasoning_at(items, k) is Some,
        occurs_in(contribution(items, i, k)->0, reasoning_at(items, k)->0),
{
    let text = contribution(items, i, k)->0;
    let none = Seq::<char>::empty();
    lemma_occurs_in_itself(text);
    if i == k - 1 {
        if let Some(b) = contribution(items, k + 1, k) {
            lemma_occurs_in_longer(text, none, text, b);
            assert(none + text + b =~= text + b);
        }
    } else {
        if let Some(a) = contribution(items, k - 1, k) {
            lemma_occurs_in_longer(text, a, text, none);
            assert(a + text + none =~= a + text);
        }
    }
}

/// An item that reasoning belongs to carries it in its message.
pub(crate) proof fn lemma_anchor_carries(
    messages: Seq<Json>,
    items: Seq<ResponseItem>,
    k: int,
    text: Seq<char>,
)
    requires
        tool_call_of(items[k]) is Some || is_message_of(items[k], "assistant"@),
        !repeats_assistant(items, k),
        reasoning_at(items, k) is Some,
        occurs_in(text, reasoning_at(items, k)->0),
    ensures
        with_item(messages, items, k).len() > 0,
        carries(with_item(messages, items, k).last(), text),
{
    lemma_keys_differ();
    lemma_step(messages, items, k);
    if let Some(call) = tool_call_of(items[k]) {
        lemma_tool_call_message(messages, call, reasoning_at(items, k));
        lemma_tool_call_carries(messages, call, reasoning_at(items, k), text);
    }
}

/// Reasoning of the open turn is sent: what stands next to a call, or to an
/// assistant message that is not suppressed as a repetition, is carried by a
/// message of the request.
pub proof fn law_reasoning_is_sent(
    instructions: Seq<char>,
    items: Seq<ResponseItem>,
    i: int,
    k: int,
)
    requires
        in_open_turn(items, i),
        reasoning_text(items[i]) is Some,
        anchor(items, i) == Some(k),
        !repeats_assistant(items, k),
    ensures
        exists|j: int|
            0 <= j < request_messages(instructions, items).len() && carries(
                #[trigger] request_messages(instructions, items)[j],
                reasoning_text(items[i])->0,
            ),
{
    let text = reasoning_text(items[i])->0;
    let after = messages_upto(instructions, items, k + 1);
    lemma_contribution_occurs(items, i, k);
    lemma_anchor_carries(messages_upto(instructions, items, k), items, k, text);
    lemma_carried_further(
        instructions,
        items,
        k + 1,
        items.len() as int,
        after.len() - 1,
        text,
    );
    assert(carries(request_messages(instructions, items)[after.len() - 1], text));
}

} // verus!
