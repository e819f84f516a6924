//! Where each piece of reasoning goes: what a request says with it, held against
//! what the request says where the history has another item in its place.
use crate::json::Json;
use crate::models::ResponseItem;
#[allow(unused_imports)]
use crate::history_laws::{
    from_assistant, from_user, law_last_role_is_the_last, law_last_user_is_the_last,
    lemma_sides_differ, takes_a_turn,
};
#[allow(unused_imports)]
use crate::laws::{
    entry, has_entry, lemma_earlier_messages_stay, lemma_keys_differ, lemma_step,
    lemma_tool_call_message,
};
#[allow(unused_imports)]
use crate::message_laws::{
    gives_a_message, holds_calls, is_call, law_assistant_message_is_sent_as_text,
    law_call_is_shown, law_call_joins_a_message_with_calls, law_call_opens_a_message,
    lemma_repetition, says_something_new,
};
#[allow(unused_imports)]
use crate::messages::{
    last_assistant_text, messages_upto, repeats_assistant, request_messages, tool_call_of,
    with_item,
};
#[allow(unused_imports)]
use crate::reasoning::{
    anchor, contribution, in_open_turn, last_role, last_user, reasoning_at, reasoning_text,
    segments_text,
};
#[allow(unused_imports)]
use crate::reasoning_laws::{
    carries, free_of_reasoning, law_no_reasoning_when_the_user_is_last, lemma_anchor_carries,
    lemma_carried_further, lemma_free_of_reasoning, lemma_occurs_in_itself,
};
#[allow(unused_imports)]
use crate::text::{is_blank_text, is_white_space};
#[allow(unused_imports)]
use crate::tool_calls::{is_tool_call_message, with_tool_call};
use vstd::prelude::*;

verus! {

/// Reasoning with the given text, which is more than white space.
pub open spec fn thinks(item: ResponseItem, text: Seq<char>) -> bool {
    &&& item is Reasoning
    &&& item->Reasoning_content is Some
    &&& text == segments_text(item->Reasoning_content->0@)
    &&& exists|c: int| 0 <= c < text.len() && !is_white_space(#[trigger] text[c])
}

/// The user says nothing behind position `i`.
pub open spec fn no_user_after(items: Seq<ResponseItem>, i: int) -> bool {
    forall|j: int| i < j < items.len() ==> !from_user(#[trigger] items[j])
}

/// An assistant message stands right before position `i`.
pub open spec fn assistant_before(items: Seq<ResponseItem>, i: int) -> bool {
    i > 0 && from_assistant(items[i - 1])
}

/// A function call, a local shell call or an assistant message stands right
/// after position `i`.
pub open spec fn taker_after(items: Seq<ResponseItem>, i: int) -> bool {
    i + 1 < items.len() && (items[i + 1] is FunctionCall || items[i + 1] is LocalShellCall
        || from_assistant(items[i + 1]))
}

/// The history with an item that is never sent at position `i`.
pub open spec fn without(items: Seq<ResponseItem>, i: int) -> Seq<ResponseItem> {
    items.update(i, ResponseItem::Other)
}

/// Two lists of messages that are the same but for the reasoning of the message
/// at position `p`.
pub open spec fn differ_in_reasoning_at(first: Seq<Json>, second: Seq<Json>, p: int) -> bool {
    &&& first.len() == second.len()
    &&& 0 <= p < first.len()
    &&& forall|j: int| 0 <= j < first.len() && j != p ==> #[trigger] first[j] == second[j]
    &&& first[p] is Object
    &&& second[p] is Object
    &&& first[p]->Object_0.remove("reasoning"@) == second[p]->Object_0.remove("reasoning"@)
}

/// The reasoning of a message, or the empty text where it carries none.
pub open spec fn reasoning_of(message: Json) -> Seq<char> {
    if has_entry(message, "reasoning"@) {
        entry(message, "reasoning"@)->String_0
    } else {
        Seq::empty()
    }
}

/// Two histories that differ at most in items without a message and a turn.
spec fn same_talk(items: Seq<ResponseItem>, others: Seq<ResponseItem>) -> bool {
    &&& items.len() == others.len()
    &&& forall|j: int|
        0 <= j < items.len() ==> #[trigger] items[j] == others[j] || (items[j] is Reasoning
            && others[j] is Other)
}

/// Such histories have the same turns.
proof fn lemma_same_talk(items: Seq<ResponseItem>, others: Seq<ResponseItem>)
    requires
        same_talk(items, others),
    ensures
        last_role(items) == last_role(others),
        last_user(items) == last_user(others),
        last_assistant_text(items) == last_assistant_text(others),
    decreases items.len(),
{
    if items.len() > 0 {
        let rest = items.drop_last();
        let other_rest = others.drop_last();
        assert forall|j: int| 0 <= j < rest.len() implies #[trigger] rest[j] == other_rest[j] || (
        rest[j] is Reasoning && other_rest[j] is Other) by {
            assert(items[j] == rest[j]);
        }
        lemma_same_talk(rest, other_rest);
        assert(items[items.len() - 1] == items.last());
    }
}

/// An item in the place of reasoning keeps the turns and the repetitions, and
/// takes away what the reasoning contributes, and no more.
proof fn lemma_without(items: Seq<ResponseItem>, i: int)
    requires
        0 <= i < items.len(),
        items[i] is Reasoning,
    ensures
        forall|n: int|
            0 <= n < items.len() ==> #[trigger] repeats_assistant(items, n) == repeats_assistant(
                without(items, i),
                n,
            ),
        forall|k: int| #[trigger] contribution(without(items, i), i, k) is None,
        forall|j: int, k: int|
            j != i ==> #[trigger] contribution(without(items, i), j, k) == contribution(
                items,
                j,
                k,
            ),
{
    let others = without(items, i);
    assert(same_talk(items, others));
    lemma_same_talk(items, others);
    assert forall|n: int| 0 <= n < items.len() implies #[trigger] repeats_assistant(items, n)
        == repeats_assistant(others, n) by {
        let first = items.take(n);
        let other_first = others.take(n);
        assert forall|j: int| 0 <= j < n implies #[trigger] first[j] == other_first[j] || (
        first[j] is Reasoning && other_first[j] is Other) by {
            assert(items[j] == first[j]);
        }
        lemma_same_talk(first, other_first);
        assert(n == i || items[n] == others[n]);
    }
}

/// Reasoning that the user has not answered belongs to the assistant message
/// before it, or else to what stands after it, and to nothing else.
proof fn lemma_belongs(items: Seq<ResponseItem>, i: int, k: int, text: Seq<char>)
    requires
        0 <= i < items.len(),
        thinks(items[i], text),
        no_user_after(items, i),
        assistant_before(items, i) || taker_after(items, i),
        k == if assistant_before(items, i) {
            i - 1
        } else {
            i + 1
        },
    ensures
        in_open_turn(items, i),
        anchor(items, i) == Some(k),
        reasoning_text(items[i]) == Some(text),
        contribution(items, i, k) == Some(text),
        forall|j: int| j != k ==> #[trigger] contribution(items, i, j) is None,
{
    lemma_sides_differ();
    law_last_user_is_the_last(items);
    law_last_role_is_the_last(items);
    assert(takes_a_turn(items[k]));
    if last_role(items) == Some("user"@) {
        let role = "user"@;
        let t = choose|t: int|
            {
                &&& 0 <= t < items.len()
                &&& takes_a_turn(#[trigger] items[t])
                &&& items[t] is Message ==> role == items[t]->Message_role@
                &&& items[t] is FunctionCall || items[t] is LocalShellCall ==> role == "assistant"@
                &&& items[t] is FunctionCallOutput ==> role == "tool"@
                &&& forall|j: int| t < j < items.len() ==> !takes_a_turn(#[trigger] items[j])
            };
        assert(from_user(items[t]));
        assert(t >= k);
    }
    assert(!is_blank_text(text));
}

/// Messages that differ in the reasoning of one of them still do when the same
/// item is taken up.
proof fn lemma_difference_stays(
    first: Seq<Json>,
    second: Seq<Json>,
    items: Seq<ResponseItem>,
    others: Seq<ResponseItem>,
    n: int,
    p: int,
)
    requires
        differ_in_reasoning_at(first, second, p),
        items[n] == others[n] || (items[n] is Reasoning && others[n] is Other),
        reasoning_at(items, n) == reasoning_at(others, n),
        repeats_assistant(items, n) == repeats_assistant(others, n),
    ensures
        differ_in_reasoning_at(with_item(first, items, n), with_item(second, others, n), p),
{
    lemma_keys_differ();
    let after = with_item(first, items, n);
    let other_after = with_item(second, others, n);
    if items[n] == others[n] {
        if let Some(call) = tool_call_of(items[n]) {
            let a = first[p]->Object_0;
            let b = second[p]->Object_0;
            assert forall|key: Seq<char>| key != "reasoning"@ implies #[trigger] a.contains_key(key)
                == b.contains_key(key) && (a.contains_key(key) ==> a[key] == b[key]) by {
                let c = a.remove("reasoning"@);
                let d = b.remove("reasoning"@);
                assert(c.contains_key(key) == a.contains_key(key));
                assert(d.contains_key(key) == b.contains_key(key));
                if a.contains_key(key) {
                    assert(c[key] == a[key]);
                    assert(d[key] == b[key]);
                }
            }
            assert(is_tool_call_message(first[p]) == is_tool_call_message(second[p]));
            let last = first.len() - 1;
            assert(last == p || first[last] == second[last]);
            assert(first.last() == first[last]);
            assert(second.last() == second[last]);
            lemma_step(first, items, n);
            lemma_step(second, others, n);
            lemma_tool_call_message(first, call, reasoning_at(items, n));
            lemma_tool_call_message(second, call, reasoning_at(items, n));
            assert(after[p]->Object_0.remove("reasoning"@) =~= other_after[p]->Object_0.remove(
                "reasoning"@,
            ));
        }
    }
}

/// Two histories that differ in the reasoning of one item at most give the same
/// messages up to that item, and beyond it where it makes no difference.
proof fn lemma_same_so_far(
    instructions: Seq<char>,
    items: Seq<ResponseItem>,
    i: int,
    n: int,
)
    requires
        0 <= i < items.len(),
        items[i] is Reasoning,
        0 <= n <= items.len(),
        forall|k: int|
            0 <= k < n ==> #[trigger] reasoning_at(items, k) == reasoning_at(without(items, i), k)
                || repeats_assistant(items, k),
    ensures
        messages_upto(instructions, items, n) == messages_upto(instructions, without(items, i), n),
    decreases n,
{
    if n > 0 {
        lemma_same_so_far(instructions, items, i, n - 1);
        lemma_without(items, i);
        assert(repeats_assistant(items, n - 1) == repeats_assistant(without(items, i), n - 1));
        assert(reasoning_at(items, n - 1) == reasoning_at(without(items, i), n - 1)
            || repeats_assistant(items, n - 1));
    }
}

/// Two histories that differ in the reasoning of one item give requests that
/// differ in the reasoning of one message.
proof fn lemma_differ_from(
    instructions: Seq<char>,
    items: Seq<ResponseItem>,
    i: int,
    m: int,
    n: int,
    p: int,
)
    requires
        0 <= i < items.len(),
        items[i] is Reasoning,
        0 <= m <= n <= items.len(),
        differ_in_reasoning_at(
            messages_upto(instructions, items, m),
            messages_upto(instructions, without(items, i), m),
            p,
        ),
        forall|k: int|
            m <= k < n ==> #[trigger] reasoning_at(items, k) == reasoning_at(without(items, i), k),
    ensures
        differ_in_reasoning_at(
            messages_upto(instructions, items, n),
            messages_upto(instructions, without(items, i), n),
            p,
        ),
    decreases n - m,
{
    if m < n {
        lemma_differ_from(instructions, items, i, m, n - 1, p);
        lemma_without(items, i);
        assert(repeats_assistant(items, n - 1) == repeats_assistant(without(items, i), n - 1));
        assert(reasoning_at(items, n - 1) == reasoning_at(without(items, i), n - 1));
        lemma_difference_stays(
            messages_upto(instructions, items, n - 1),
            messages_upto(instructions, without(items, i), n - 1),
            items,
            without(items, i),
            n - 1,
            p,
        );
    }
}

/// Only the item that reasoning belongs to has less to carry without it.
proof fn lemma_only_the_anchor(items: Seq<ResponseItem>, i: int, k: int, text: Seq<char>)
    requires
        0 <= i < items.len(),
        thinks(items[i], text),
        no_user_after(items, i),
        assistant_before(items, i) || taker_after(items, i),
        k == if assistant_before(items, i) {
            i - 1
        } else {
            i + 1
        },
    ensures
        forall|j: int|
            j != k ==> #[trigger] reasoning_at(items, j) == reasoning_at(without(items, i), j),
        reasoning_at(items, k) is Some,
        ({
            let rest = match reasoning_at(without(items, i), k) {
                Some(r) => r,
                None => Seq::empty(),
            };
            reasoning_at(items, k)->0 == if k < i {
                rest + text
            } else {
                text + rest
            }
        }),
{
    let others = without(items, i);
    lemma_belongs(items, i, k, text);
    lemma_without(items, i);
    assert forall|j: int| j != k implies #[trigger] reasoning_at(items, j) == reasoning_at(
        others,
        j,
    ) by {
        assert(contribution(items, i, j) is None);
        assert(contribution(others, i, j) is None);
        assert(j - 1 == i || contribution(items, j - 1, j) == contribution(others, j - 1, j));
        assert(j + 1 == i || contribution(items, j + 1, j) == contribution(others, j + 1, j));
    }
    assert(contribution(others, i, k) is None);
    assert(k - 1 == i || contribution(items, k - 1, k) == contribution(others, k - 1, k));
    assert(k + 1 == i || contribution(items, k + 1, k) == contribution(others, k + 1, k));
    assert(Seq::<char>::empty() + text =~= text);
    assert(text + Seq::<char>::empty() =~= text);
}

/// The two requests around an assistant message that says something new.
proof fn lemma_around_an_assistant_message(
    instructions: Seq<char>,
    items: Seq<ResponseItem>,
    i: int,
    k: int,
)
    requires
        0 <= i < items.len(),
        items[i] is Reasoning,
        0 <= k < items.len(),
        k != i,
        says_something_new(items, k),
        forall|j: int|
            j != k ==> #[trigger] reasoning_at(items, j) == reasoning_at(without(items, i), j),
    ensures
        ({
            let first = request_messages(instructions, items);
            let second = request_messages(instructions, without(items, i));
            let p = messages_upto(instructions, items, k).len() as int;
            &&& differ_in_reasoning_at(first, second, p)
            &&& gives_a_message(instructions, items, k, first[p])
            &&& match reasoning_at(items, k) {
                Some(r) => has_entry(first[p], "reasoning"@) && entry(first[p], "reasoning"@)
                    == Json::String(r),
                None => !has_entry(first[p], "reasoning"@),
            }
            &&& match reasoning_at(without(items, i), k) {
                Some(r) => has_entry(second[p], "reasoning"@) && entry(second[p], "reasoning"@)
                    == Json::String(r),
                None => !has_entry(second[p], "reasoning"@),
            }
        }),
{
    lemma_keys_differ();
    let others = without(items, i);
    lemma_same_so_far(instructions, items, i, k);
    lemma_without(items, i);
    lemma_repetition(items, k);
    assert(repeats_assistant(items, k) == repeats_assistant(others, k));
    lemma_repetition(others, k);
    law_assistant_message_is_sent_as_text(instructions, items, k);
    law_assistant_message_is_sent_as_text(instructions, others, k);
    let before = messages_upto(instructions, items, k);
    let p = before.len() as int;
    let first = messages_upto(instructions, items, k + 1);
    let second = messages_upto(instructions, others, k + 1);
    assert(first == with_item(before, items, k));
    assert(second == with_item(before, others, k));
    assert(first[p]->Object_0.remove("reasoning"@) =~= second[p]->Object_0.remove("reasoning"@));
    assert(differ_in_reasoning_at(first, second, p));
    lemma_differ_from(instructions, items, i, k + 1, items.len() as int, p);
    assert(request_messages(instructions, items)[p] == first[p]);
    assert(request_messages(instructions, others)[p] == second[p]);
}

/// Reasoning right behind an assistant message goes to that message: its text
/// is the end of the reasoning there, and every other message is as it would be
/// without it, whatever stands behind the reasoning.
pub proof fn law_reasoning_goes_to_the_message_before(
    instructions: Seq<char>,
    items: Seq<ResponseItem>,
    i: int,
    text: Seq<char>,
)
    requires
        0 < i < items.len(),
        thinks(items[i], text),
        no_user_after(items, i),
        from_assistant(items[i - 1]),
        says_something_new(items, i - 1),
    ensures
        ({
            let first = request_messages(instructions, items);
            let second = request_messages(instructions, without(items, i));
            let p = messages_upto(instructions, items, i - 1).len() as int;
            &&& gives_a_message(instructions, items, i - 1, first[p])
            &&& differ_in_reasoning_at(first, second, p)
            &&& has_entry(first[p], "reasoning"@)
            &&& entry(first[p], "reasoning"@) == Json::String(reasoning_of(second[p]) + text)
        }),
{
    lemma_only_the_anchor(items, i, i - 1, text);
    lemma_around_an_assistant_message(instructions, items, i, i - 1);
}

/// Reasoning that stands behind no assistant message, but right before one, goes
/// to the one behind it: its text is the start of the reasoning there, and every
/// other message is as it would be without it.
pub proof fn law_reasoning_goes_to_the_message_after(
    instructions: Seq<char>,
    items: Seq<ResponseItem>,
    i: int,
    text: Seq<char>,
)
    requires
        0 <= i,
        i + 1 < items.len(),
        thinks(items[i], text),
        no_user_after(items, i),
        i > 0 ==> !from_assistant(items[i - 1]),
        from_assistant(items[i + 1]),
        says_something_new(items, i + 1),
    ensures
        ({
            let first = request_messages(instructions, items);
            let second = request_messages(instructions, without(items, i));
            let p = messages_upto(instructions, items, i + 1).len() as int;
            &&& gives_a_message(instructions, items, i + 1, first[p])
            &&& differ_in_reasoning_at(first, second, p)
            &&& has_entry(first[p], "reasoning"@)
            &&& entry(first[p], "reasoning"@) == Json::String(text + reasoning_of(second[p]))
        }),
{
    lemma_only_the_anchor(items, i, i + 1, text);
    lemma_around_an_assistant_message(instructions, items, i, i + 1);
}

/// The reasoning of a message is a text.
proof fn lemma_reasoning_is_text(instructions: Seq<char>, items: Seq<ResponseItem>, n: int)
    ensures
        forall|j: int|
            0 <= j < messages_upto(instructions, items, n).len() && has_entry(
                #[trigger] messages_upto(instructions, items, n)[j],
                "reasoning"@,
            ) ==> entry(messages_upto(instructions, items, n)[j], "reasoning"@) is String,
    decreases n,
{
    lemma_keys_differ();
    if n > 0 {
        lemma_reasoning_is_text(instructions, items, n - 1);
        let before = messages_upto(instructions, items, n - 1);
        lemma_step(before, items, n - 1);
        if let Some(call) = tool_call_of(items[n - 1]) {
            lemma_tool_call_message(before, call, reasoning_at(items, n - 1));
            if before.len() > 0 {
                assert(before[before.len() - 1] == before.last());
            }
        }
    }
}

/// A call with reasoning differs from the same call without it in the reasoning
/// of its message alone.
proof fn lemma_call_with_reasoning(messages: Seq<Json>, call: Json, text: Seq<char>)
    requires
        messages.len() > 0 && has_entry(messages.last(), "reasoning"@) ==> entry(
            messages.last(),
            "reasoning"@,
        ) is String,
    ensures
        ({
            let after = with_tool_call(messages, call, Some(text));
            let p = after.len() - 1;
            &&& differ_in_reasoning_at(after, with_tool_call(messages, call, None), p)
            &&& has_entry(after[p], "reasoning"@)
            &&& entry(after[p], "reasoning"@) == Json::String(
                if p < messages.len() && reasoning_of(messages[p]).len() > 0 {
                    reasoning_of(messages[p]) + seq!['\n'] + text
                } else {
                    text
                },
            )
        }),
{
    let after = with_tool_call(messages, call, Some(text));
    let other = with_tool_call(messages, call, None);
    let p = after.len() - 1;
    if messages.len() > 0 && holds_calls(messages.last()) {
        law_call_joins_a_message_with_calls(messages, call, Some(text));
        law_call_joins_a_message_with_calls(messages, call, None);
        assert forall|j: int| 0 <= j < p implies #[trigger] after[j] == other[j] by {
            assert(after.drop_last()[j] == messages.drop_last()[j]);
            assert(other.drop_last()[j] == messages.drop_last()[j]);
        }
        assert forall|key: Seq<char>| #[trigger] has_entry(messages.last(), key) && key
            != "reasoning"@ implies entry(after.last(), key) == entry(other.last(), key) by {}
    } else {
        law_call_opens_a_message(messages, call, Some(text));
        law_call_opens_a_message(messages, call, None);
        assert forall|j: int| 0 <= j < p implies #[trigger] after[j] == other[j] by {
            assert(after.drop_last()[j] == messages[j]);
            assert(other.drop_last()[j] == messages[j]);
        }
    }
    lemma_keys_differ();
    assert(after[p]->Object_0.remove("reasoning"@) =~= other[p]->Object_0.remove("reasoning"@));
}

/// Reasoning that stands behind no assistant message, but right before a
/// function call or a local shell call, goes to the message with that call: it
/// follows the reasoning that is there on a new line, or is the reasoning there.
/// Every other message is as it would be without it.
pub proof fn law_reasoning_goes_to_the_call_after(
    instructions: Seq<char>,
    items: Seq<ResponseItem>,
    i: int,
    text: Seq<char>,
)
    requires
        0 <= i,
        i + 1 < items.len(),
        thinks(items[i], text),
        no_user_after(items, i),
        i > 0 ==> !from_assistant(items[i - 1]),
        items[i + 1] is FunctionCall || items[i + 1] is LocalShellCall,
    ensures
        ({
            let first = request_messages(instructions, items);
            let second = request_messages(instructions, without(items, i));
            let before = messages_upto(instructions, items, i + 1);
            let after = messages_upto(instructions, items, i + 2);
            let p = after.len() - 1;
            &&& differ_in_reasoning_at(first, second, p)
            &&& carries(first[p], text)
            &&& has_entry(after[p], "reasoning"@)
            &&& entry(after[p], "reasoning"@) == Json::String(
                if p < before.len() && reasoning_of(before[p]).len() > 0 {
                    reasoning_of(before[p]) + seq!['\n'] + text
                } else {
                    text
                },
            )
        }),
{
    let k = i + 1;
    let others = without(items, i);
    lemma_belongs(items, i, k, text);
    lemma_only_the_anchor(items, i, k, text);
    lemma_without(items, i);
    lemma_same_so_far(instructions, items, i, k);
    assert(contribution(items, k + 1, k) is None);
    assert(contribution(others, k + 1, k) is None);
    assert(contribution(others, i, k) is None);
    assert(reasoning_at(items, k) == Some(text));
    assert(reasoning_at(others, k) is None);
    law_call_is_shown(items[k]);
    let call = tool_call_of(items[k])->0;
    let before = messages_upto(instructions, items, k);
    let after = messages_upto(instructions, items, k + 1);
    let p = after.len() - 1;
    lemma_reasoning_is_text(instructions, items, k);
    if before.len() > 0 {
        assert(before[before.len() - 1] == before.last());
    }
    lemma_call_with_reasoning(before, call, text);
    lemma_step(before, items, k);
    lemma_step(before, others, k);
    assert(after == with_tool_call(before, call, Some(text)));
    assert(messages_upto(instructions, others, k + 1) == with_tool_call(before, call, None));
    lemma_differ_from(instructions, items, i, k + 1, items.len() as int, p);
    lemma_occurs_in_itself(text);
    lemma_anchor_carries(before, items, k, text);
    lemma_carried_further(instructions, items, k + 1, items.len() as int, p, text);
}

/// Reasoning is not sent where it is blank or empty, where the user has spoken
/// since, or where neither an assistant message stands right before it nor a
/// function call, a local shell call or an assistant message right after it:
/// the request is as it would be without it.
pub proof fn law_reasoning_elsewhere_is_not_sent(
    instructions: Seq<char>,
    items: Seq<ResponseItem>,
    i: int,
)
    requires
        0 <= i < items.len(),
        items[i] is Reasoning,
        ({
            ||| items[i]->Reasoning_content is None
            ||| forall|c: int|
                0 <= c < segments_text(items[i]->Reasoning_content->0@).len() ==> is_white_space(
                    #[trigger] segments_text(items[i]->Reasoning_content->0@)[c],
                )
            ||| exists|j: int| i < j < items.len() && from_user(#[trigger] items[j])
            ||| !assistant_before(items, i) && !taker_after(items, i)
        }),
    ensures
        request_messages(instructions, items) == request_messages(instructions, without(items, i)),
{
    let others = without(items, i);
    law_last_user_is_the_last(items);
    lemma_without(items, i);
    assert forall|k: int| #[trigger] contribution(items, i, k) is None by {}
    assert forall|k: int| 0 <= k < items.len() implies #[trigger] reasoning_at(items, k)
        == reasoning_at(others, k) || repeats_assistant(items, k) by {
        assert(contribution(items, i, k) is None);
        assert(contribution(others, i, k) is None);
        assert(k - 1 == i || contribution(items, k - 1, k) == contribution(others, k - 1, k));
        assert(k + 1 == i || contribution(items, k + 1, k) == contribution(others, k + 1, k));
    }
    lemma_same_so_far(instructions, items, i, items.len() as int);
}

/// Reasoning that belongs to a suppressed assistant message is not sent either:
/// the request is as it would be without it.
pub proof fn law_reasoning_of_a_repetition_is_not_sent(
    instructions: Seq<char>,
    items: Seq<ResponseItem>,
    i: int,
    text: Seq<char>,
)
    requires
        0 <= i < items.len(),
        thinks(items[i], text),
        no_user_after(items, i),
        ({
            ||| assistant_before(items, i) && !says_something_new(items, i - 1)
            ||| !assistant_before(items, i) && i + 1 < items.len() && from_assistant(items[i + 1])
                && !says_something_new(items, i + 1)
        }),
    ensures
        request_messages(instructions, items) == request_messages(instructions, without(items, i)),
{
    let k = if assistant_before(items, i) {
        i - 1
    } else {
        i + 1
    };
    lemma_only_the_anchor(items, i, k, text);
    lemma_repetition(items, k);
    lemma_same_so_far(instructions, items, i, items.len() as int);
}

/// A history without reasoning gives a request without reasoning.
pub proof fn law_no_reasoning_comes_from_nowhere(
    instructions: Seq<char>,
    items: Seq<ResponseItem>,
)
    requires
        forall|i: int| 0 <= i < items.len() ==> !(#[trigger] items[i] is Reasoning),
    ensures
        free_of_reasoning(request_messages(instructions, items)),
{
    assert forall|k: int| 0 <= k < items.len() implies #[trigger] reasoning_at(items, k) is None by {
        assert(contribution(items, k - 1, k) is None);
        assert(contribution(items, k + 1, k) is None);
    }
    lemma_free_of_reasoning(instructions, items, items.len() as int);
}

/// What is sent up to a message of the user carries no reasoning, whichever of
/// their messages it is, and the request opens with it.
pub proof fn law_no_reasoning_up_to_a_user_message(
    instructions: Seq<char>,
    items: Seq<ResponseItem>,
    u: int,
)
    requires
        0 <= u < items.len(),
        from_user(items[u]),
    ensures
        ({
            let first = messages_upto(instructions, items, u + 1);
            &&& first.len() <= request_messages(instructions, items).len()
            &&& first == request_messages(instructions, items).take(first.len() as int)
            &&& free_of_reasoning(first)
        }),
{
    lemma_keys_differ();
    lemma_sides_differ();
    law_last_user_is_the_last(items);
    assert forall|k: int| 0 <= k < u + 1 implies #[trigger] reasoning_at(items, k) is None by {
        assert(contribution(items, k - 1, k) is None);
        assert(contribution(items, k + 1, k) is None);
    }
    lemma_free_of_reasoning(instructions, items, u + 1);
    let first = messages_upto(instructions, items, u + 1);
    assert(first == with_item(messages_upto(instructions, items, u), items, u));
    assert(!is_tool_call_message(first.last()));
    lemma_earlier_messages_stay(instructions, items, u + 1, items.len() as int);
    assert(first =~= request_messages(instructions, items).take(first.len() as int));
}

/// A request carries no reasoning where no item behind the last message of the
/// user takes a turn.
pub proof fn law_no_reasoning_while_the_user_waits(
    instructions: Seq<char>,
    items: Seq<ResponseItem>,
    u: int,
)
    requires
        0 <= u < items.len(),
        from_user(items[u]),
        forall|j: int| u < j < items.len() ==> !takes_a_turn(#[trigger] items[j]),
    ensures
        free_of_reasoning(request_messages(instructions, items)),
{
    lemma_sides_differ();
    law_last_role_is_the_last(items);
    assert(takes_a_turn(items[u]));
    let role = last_role(items)->0;
    let t = choose|t: int|
        {
            &&& 0 <= t < items.len()
            &&& takes_a_turn(#[trigger] items[t])
            &&& items[t] is Message ==> role == items[t]->Message_role@
            &&& items[t] is FunctionCall || items[t] is LocalShellCall ==> role == "assistant"@
            &&& items[t] is FunctionCallOutput ==> role == "tool"@
            &&& forall|j: int| t < j < items.len() ==> !takes_a_turn(#[trigger] items[j])
        };
    assert(t == u);
    law_no_reasoning_when_the_user_is_last(instructions, items);
}

/// A call without reasoning right before it, and every call of a custom tool,
/// leaves the reasoning of its message as it is, and brings none where it opens
/// the message.
pub proof fn law_call_alone_brings_no_reasoning(
    instructions: Seq<char>,
    items: Seq<ResponseItem>,
    n: int,
)
    requires
        0 <= n < items.len(),
        is_call(items[n]),
        n == 0 || !(items[n - 1] is Reasoning) || items[n] is CustomToolCall,
    ensures
        ({
            let before = messages_upto(instructions, items, n);
            let after = messages_upto(instructions, items, n + 1);
            let p = after.len() - 1;
            &&& p < before.len() && has_entry(before[p], "reasoning"@) ==> has_entry(
                after[p],
                "reasoning"@,
            ) && entry(after[p], "reasoning"@) == entry(before[p], "reasoning"@)
            &&& !(p < before.len() && has_entry(before[p], "reasoning"@)) ==> !has_entry(
                after[p],
                "reasoning"@,
            )
        }),
{
    lemma_keys_differ();
    law_call_is_shown(items[n]);
    assert(contribution(items, n - 1, n) is None);
    assert(contribution(items, n + 1, n) is None);
    assert(reasoning_at(items, n) is None);
    let before = messages_upto(instructions, items, n);
    let after = messages_upto(instructions, items, n + 1);
    lemma_step(before, items, n);
    assert(after == with_item(before, items, n));
    if before.len() > 0 {
        assert(before[before.len() - 1] == before.last());
    }
}

} // verus!
