//! What the texts and the turns of a history are.
use crate::models::{ContentItem, ReasoningItemContent, ResponseItem};
#[allow(unused_imports)]
use crate::messages::{content_text, last_assistant_text};
#[allow(unused_imports)]
use crate::reasoning::{last_role, last_user, segments_text};
#[allow(unused_imports)]
use crate::text::{is_blank_text, is_white_space};
use vstd::prelude::*;

verus! {

/// A message of the user.
pub open spec fn from_user(item: ResponseItem) -> bool {
    item is Message && item->Message_role@ == "user"@
}

/// A message of the assistant.
pub open spec fn from_assistant(item: ResponseItem) -> bool {
    item is Message && item->Message_role@ == "assistant"@
}

/// The items that have a say in whose turn it is.
pub open spec fn takes_a_turn(item: ResponseItem) -> bool {
    item is Message || item is FunctionCall || item is LocalShellCall || item is FunctionCallOutput
}

/// The names of the three sides of a conversation differ.
pub(crate) proof fn lemma_sides_differ()
    ensures
        "assistant"@ != "user"@,
        "assistant"@ != "tool"@,
        "user"@ != "tool"@,
{
    reveal_strlit("assistant");
    reveal_strlit("user");
    reveal_strlit("tool");
    assert("assistant"@.len() == 9);
    assert("user"@.len() == 4);
    assert("tool"@.len() == 4);
    assert("user"@[0] == 'u');
    assert("tool"@[0] == 't');
}

/// The last user message is a message of the user behind which no other one
/// stands, and there is one unless the user has said nothing.
pub proof fn law_last_user_is_the_last(items: Seq<ResponseItem>)
    ensures
        match last_user(items) {
            Some(u) => {
                &&& 0 <= u < items.len()
                &&& from_user(items[u])
                &&& forall|j: int| u < j < items.len() ==> !from_user(#[trigger] items[j])
            },
            None => forall|j: int| 0 <= j < items.len() ==> !from_user(#[trigger] items[j]),
        },
    decreases items.len(),
{
    if items.len() > 0 {
        let rest = items.drop_last();
        law_last_user_is_the_last(rest);
        assert forall|j: int| 0 <= j < items.len() - 1 implies #[trigger] items[j] == rest[j] by {}
        assert(items.last() == items[items.len() - 1]);
    }
}

/// The last role is that of an item that takes a turn and behind which none
/// does: its own for a message, the assistant for a call and the tool for the
/// output of a function. There is none only where no item takes a turn.
pub proof fn law_last_role_is_the_last(items: Seq<ResponseItem>)
    ensures
        match last_role(items) {
            Some(role) => exists|i: int|
                {
                    &&& 0 <= i < items.len()
                    &&& takes_a_turn(#[trigger] items[i])
                    &&& items[i] is Message ==> role == items[i]->Message_role@
                    &&& items[i] is FunctionCall || items[i] is LocalShellCall ==> role
                        == "assistant"@
                    &&& items[i] is FunctionCallOutput ==> role == "tool"@
                    &&& forall|j: int| i < j < items.len() ==> !takes_a_turn(#[trigger] items[j])
                },
            None => forall|j: int| 0 <= j < items.len() ==> !takes_a_turn(#[trigger] items[j]),
        },
    decreases items.len(),
{
    if items.len() > 0 {
        let rest = items.drop_last();
        let last = items.len() - 1;
        law_last_role_is_the_last(rest);
        assert forall|j: int| 0 <= j < items.len() - 1 implies #[trigger] items[j] == rest[j] by {}
        assert(items.last() == items[last]);
        if !takes_a_turn(items[last]) && last_role(items) is Some {
            let role = last_role(items)->0;
            let i = choose|i: int|
                {
                    &&& 0 <= i < rest.len()
                    &&& takes_a_turn(#[trigger] rest[i])
                    &&& rest[i] is Message ==> role == rest[i]->Message_role@
                    &&& rest[i] is FunctionCall || rest[i] is LocalShellCall ==> role
                        == "assistant"@
                    &&& rest[i] is FunctionCallOutput ==> role == "tool"@
                    &&& forall|j: int| i < j < rest.len() ==> !takes_a_turn(#[trigger] rest[j])
                };
            assert(items[i] == rest[i]);
        }
    }
}

/// The last assistant text is the text of a message of the assistant behind
/// which no other one stands, and there is one unless the assistant has said
/// nothing.
pub proof fn law_last_assistant_text_is_the_last(items: Seq<ResponseItem>)
    ensures
        match last_assistant_text(items) {
            Some(text) => exists|i: int|
                {
                    &&& 0 <= i < items.len()
                    &&& from_assistant(#[trigger] items[i])
                    &&& text == content_text(items[i]->Message_content@)
                    &&& forall|j: int| i < j < items.len() ==> !from_assistant(#[trigger] items[j])
                },
            None => forall|j: int| 0 <= j < items.len() ==> !from_assistant(#[trigger] items[j]),
        },
    decreases items.len(),
{
    if items.len() > 0 {
        let rest = items.drop_last();
        let last = items.len() - 1;
        law_last_assistant_text_is_the_last(rest);
        assert forall|j: int| 0 <= j < items.len() - 1 implies #[trigger] items[j] == rest[j] by {}
        assert(items.last() == items[last]);
        if !from_assistant(items[last]) && last_assistant_text(items) is Some {
            let text = last_assistant_text(items)->0;
            let i = choose|i: int|
                {
                    &&& 0 <= i < rest.len()
                    &&& from_assistant(#[trigger] rest[i])
                    &&& text == content_text(rest[i]->Message_content@)
                    &&& forall|j: int| i < j < rest.len() ==> !from_assistant(#[trigger] rest[j])
                };
            assert(items[i] == rest[i]);
        }
    }
}

/// The text of the content of a message is that of its parts, one behind the
/// other and with nothing between them: a part that is text gives its text, and
/// an image gives none.
pub proof fn law_content_text_is_that_of_its_parts(
    first: Seq<ContentItem>,
    second: Seq<ContentItem>,
)
    ensures
        content_text(Seq::empty()) == Seq::<char>::empty(),
        content_text(first + second) == content_text(first) + content_text(second),
        first.len() == 1 && first[0] is InputText ==> content_text(first)
            == first[0]->InputText_text@,
        first.len() == 1 && first[0] is OutputText ==> content_text(first)
            == first[0]->OutputText_text@,
        first.len() == 1 && first[0] is InputImage ==> content_text(first) == Seq::<char>::empty(),
    decreases second.len(),
{
    reveal_with_fuel(content_text, 2);
    if second.len() == 0 {
        assert(first + second == first);
    } else {
        law_content_text_is_that_of_its_parts(first, second.drop_last());
        assert((first + second).drop_last() == first + second.drop_last());
    }
}

/// The text of reasoning is that of its segments, one behind the other and with
/// nothing between them.
pub proof fn law_reasoning_text_is_that_of_its_segments(
    first: Seq<ReasoningItemContent>,
    second: Seq<ReasoningItemContent>,
)
    ensures
        segments_text(Seq::empty()) == Seq::<char>::empty(),
        segments_text(first + second) == segments_text(first) + segments_text(second),
        first.len() == 1 && first[0] is ReasoningText ==> segments_text(first)
            == first[0]->ReasoningText_text@,
        first.len() == 1 && first[0] is Text ==> segments_text(first) == first[0]->Text_text@,
    decreases second.len(),
{
    reveal_with_fuel(segments_text, 2);
    if second.len() == 0 {
        assert(first + second == first);
    } else {
        law_reasoning_text_is_that_of_its_segments(first, second.drop_last());
        assert((first + second).drop_last() == first + second.drop_last());
    }
}

/// A text is blank if and only if both parts of it are, wherever it is cut. The
/// empty text is, and a single character is if and only if it is white space;
/// no printable ASCII character but the space is.
pub proof fn law_blank_text_is_blank_in_every_part(first: Seq<char>, second: Seq<char>)
    ensures
        is_blank_text(Seq::empty()),
        is_blank_text(first + second) <==> is_blank_text(first) && is_blank_text(second),
        first.len() == 1 ==> (is_blank_text(first) <==> is_white_space(first[0])),
        first.len() == 1 && (first[0] == ' ' || first[0] == '\t' || first[0] == '\n' || first[0]
            == '\r') ==> is_blank_text(first),
        first.len() == 1 && '!' <= first[0] <= '~' ==> !is_blank_text(first),
{
    let whole = first + second;
    if is_blank_text(whole) {
        assert forall|i: int| 0 <= i < first.len() implies is_white_space(#[trigger] first[i]) by {
            assert(whole[i] == first[i]);
        }
        assert forall|i: int| 0 <= i < second.len() implies is_white_space(
            #[trigger] second[i],
        ) by {
            assert(whole[first.len() + i] == second[i]);
        }
    }
    if first.len() == 1 && is_blank_text(first) {
        assert(is_white_space(first[0]));
    }
}

} // verus!
