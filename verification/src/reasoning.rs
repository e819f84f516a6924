use crate::models::{ReasoningItemContent, ResponseItem};
use crate::text::{is_blank, same_text};
#[allow(unused_imports)]
use crate::text::is_blank_text;
use std::collections::HashMap;
use vstd::prelude::*;

verus! {

/// A message under the given role.
pub open spec fn is_message_of(item: ResponseItem, role: Seq<char>) -> bool {
    match item {
        ResponseItem::Message { role: r, .. } => r@ == role,
        _ => false,
    }
}

/// The role under which an item is sent, for the items that can end a turn.
pub open spec fn emitted_role(item: ResponseItem) -> Option<Seq<char>> {
    match item {
        ResponseItem::Message { role, .. } => Some(role@),
        ResponseItem::FunctionCall { .. } | ResponseItem::LocalShellCall { .. } => Some(
            "assistant"@,
        ),
        ResponseItem::FunctionCallOutput { .. } => Some("tool"@),
        _ => None,
    }
}

/// The role of the last item that has one.
pub open spec fn last_role(items: Seq<ResponseItem>) -> Option<Seq<char>>
    decreases items.len(),
{
    if items.len() == 0 {
        None
    } else {
        match emitted_role(items.last()) {
            Some(role) => Some(role),
            None => last_role(items.drop_last()),
        }
    }
}

/// The position of the last message of the user.
pub open spec fn last_user(items: Seq<ResponseItem>) -> Option<int>
    decreases items.len(),
{
    if items.len() == 0 {
        None
    } else if is_message_of(items.last(), "user"@) {
        Some(items.len() - 1)
    } else {
        last_user(items.drop_last())
    }
}

/// The text of one segment of reasoning.
pub open spec fn segment_text(segment: ReasoningItemContent) -> Seq<char> {
    match segment {
        ReasoningItemContent::ReasoningText { text } => text@,
        ReasoningItemContent::Text { text } => text@,
    }
}

/// The segments of reasoning put together.
pub open spec fn segments_text(segments: Seq<ReasoningItemContent>) -> Seq<char>
    decreases segments.len(),
{
    if segments.len() == 0 {
        Seq::empty()
    } else {
        segments_text(segments.drop_last()) + segment_text(segments.last())
    }
}

/// The reasoning that an item holds, unless it is blank.
pub open spec fn reasoning_text(item: ResponseItem) -> Option<Seq<char>> {
    match item {
        ResponseItem::Reasoning { content: Some(segments) } => {
            if is_blank_text(segments_text(segments@)) {
                None
            } else {
                Some(segments_text(segments@))
            }
        },
        _ => None,
    }
}

/// Whether the item at a position belongs to the turn that is still open: it
/// comes after the last message of the user, and the history does not end with
/// the user.
pub open spec fn in_open_turn(items: Seq<ResponseItem>, i: int) -> bool {
    &&& 0 <= i < items.len()
    &&& last_role(items) != Some("user"@)
    &&& match last_user(items) {
        Some(u) => u < i,
        None => true,
    }
}

/// The items that reasoning right before them belongs to.
pub open spec fn takes_reasoning_before(item: ResponseItem) -> bool {
    item is FunctionCall || item is LocalShellCall || is_message_of(item, "assistant"@)
}

/// The position of the item that reasoning at position `i` belongs to: an
/// assistant message right before it, or else a call or an assistant message
/// right after it.
pub open spec fn anchor(items: Seq<ResponseItem>, i: int) -> Option<int> {
    if 0 < i <= items.len() && is_message_of(items[i - 1], "assistant"@) {
        Some(i - 1)
    } else if 0 <= i + 1 < items.len() && takes_reasoning_before(items[i + 1]) {
        Some(i + 1)
    } else {
        None
    }
}

/// What the item at position `i` contributes to the reasoning of the item at
/// position `k`.
pub open spec fn contribution(items: Seq<ResponseItem>, i: int, k: int) -> Option<Seq<char>> {
    if in_open_turn(items, i) && anchor(items, i) == Some(k) {
        reasoning_text(items[i])
    } else {
        None
    }
}

/// Two optional texts, one after the other.
pub open spec fn join_texts(
    first: Option<Seq<char>>,
    second: Option<Seq<char>>,
) -> Option<Seq<char>> {
    match (first, second) {
        (Some(a), Some(b)) => Some(a + b),
        (Some(a), None) => Some(a),
        (None, b) => b,
    }
}

/// The reasoning that is sent along with the item at position `k`: what the
/// items right before and right after it contribute.
pub open spec fn reasoning_at(items: Seq<ResponseItem>, k: int) -> Option<Seq<char>> {
    join_texts(contribution(items, k - 1, k), contribution(items, k + 1, k))
}

/// The part of `reasoning_at` that the first `n` items contribute.
spec fn reasoning_from(items: Seq<ResponseItem>, k: int, n: int) -> Option<Seq<char>> {
    join_texts(
        if k - 1 < n {
            contribution(items, k - 1, k)
        } else {
            None
        },
        if k + 1 < n {
            contribution(items, k + 1, k)
        } else {
            None
        },
    )
}

/// The text that a map holds for a position.
pub open spec fn text_at(texts: Map<usize, String>, k: usize) -> Option<Seq<char>> {
    if texts.contains_key(k) {
        Some(texts[k]@)
    } else {
        None
    }
}

/// Whether an item is a message under the given role.
pub(crate) fn has_role(item: &ResponseItem, role: &str) -> (found: bool)
    ensures
        found == is_message_of(*item, role@),
{
    match item {
        ResponseItem::Message { role: r, .. } => same_text(r.as_str(), role),
        _ => false,
    }
}

/// The role of the last item of the history that has one.
pub fn last_emitted_role(input: &[ResponseItem]) -> (role: Option<&str>)
    ensures
        match role {
            Some(r) => last_role(input@) == Some(r@),
            None => last_role(input@) is None,
        },
{
    let mut role: Option<&str> = None;
    for idx in 0..input.len()
        invariant
            match role {
                Some(r) => last_role(input@.take(idx as int)) == Some(r@),
                None => last_role(input@.take(idx as int)) is None,
            },
    {
        assert(input@.take(idx + 1).drop_last() == input@.take(idx as int));
        match &input[idx] {
            ResponseItem::Message { role: r, .. } => {
                role = Some(r.as_str());
            },
            ResponseItem::FunctionCall { .. } | ResponseItem::LocalShellCall { .. } => {
                role = Some("assistant");
            },
            ResponseItem::FunctionCallOutput { .. } => {
                role = Some("tool");
            },
            _ => {},
        }
    }
    assert(input@.take(input@.len() as int) == input@);
    role
}

/// The position of the last message of the user.
pub fn last_user_index(input: &[ResponseItem]) -> (index: Option<usize>)
    ensures
        match index {
            Some(i) => last_user(input@) == Some(i as int),
            None => last_user(input@) is None,
        },
{
    let mut index: Option<usize> = None;
    for idx in 0..input.len()
        invariant
            match index {
                Some(i) => last_user(input@.take(idx as int)) == Some(i as int),
                None => last_user(input@.take(idx as int)) is None,
            },
    {
        assert(input@.take(idx + 1).drop_last() == input@.take(idx as int));
        if has_role(&input[idx], "user") {
            index = Some(idx);
        }
    }
    assert(input@.take(input@.len() as int) == input@);
    index
}

/// Puts the segments of reasoning together.
pub fn join_segments(segments: &Vec<ReasoningItemContent>) -> (text: String)
    ensures
        text@ == segments_text(segments@),
{
    let mut text = String::new();
    for idx in 0..segments.len()
        invariant
            text@ == segments_text(segments@.take(idx as int)),
    {
        assert(segments@.take(idx + 1).drop_last() == segments@.take(idx as int));
        match &segments[idx] {
            ReasoningItemContent::ReasoningText { text: segment } => text.append(segment.as_str()),
            ReasoningItemContent::Text { text: segment } => text.append(segment.as_str()),
        }
    }
    assert(segments@.take(segments@.len() as int) == segments@);
    text
}

/// Appends a text to what a map holds for a position.
fn append_text(texts: &mut HashMap<usize, String>, position: usize, text: &str)
    ensures
        forall|k: usize| #[trigger]
            text_at(final(texts)@, k) == if k == position {
                join_texts(text_at(old(texts)@, k), Some(text@))
            } else {
                text_at(old(texts)@, k)
            },
{
    let mut joined = match texts.remove(&position) {
        Some(existing) => existing,
        None => String::new(),
    };
    joined.append(text);
    texts.insert(position, joined);
    assert(Seq::<char>::empty() + text@ == text@);
}

/// Finds the item of the history that each piece of reasoning belongs to, and
/// puts together what belongs to the same item.
pub fn collect_reasoning(input: &[ResponseItem]) -> (texts: HashMap<usize, String>)
    ensures
        forall|k: usize| #[trigger] text_at(texts@, k) == reasoning_at(input@, k as int),
        forall|k: usize| #[trigger]
            texts@.contains_key(k) <==> reasoning_at(input@, k as int) is Some,
        forall|k: usize| #[trigger]
            texts@.contains_key(k) ==> reasoning_at(input@, k as int) == Some(texts@[k]@),
{
    let mut texts: HashMap<usize, String> = HashMap::new();
    if let Some(role) = last_emitted_role(input) {
        if same_text(role, "user") {
            return texts;
        }
    }
    let last_user_index = last_user_index(input);
    for idx in 0..input.len()
        invariant
            last_role(input@) != Some("user"@),
            match last_user_index {
                Some(i) => last_user(input@) == Some(i as int),
                None => last_user(input@) is None,
            },
            forall|k: usize| #[trigger]
                text_at(texts@, k) == reasoning_from(input@, k as int, idx as int),
    {
        let before_last_user = match last_user_index {
            Some(u) => idx <= u,
            None => false,
        };
        if !before_last_user {
            if let ResponseItem::Reasoning { content: Some(segments) } = &input[idx] {
                let text = join_segments(segments);
                if !is_blank(text.as_str()) {
                    if idx > 0 && has_role(&input[idx - 1], "assistant") {
                        append_text(&mut texts, idx - 1, text.as_str());
                    } else if idx + 1 < input.len() {
                        let anchored = match &input[idx + 1] {
                            ResponseItem::FunctionCall { .. } => true,
                            ResponseItem::LocalShellCall { .. } => true,
                            _ => has_role(&input[idx + 1], "assistant"),
                        };
                        if anchored {
                            append_text(&mut texts, idx + 1, text.as_str());
                        }
                    }
                }
            }
        }
    }
    assert forall|k: usize| #[trigger] texts@.contains_key(k) implies reasoning_at(
        input@,
        k as int,
    ) == Some(texts@[k]@) by {
        assert(text_at(texts@, k) == reasoning_at(input@, k as int));
    }
    assert forall|k: usize| #[trigger] texts@.contains_key(k) <==> reasoning_at(
        input@,
        k as int,
    ) is Some by {
        assert(text_at(texts@, k) == reasoning_at(input@, k as int));
    }
    texts
}

} // verus!
