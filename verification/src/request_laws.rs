//! What the body and the headers of a request hold of what it is assembled from.
use crate::chat::RequestSettings;
use crate::headers::HeaderFields;
use crate::json::Json;
use crate::models::SessionSource;
#[allow(unused_imports)]
use crate::chat::request_body;
#[allow(unused_imports)]
use crate::headers::{
    is_header_name, is_header_value, lower_case, optional_string, session_fields, subagent_label,
    with_header,
};
#[allow(unused_imports)]
use crate::laws::{entry, is_field};
#[allow(unused_imports)]
use crate::message_laws::has_keys;
#[allow(unused_imports)]
use crate::messages::request_messages;
#[allow(unused_imports)]
use crate::tool_calls::optional_text;
use vstd::prelude::*;
#[allow(unused_imports)]
use vstd::utf8::encode_utf8;

verus! {

/// The body of a request holds the model, the messages and the tools that were
/// given, every one of the tools and in their order, asks for a stream, and
/// holds no more.
pub proof fn law_body_holds_what_was_given(settings: RequestSettings)
    ensures
        ({
            let body = request_body(settings);
            let tools = entry(body, "tools"@);
            &&& has_keys(body, set!["model"@, "messages"@, "stream"@, "tools"@])
            &&& entry(body, "model"@) == Json::String(settings.model)
            &&& entry(body, "messages"@) == Json::Array(
                request_messages(settings.instructions, settings.input),
            )
            &&& entry(body, "stream"@) == Json::Bool(true)
            &&& tools is Array
            &&& tools->Array_0.len() == settings.tools.len()
            &&& forall|i: int|
                0 <= i < settings.tools.len() ==> #[trigger] tools->Array_0[i] == settings.tools[i]
        }),
{
    reveal_strlit("model");
    reveal_strlit("messages");
    reveal_strlit("stream");
    reveal_strlit("tools");
    assert("model"@.len() == 5);
    assert("messages"@.len() == 8);
    assert("stream"@.len() == 6);
    assert("tools"@.len() == 5);
    assert("model"@[0] == 'm');
    assert("tools"@[0] == 't');
    assert(has_keys(
        request_body(settings),
        set!["model"@, "messages"@, "stream"@, "tools"@],
    ));
}

/// The body depends on the model, the instructions, the history and the tools
/// alone: who asks makes no difference to it.
pub proof fn law_body_is_independent_of_the_session(
    settings: RequestSettings,
    others: RequestSettings,
)
    requires
        settings.model == others.model,
        settings.instructions == others.instructions,
        settings.input == others.input,
        settings.tools == others.tools,
    ensures
        request_body(settings) == request_body(others),
{
}

/// The headers of a session are its id and that of its thread, each independent
/// of the other, and no more.
pub proof fn law_session_headers_are_independent(
    session_id: Option<Seq<char>>,
    thread_id: Option<Seq<char>>,
)
    ensures
        is_field(session_fields(session_id, thread_id), "session-id"@, session_id),
        is_field(session_fields(session_id, thread_id), "thread-id"@, thread_id),
        forall|name: Seq<char>| #[trigger]
            session_fields(session_id, thread_id).contains_key(name) ==> name == "session-id"@
                || name == "thread-id"@,
{
    reveal_strlit("session-id");
    reveal_strlit("thread-id");
    assert("session-id"@.len() == 10);
    assert("thread-id"@.len() == 9);
}

/// A header that is set has the given value alone, under its name in lower case,
/// and every other name keeps what it had. Nothing changes where the name or the
/// value is none that a header can have.
pub proof fn law_header_sets_one_name(
    fields: HeaderFields,
    name: Seq<char>,
    value: Seq<char>,
    other: Seq<char>,
)
    ensures
        ({
            let after = with_header(fields, name, value);
            let key = name.map_values(|c: char| lower_case(c));
            &&& is_header_name(name) && is_header_value(value) ==> after.contains_key(key)
                && after[key].len() == 1 && after[key][0] == encode_utf8(value)
            &&& !is_header_name(name) || !is_header_value(value) ==> after == fields
            &&& other != key ==> after.contains_key(other) == fields.contains_key(other)
            &&& other != key && fields.contains_key(other) ==> after[other] == fields[other]
        }),
{
}

/// A text can be the value of a header if and only if both parts of it can,
/// wherever it is cut. The empty text can, and so can a single character that is
/// no ASCII control character, or is the tab.
pub proof fn law_header_value_is_one_in_every_part(first: Seq<char>, second: Seq<char>)
    ensures
        is_header_value(Seq::empty()),
        is_header_value(first + second) <==> is_header_value(first) && is_header_value(second),
        first.len() == 1 ==> (is_header_value(first) <==> first[0] as u32 == 9 || (32
            <= first[0] as u32 && first[0] as u32 != 127)),
{
    let whole = first + second;
    if is_header_value(whole) {
        assert forall|i: int| 0 <= i < first.len() implies ((#[trigger] first[i]) as u32 >= 32
            && first[i] as u32 != 127) || first[i] as u32 == 9 by {
            assert(whole[i] == first[i]);
        }
        assert forall|i: int| 0 <= i < second.len() implies ((#[trigger] second[i]) as u32 >= 32
            && second[i] as u32 != 127) || second[i] as u32 == 9 by {
            assert(whole[first.len() + i] == second[i]);
        }
    }
    if first.len() == 1 && is_header_value(first) {
        let c = first[0];
        assert((c as u32 >= 32 && c as u32 != 127) || c as u32 == 9);
    }
}

/// A session is reported as a subagent if and only if it has the label of one,
/// and then under that label.
pub proof fn law_subagent_is_its_label(source: Option<SessionSource>)
    ensures
        subagent_label(source) is Some <==> source is Some && source->0.subagent is Some,
        subagent_label(source) is Some ==> subagent_label(source)->0 == source->0.subagent->0@,
{
}

/// A text that may be missing is missing where it is, and is the same text where
/// it is not.
pub proof fn law_optional_text_is_kept(text: Option<&str>, string: Option<String>)
    ensures
        optional_text(text) is Some <==> text is Some,
        text is Some ==> optional_text(text)->0 == text->0@,
        optional_string(string) is Some <==> string is Some,
        string is Some ==> optional_string(string)->0 == string->0@,
{
}

} // verus!
