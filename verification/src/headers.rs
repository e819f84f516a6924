use crate::models::SessionSource;
use http::header::{HeaderMap, HeaderName, HeaderValue, InvalidHeaderName, InvalidHeaderValue};
use std::str::FromStr;
use vstd::prelude::*;
#[allow(unused_imports)]
use vstd::utf8::encode_utf8;

verus! {

/// Header fields: under each name in lower case, the bytes of its values.
pub type HeaderFields = Map<Seq<char>, Seq<Seq<u8>>>;

/// A map of HTTP headers.
#[verifier::external_type_specification]
#[verifier::external_body]
#[verifier::reject_recursive_types(T)]
pub struct ExHeaderMap<T>(http::header::HeaderMap<T>);

/// The name of an HTTP header.
#[verifier::external_type_specification]
#[verifier::external_body]
pub struct ExHeaderName(http::header::HeaderName);

/// The value of an HTTP header.
#[verifier::external_type_specification]
#[verifier::external_body]
pub struct ExHeaderValue(http::header::HeaderValue);

/// The error for a text that is no header name.
#[verifier::external_type_specification]
#[verifier::external_body]
pub struct ExInvalidHeaderName(http::header::InvalidHeaderName);

/// The error for a text that is no header value.
#[verifier::external_type_specification]
#[verifier::external_body]
pub struct ExInvalidHeaderValue(http::header::InvalidHeaderValue);

/// The fields that a map of headers holds.
pub uninterp spec fn header_fields(headers: HeaderMap<HeaderValue>) -> HeaderFields;

/// The characters of a header name, in lower case.
pub uninterp spec fn header_name_text(name: HeaderName) -> Seq<char>;

/// The bytes of a header value.
pub uninterp spec fn header_value_bytes(value: HeaderValue) -> Seq<u8>;

/// The characters of which a header name may be made.
pub open spec fn is_name_char(c: char) -> bool {
    ||| 'a' <= c <= 'z'
    ||| 'A' <= c <= 'Z'
    ||| '0' <= c <= '9'
    ||| c == '!' || c == '#' || c == '$' || c == '%' || c == '&' || c == '\''
    ||| c == '*' || c == '+' || c == '-' || c == '.'
    ||| c == '^' || c == '_' || c == '`' || c == '|' || c == '~'
}

/// A text that can name a header.
pub open spec fn is_header_name(text: Seq<char>) -> bool {
    &&& 0 < text.len() <= 65535
    &&& forall|i: int| 0 <= i < text.len() ==> is_name_char(#[trigger] text[i])
}

/// A letter in lower case; any other character as it is.
pub open spec fn lower_case(c: char) -> char {
    if 'A' <= c <= 'Z' {
        (c as u32 + 32) as char
    } else {
        c
    }
}

/// A text that can be the value of a header: no control character but the tab.
pub open spec fn is_header_value(text: Seq<char>) -> bool {
    forall|i: int|
        0 <= i < text.len() ==> ((#[trigger] text[i]) as u32 >= 32 && text[i] as u32 != 127)
            || text[i] as u32 == 9
}

/// `http::HeaderMap::new`: the map has no fields.
#[verifier::external_body]
fn headers_new() -> (headers: HeaderMap<HeaderValue>)
    ensures
        header_fields(headers) == HeaderFields::empty(),
{
    HeaderMap::new()
}

/// `http::HeaderName::from_str`: succeeds if and only if the text can name a
/// header, and gives the name in lower case.
#[verifier::external_body]
fn parse_header_name(text: &str) -> (name: Result<HeaderName, InvalidHeaderName>)
    ensures
        name is Ok <==> is_header_name(text@),
        name matches Ok(n) ==> header_name_text(n) == text@.map_values(|c: char| lower_case(c)),
{
    HeaderName::from_str(text)
}

/// `http::HeaderValue::from_str`: succeeds if and only if the text can be the
/// value of a header, and gives the value with the bytes of the text.
#[verifier::external_body]
fn parse_header_value(text: &str) -> (value: Result<HeaderValue, InvalidHeaderValue>)
    ensures
        value is Ok <==> is_header_value(text@),
        value matches Ok(v) ==> header_value_bytes(v) == encode_utf8(text@),
{
    HeaderValue::from_str(text)
}

/// `http::HeaderMap::insert`: the name has the value as its only one, every
/// other name keeps its values, and the first value that the name had before is
/// handed back. The insertion panics where the map would have to grow past its
/// largest table, which a map with fewer than 6554 names never has to.
#[verifier::external_body]
fn headers_insert(
    headers: &mut HeaderMap<HeaderValue>,
    name: HeaderName,
    value: HeaderValue,
) -> (previous: Option<HeaderValue>)
    requires
        header_fields(*old(headers)).dom().finite(),
        header_fields(*old(headers)).dom().len() < 6554,
    ensures
        header_fields(*final(headers)) == header_fields(*old(headers)).insert(
            header_name_text(name),
            seq![header_value_bytes(value)],
        ),
        match previous {
            Some(v) => header_fields(*old(headers)).contains_key(header_name_text(name))
                && header_value_bytes(v) == header_fields(*old(headers))[header_name_text(
                name,
            )].first(),
            None => !header_fields(*old(headers)).contains_key(header_name_text(name)),
        },
{
    headers.insert(name, value)
}

/// The fields after a header was set: a text that cannot be the value of a
/// header, or a name that cannot name one, sets nothing.
pub open spec fn with_header(
    fields: HeaderFields,
    name: Seq<char>,
    value: Seq<char>,
) -> HeaderFields {
    if is_header_name(name) && is_header_value(value) {
        fields.insert(name.map_values(|c: char| lower_case(c)), seq![encode_utf8(value)])
    } else {
        fields
    }
}

/// Sets a header, where name and value are valid.
pub(crate) fn insert_header(headers: &mut HeaderMap<HeaderValue>, name: &str, value: &str)
    requires
        header_fields(*old(headers)).dom().finite(),
        header_fields(*old(headers)).dom().len() < 6554,
    ensures
        header_fields(*final(headers)) == with_header(header_fields(*old(headers)), name@, value@),
{
    if let Ok(header_name) = parse_header_name(name) {
        if let Ok(header_value) = parse_header_value(value) {
            headers_insert(headers, header_name, header_value);
        }
    }
}

/// The fields after an optional value was set under a name that is valid and in
/// lower case: a value that no header can have is left out.
pub open spec fn set_field(
    fields: HeaderFields,
    name: Seq<char>,
    value: Option<Seq<char>>,
) -> HeaderFields {
    match value {
        Some(text) if is_header_value(text) => fields.insert(name, seq![encode_utf8(text)]),
        _ => fields,
    }
}

/// The names under which a request identifies itself are valid header names in
/// lower case.
pub(crate) proof fn lemma_field_names(fields: HeaderFields, value: Seq<char>)
    ensures
        with_header(fields, "session-id"@, value) == set_field(fields, "session-id"@, Some(value)),
        with_header(fields, "thread-id"@, value) == set_field(fields, "thread-id"@, Some(value)),
        with_header(fields, "x-openai-subagent"@, value) == set_field(
            fields,
            "x-openai-subagent"@,
            Some(value),
        ),
{
    reveal_strlit("session-id");
    reveal_strlit("thread-id");
    reveal_strlit("x-openai-subagent");
    assert("session-id"@.map_values(|c: char| lower_case(c)) == "session-id"@);
    assert("thread-id"@.map_values(|c: char| lower_case(c)) == "thread-id"@);
    assert("x-openai-subagent"@.map_values(|c: char| lower_case(c)) == "x-openai-subagent"@);
}

/// The characters of an optional string.
pub open spec fn optional_string(text: Option<String>) -> Option<Seq<char>> {
    match text {
        Some(t) => Some(t@),
        None => None,
    }
}

/// The fields that identify a session and a thread.
pub open spec fn session_fields(
    session_id: Option<Seq<char>>,
    thread_id: Option<Seq<char>>,
) -> HeaderFields {
    set_field(
        set_field(HeaderFields::empty(), "session-id"@, session_id),
        "thread-id"@,
        thread_id,
    )
}

/// The headers that identify a session and a thread.
pub fn build_session_headers(session_id: Option<String>, thread_id: Option<String>) -> (headers:
    HeaderMap<HeaderValue>)
    ensures
        header_fields(headers) == session_fields(
            optional_string(session_id),
            optional_string(thread_id),
        ),
{
    let mut headers = headers_new();
    if let Some(id) = session_id {
        proof {
            lemma_field_names(header_fields(headers), id@);
        }
        insert_header(&mut headers, "session-id", id.as_str());
    }
    if let Some(id) = thread_id {
        proof {
            lemma_field_names(header_fields(headers), id@);
        }
        insert_header(&mut headers, "thread-id", id.as_str());
    }
    headers
}

/// The label of the subagent that a session runs as, if it is one.
pub open spec fn subagent_label(source: Option<SessionSource>) -> Option<Seq<char>> {
    match source {
        Some(s) => optional_string(s.subagent),
        None => None,
    }
}

/// The label that a session reports as its subagent, if it runs as one.
pub fn subagent_header(source: &Option<SessionSource>) -> (label: Option<String>)
    ensures
        optional_string(label) == subagent_label(*source),
{
    match source {
        Some(s) => match &s.subagent {
            Some(label) => Some(label.clone()),
            None => None,
        },
        None => None,
    }
}

} // verus!
