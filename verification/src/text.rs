use vstd::prelude::*;

verus! {

/// The characters with the Unicode property White_Space.
pub open spec fn is_white_space(c: char) -> bool {
    let code = c as u32;
    ||| 0x09 <= code <= 0x0d
    ||| code == 0x20
    ||| code == 0x85
    ||| code == 0xa0
    ||| code == 0x1680
    ||| 0x2000 <= code <= 0x200a
    ||| code == 0x2028
    ||| code == 0x2029
    ||| code == 0x202f
    ||| code == 0x205f
    ||| code == 0x3000
}

/// A text without a character other than white space.
pub open spec fn is_blank_text(text: Seq<char>) -> bool {
    forall|i: int| 0 <= i < text.len() ==> is_white_space(#[trigger] text[i])
}

/// `part` is `text` from position `start` up to position `end`, and what lies
/// outside of it is exactly the white space at both ends of `text`.
pub open spec fn is_trimmed_at(text: Seq<char>, part: Seq<char>, start: int, end: int) -> bool {
    &&& 0 <= start <= end <= text.len()
    &&& part == text.subrange(start, end)
    &&& forall|i: int|
        0 <= i < text.len() && !(start <= i < end) ==> is_white_space(#[trigger] text[i])
    &&& part.len() > 0 ==> !is_white_space(part.first()) && !is_white_space(part.last())
}

/// `str::trim`: the string without the white space at its start and at its end,
/// where white space is what has the Unicode property White_Space.
#[verifier::external_body]
pub(crate) fn trim(text: &str) -> (part: &str)
    ensures
        exists|start: int, end: int| is_trimmed_at(text@, part@, start, end),
{
    text.trim()
}

/// `==` on `str`: two strings are equal if and only if they hold the same
/// characters.
#[verifier::external_body]
pub(crate) fn same_text(left: &str, right: &str) -> (same: bool)
    ensures
        same == (left@ == right@),
{
    left == right
}

/// Whether a text holds nothing but white space.
pub fn is_blank(text: &str) -> (blank: bool)
    ensures
        blank == is_blank_text(text@),
{
    let part = trim(text);
    proof {
        let (start, end) = choose|start: int, end: int|
            is_trimmed_at(text@, part@, start, end);
        assert(is_trimmed_at(text@, part@, start, end));
        if part@.len() > 0 {
            assert(text@[start] == part@.first());
        }
    }
    part.is_empty()
}

} // verus!
