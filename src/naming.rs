use vstd::prelude::*;

use case::CaseExt;

verus! {

/// Whether `c` is an ASCII capital letter.
pub open spec fn is_upper(c: char) -> bool {
    'A' <= c && c <= 'Z'
}

/// The ASCII lower case of a capital letter; other characters are kept.
pub open spec fn lower(c: char) -> char {
    if is_upper(c) {
        ((c as u32) + 32) as char
    } else {
        c
    }
}

/// What one character becomes in snake case: a capital letter is lowered and,
/// unless it comes first, preceded by an underscore.
pub open spec fn snake_char(c: char, first: bool) -> Seq<char> {
    if is_upper(c) {
        if first {
            seq![lower(c)]
        } else {
            seq!['_', lower(c)]
        }
    } else {
        seq![c]
    }
}

/// The snake case form of a name, character by character.
pub open spec fn snake_case(s: Seq<char>) -> Seq<char>
    decreases s.len(),
{
    if s.len() == 0 {
        Seq::empty()
    } else {
        snake_case(s.drop_last()) + snake_char(s.last(), s.len() == 1)
    }
}

/// Relies on case::CaseExt::to_snake: each ASCII capital letter is lowered, and
/// every one but a leading one gets an underscore before it.
#[verifier::external_body]
pub(crate) fn to_snake(s: &str) -> (r: String)
    ensures
        r@ == snake_case(s@),
{
    s.to_snake()
}


} // verus!
