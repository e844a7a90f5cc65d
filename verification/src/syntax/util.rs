//! The brackets that pair up: `(` with `)`, `[` with `]`, `{` with `}`.

use vstd::prelude::*;

verus! {

/// The bracket that pairs with `c`, where `c` is a bracket.
pub open spec fn counterpart(c: char) -> Option<char> {
    if c == '{' {
        Some('}')
    } else if c == '}' {
        Some('{')
    } else if c == '(' {
        Some(')')
    } else if c == ')' {
        Some('(')
    } else if c == '[' {
        Some(']')
    } else if c == ']' {
        Some('[')
    } else {
        None
    }
}

/// Whether the bracket `c` opens a pair (`true`) or closes one (`false`).
pub open spec fn opens_pair(c: char) -> Option<bool> {
    if c == '{' || c == '(' || c == '[' {
        Some(true)
    } else if c == '}' || c == ')' || c == ']' {
        Some(false)
    } else {
        None
    }
}

/// The bracket that pairs with `c`, or `None` where `c` is no bracket.
pub fn matching_char(c: char) -> (r: Option<char>)
    ensures
        r == counterpart(c),
{
    Some(
        match c {
            '{' => '}',
            '}' => '{',
            '(' => ')',
            ')' => '(',
            '[' => ']',
            ']' => '[',
            _ => return None,
        },
    )
}

/// Whether the bracket `c` opens a pair (`true`) or closes one (`false`),
/// or `None` where `c` is no bracket.
pub fn matching_pair_direction(c: char) -> (r: Option<bool>)
    ensures
        r == opens_pair(c),
{
    Some(
        match c {
            '{' => true,
            '}' => false,
            '(' => true,
            ')' => false,
            '[' => true,
            ']' => false,
            _ => return None,
        },
    )
}

/// The two brackets of a pair differ, each is the counterpart of the other,
/// and one of them opens the pair while the other closes it.
pub proof fn lemma_pairs(c: char)
    ensures
        counterpart(c) is Some <==> opens_pair(c) is Some,
        counterpart(c) matches Some(other) ==> other != c && counterpart(other) == Some(c)
            && opens_pair(other) == Some(!opens_pair(c)->0),
{
}

} // verus!
