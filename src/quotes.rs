//! Textual post-processing of rendered values.
use vstd::prelude::*;

verus! {

/// True when `s` is at least two characters long and both its first and its
/// last character are `q`.
pub open spec fn wrapped_in(s: Seq<char>, q: char) -> bool {
    s.len() >= 2 && s[0] == q && s[s.len() - 1] == q
}

/// `s` without its first and last character.
pub open spec fn inner(s: Seq<char>) -> Seq<char> {
    s.subrange(1, s.len() - 1)
}

/// Removing one surrounding pair of double quotes.
pub open spec fn strip_double_spec(s: Seq<char>) -> Seq<char> {
    if wrapped_in(s, '"') {
        inner(s)
    } else {
        s
    }
}

/// Removing one surrounding pair of matching quotes, double or single.
pub open spec fn strip_any_spec(s: Seq<char>) -> Seq<char> {
    if wrapped_in(s, '"') || wrapped_in(s, '\'') {
        inner(s)
    } else {
        s
    }
}

fn wrapped(s: &str, q: char) -> (r: bool)
    ensures
        r == wrapped_in(s@, q),
{
    let n = s.unicode_len();
    n >= 2 && s.get_char(0) == q && s.get_char(n - 1) == q
}

/// Removes one pair of double quotes that surrounds the whole string; any
/// other string, single-quoted ones included, comes back unchanged.
pub fn strip_quotes(value: &str) -> (r: String)
    ensures
        r@ == strip_double_spec(value@),
{
    if wrapped(value, '"') {
        let n = value.unicode_len();
        String::from_str(value.substring_char(1, n - 1))
    } else {
        String::from_str(value)
    }
}

/// Removes one pair of matching quotes (`"` or `'`) that surrounds the whole
/// string; any other string comes back unchanged.
pub fn strip_quotes_internal(s: &str) -> (r: String)
    ensures
        r@ == strip_any_spec(s@),
{
    if wrapped(s, '"') || wrapped(s, '\'') {
        let n = s.unicode_len();
        String::from_str(s.substring_char(1, n - 1))
    } else {
        String::from_str(s)
    }
}

/// True when the string starts and ends with a double quote (a lone `"`
/// counts).
pub fn is_quoted_string(value: &str) -> (r: bool)
    ensures
        r == (value@.len() >= 1 && value@[0] == '"' && value@[value@.len() - 1] == '"'),
{
    let n = value.unicode_len();
    n >= 1 && value.get_char(0) == '"' && value.get_char(n - 1) == '"'
}

} // verus!
