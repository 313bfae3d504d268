//! Turning raw text and an optional type hint into a scalar value.
use vstd::prelude::*;

use crate::error::{Fault, TomlExtractError};
use crate::number::{
    all_digits, decimal_value, digit_value, digits_value, i64_text_value, is_digit, parse_i64,
    without_sign,
};
use crate::quotes::strip_any_spec;
use crate::value::{Node, Value};

verus! {

/// `c` is the lower-case ASCII letter `lower` or its upper-case form.
pub open spec fn same_letter(c: char, lower: char) -> bool {
    c == lower || ('A' <= c && c <= 'Z' && (c as u32) + 32 == (lower as u32))
}

/// `s` spells the lower-case word `w`, ignoring ASCII case.
pub open spec fn spells(s: Seq<char>, w: Seq<char>) -> bool {
    s.len() == w.len() && forall|i: int| 0 <= i < s.len() ==> same_letter(#[trigger] s[i], w[i])
}

/// `true` or `false`, in any ASCII case.
pub open spec fn bool_word(s: Seq<char>) -> Option<bool> {
    if spells(s, "true"@) {
        Some(true)
    } else if spells(s, "false"@) {
        Some(false)
    } else {
        None
    }
}

/// Automatic typing: an integer if the text reads as one, else a float if it
/// reads as one (`float` holds the bits of that reading), else a boolean if
/// it is `true` or `false` in any case, else the text itself.
pub open spec fn auto_spec(raw: Seq<char>, float: Option<u64>) -> Node {
    match i64_text_value(raw) {
        Some(v) => Node::Int(v as i64),
        None => match float {
            Some(b) => Node::Float(b),
            None => match bool_word(raw) {
                Some(b) => Node::Bool(b),
                None => Node::Str(raw),
            },
        },
    }
}

/// The value that `raw` denotes under the type hint `hint`. `float` is what
/// reading `raw` as a binary64 float gives, as bits, if it reads as one.
/// The hint `null`, and any hint not named here, gives the empty string.
pub open spec fn coerce_spec(raw: Seq<char>, hint: Option<Seq<char>>, float: Option<u64>) -> Result<
    Node,
    Fault,
> {
    match hint {
        None => Ok(auto_spec(raw, float)),
        Some(h) => if h == "string"@ {
            Ok(Node::Str(raw))
        } else if h == "integer"@ {
            match i64_text_value(raw) {
                Some(v) => Ok(Node::Int(v as i64)),
                None => Err(Fault::InvalidValueType(raw)),
            }
        } else if h == "float"@ {
            match float {
                Some(b) => Ok(Node::Float(b)),
                None => Err(Fault::InvalidValueType(raw)),
            }
        } else if h == "boolean"@ {
            match bool_word(raw) {
                Some(b) => Ok(Node::Bool(b)),
                None => Err(Fault::InvalidValueType(raw)),
            }
        } else {
            Ok(Node::Str(Seq::empty()))
        },
    }
}

/// The model of an optional type hint.
pub open spec fn hint_view(h: Option<&str>) -> Option<Seq<char>> {
    match h {
        Some(s) => Some(s@),
        None => None,
    }
}

/// Compares two strings character by character.
pub fn str_eq(a: &str, b: &str) -> (r: bool)
    ensures
        r == (a@ == b@),
{
    let n = a.unicode_len();
    if n != b.unicode_len() {
        return false;
    }
    let mut i: usize = 0;
    while i < n
        invariant
            i <= n,
            n == a@.len(),
            n == b@.len(),
            forall|k: int| 0 <= k < i ==> a@[k] == b@[k],
        decreases n - i,
    {
        if a.get_char(i) != b.get_char(i) {
            return false;
        }
        i = i + 1;
    }
    assert(a@ =~= b@);
    true
}

fn spells_word(s: &str, w: &str) -> (r: bool)
    ensures
        r == spells(s@, w@),
{
    let n = s.unicode_len();
    if n != w.unicode_len() {
        return false;
    }
    let mut i: usize = 0;
    while i < n
        invariant
            i <= n,
            n == s@.len(),
            n == w@.len(),
            forall|k: int| 0 <= k < i ==> same_letter(#[trigger] s@[k], w@[k]),
        decreases n - i,
    {
        let c = s.get_char(i);
        let l = w.get_char(i);
        if !(c == l || ('A' <= c && c <= 'Z' && (c as u32) + 32 == (l as u32))) {
            return false;
        }
        i = i + 1;
    }
    true
}

fn read_bool(s: &str) -> (r: Option<bool>)
    ensures
        r == bool_word(s@),
{
    if spells_word(s, "true") {
        Some(true)
    } else if spells_word(s, "false") {
        Some(false)
    } else {
        None
    }
}

/// Types `value` automatically: integer, then float, then boolean, then
/// string. `float_bits` is what reading `value` as a binary64 float gives,
/// as bits, or `None` when it does not read as one.
pub fn auto_parse_value(value: &str, float_bits: Option<u64>) -> (r: Result<
    Value,
    TomlExtractError,
>)
    ensures
        r is Ok,
        r->Ok_0@ == auto_spec(value@, float_bits),
{
    match parse_i64(value) {
        Some(v) => Ok(Value::Integer(v)),
        None => match float_bits {
            Some(b) => Ok(Value::Float(b)),
            None => match read_bool(value) {
                Some(b) => Ok(Value::Boolean(b)),
                None => Ok(Value::String(String::from_str(value))),
            },
        },
    }
}

/// Turns `value` into a typed value as `value_type` asks: `string`,
/// `integer`, `float`, `boolean`, `null`, or `None` for automatic typing.
/// `float_bits` is what reading `value` as a binary64 float gives, as bits,
/// or `None` when it does not read as one.
///
/// Fails with `InvalidValueType` when the text does not read as the integer,
/// float or boolean asked for. `null` and unknown hints give the empty
/// string.
pub fn parse_value_with_type(value: &str, value_type: Option<&str>, float_bits: Option<u64>) -> (r:
    Result<Value, TomlExtractError>)
    ensures
        match r {
            Ok(v) => coerce_spec(value@, hint_view(value_type), float_bits) == Ok::<_, Fault>(v@),
            Err(e) => coerce_spec(value@, hint_view(value_type), float_bits) == Err::<Node, _>(e@),
        },
{
    match value_type {
        None => auto_parse_value(value, float_bits),
        Some(h) => {
            if str_eq(h, "string") {
                Ok(Value::String(String::from_str(value)))
            } else if str_eq(h, "integer") {
                match parse_i64(value) {
                    Some(v) => Ok(Value::Integer(v)),
                    None => Err(TomlExtractError::InvalidValueType(String::from_str(value))),
                }
            } else if str_eq(h, "float") {
                match float_bits {
                    Some(b) => Ok(Value::Float(b)),
                    None => Err(TomlExtractError::InvalidValueType(String::from_str(value))),
                }
            } else if str_eq(h, "boolean") {
                match read_bool(value) {
                    Some(b) => Ok(Value::Boolean(b)),
                    None => Err(TomlExtractError::InvalidValueType(String::from_str(value))),
                }
            } else {
                Ok(Value::String(String::new()))
            }
        },
    }
}

/// The decimal digit for `d` in `0..10`.
pub open spec fn digit_char(d: int) -> char {
    seq!['0', '1', '2', '3', '4', '5', '6', '7', '8', '9'][d]
}

/// The decimal text of a natural number, without leading zeros.
pub open spec fn nat_text(n: nat) -> Seq<char>
    decreases n,
{
    if n < 10 {
        seq![digit_char(n as int)]
    } else {
        nat_text(n / 10).push(digit_char((n % 10) as int))
    }
}

/// The decimal text of an integer, as an integer value is printed.
pub open spec fn int_text(i: int) -> Seq<char> {
    if i < 0 {
        seq!['-'] + nat_text((-i) as nat)
    } else {
        nat_text(i as nat)
    }
}

/// The text of a boolean, as it is printed.
pub open spec fn bool_text(b: bool) -> Seq<char> {
    if b {
        "true"@
    } else {
        "false"@
    }
}

proof fn lemma_digit_char(d: int)
    requires
        0 <= d < 10,
    ensures
        is_digit(digit_char(d)),
        digit_value(digit_char(d)) == d,
{
    assert(('0' as u32) == 48 && ('1' as u32) == 49 && ('2' as u32) == 50 && ('3' as u32) == 51
        && ('4' as u32) == 52 && ('5' as u32) == 53 && ('6' as u32) == 54 && ('7' as u32) == 55
        && ('8' as u32) == 56 && ('9' as u32) == 57);
}

proof fn lemma_nat_text(n: nat)
    ensures
        nat_text(n).len() > 0,
        all_digits(nat_text(n)),
        digits_value(nat_text(n)) == n,
    decreases n,
{
    if n < 10 {
        lemma_digit_char(n as int);
        let t = nat_text(n);
        assert(t.drop_last() =~= Seq::<char>::empty());
        assert(digits_value(t.drop_last()) == 0);
        assert(digits_value(t) == digits_value(t.drop_last()) * 10 + digit_value(t.last()));
    } else {
        lemma_nat_text(n / 10);
        lemma_digit_char((n % 10) as int);
        let t = nat_text(n);
        let p = nat_text(n / 10);
        assert(t.drop_last() =~= p);
        assert(t.last() == digit_char((n % 10) as int));
        assert(digits_value(t) == digits_value(p) * 10 + digit_value(t.last()));
        assert((n / 10) as int * 10 + (n % 10) as int == n as int) by (nonlinear_arith);
        assert forall|i: int| 0 <= i < t.len() implies is_digit(#[trigger] t[i]) by {
            if i < p.len() {
                assert(t[i] == p[i]);
            }
        }
    }
}

/// Reading the printed text of an integer gives the integer back.
pub proof fn lemma_int_text(i: i64)
    ensures
        i64_text_value(int_text(i as int)) == Some(i as int),
{
    if i < 0 {
        let n = (-(i as int)) as nat;
        lemma_nat_text(n);
        let t = int_text(i as int);
        assert(t.drop_first() =~= nat_text(n));
        assert(decimal_value(nat_text(n)) == Some(n as int));
    } else {
        let n = i as nat;
        lemma_nat_text(n);
        let t = nat_text(n);
        assert(is_digit(t[0]));
        assert(without_sign(t, '+') == t);
    }
}

/// Typing the printed text of an integer automatically gives the integer
/// back.
pub proof fn lemma_round_trip_integer(i: i64, float: Option<u64>)
    ensures
        coerce_spec(int_text(i as int), None, float) == Ok::<_, Fault>(Node::Int(i)),
{
    lemma_int_text(i);
}

/// Typing the printed text of a boolean automatically gives the boolean
/// back (that text does not read as a float).
pub proof fn lemma_round_trip_boolean(b: bool)
    ensures
        coerce_spec(bool_text(b), None, None) == Ok::<_, Fault>(Node::Bool(b)),
{
    reveal_strlit("true");
    reveal_strlit("false");
    let t = bool_text(b);
    assert(!is_digit(t[0]) && t[0] != '-' && t[0] != '+');
    assert(without_sign(t, '+') == t);
    assert(!all_digits(t));
    assert(spells(t, t));
    if !b {
        assert(!spells(t, "true"@));
    }
}

/// Typing the printed text of a float automatically gives the float back:
/// that text never reads as an integer, and reading it as a float gives the
/// float's bits.
pub proof fn lemma_round_trip_float(text: Seq<char>, bits: u64)
    requires
        i64_text_value(text) is None,
    ensures
        coerce_spec(text, None, Some(bits)) == Ok::<_, Fault>(Node::Float(bits)),
{
}

/// A string printed in double quotes comes back, once the quotes are
/// stripped, as the same string when typed automatically, provided it reads
/// as no integer, float or boolean.
pub proof fn lemma_round_trip_string(s: Seq<char>)
    requires
        i64_text_value(s) is None,
        bool_word(s) is None,
    ensures
        strip_any_spec(seq!['"'] + s + seq!['"']) == s,
        coerce_spec(strip_any_spec(seq!['"'] + s + seq!['"']), None, None) == Ok::<_, Fault>(
            Node::Str(s),
        ),
{
    let q = seq!['"'] + s + seq!['"'];
    assert(q.subrange(1, q.len() - 1) =~= s);
}

} // verus!
