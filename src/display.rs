//! Text forms of numbers and values, for error messages.
use vstd::prelude::*;
use crate::dataset::FieldValue;

verus! {

pub open spec fn digit_char(d: nat) -> char {
    if d == 0 { '0' } else if d == 1 { '1' } else if d == 2 { '2' } else if d == 3 { '3' }
    else if d == 4 { '4' } else if d == 5 { '5' } else if d == 6 { '6' } else if d == 7 { '7' }
    else if d == 8 { '8' } else { '9' }
}

/// The decimal digits of `n`, without leading zeros.
pub open spec fn decimal(n: nat) -> Seq<char>
    decreases n,
{
    if n < 10 {
        seq![digit_char(n)]
    } else {
        decimal(n / 10).push(digit_char(n % 10))
    }
}

/// The decimal text of an integer, with `-` before a negative one.
pub open spec fn int_text(i: int) -> Seq<char> {
    if i >= 0 { decimal(i as nat) } else { seq!['-'] + decimal((-i) as nat) }
}

/// The JSON text of a string: quoted, with JSON escapes.
pub uninterp spec fn json_quoted(s: Seq<char>) -> Seq<char>;

/// The JSON text of a value, as the dataset document writes it.
pub open spec fn value_text(v: FieldValue) -> Seq<char> {
    match v {
        FieldValue::Null => "null"@,
        FieldValue::Bool(b) => if b { "true"@ } else { "false"@ },
        FieldValue::Int(i) => int_text(i as int),
        FieldValue::Float(x) => x@,
        FieldValue::Text(s) => json_quoted(s@),
        FieldValue::Other(x) => x@,
    }
}

fn digit_str(d: u128) -> (r: &'static str)
    requires
        d < 10,
    ensures
        r@ == seq![digit_char(d as nat)],
{
    proof {
        reveal_strlit("0"); reveal_strlit("1"); reveal_strlit("2"); reveal_strlit("3");
        reveal_strlit("4"); reveal_strlit("5"); reveal_strlit("6"); reveal_strlit("7");
        reveal_strlit("8"); reveal_strlit("9");
    }
    if d == 0 { "0" } else if d == 1 { "1" } else if d == 2 { "2" } else if d == 3 { "3" }
    else if d == 4 { "4" } else if d == 5 { "5" } else if d == 6 { "6" } else if d == 7 { "7" }
    else if d == 8 { "8" } else { "9" }
}

/// The decimal text of `n`.
pub fn decimal_string(n: u128) -> (r: String)
    ensures
        r@ == decimal(n as nat),
    decreases n,
{
    if n < 10 {
        String::from_str(digit_str(n))
    } else {
        let mut s = decimal_string(n / 10);
        s.append(digit_str(n % 10));
        s
    }
}

/// The decimal text of `i`, with `-` before a negative one.
pub fn int_string(i: i128) -> (r: String)
    ensures
        r@ == int_text(i as int),
{
    if i >= 0 {
        decimal_string(i as u128)
    } else {
        let m: u128 = ((-(i + 1)) as u128) + 1;
        let mut s = String::from_str("-");
        proof { reveal_strlit("-"); }
        s.append(decimal_string(m).as_str());
        s
    }
}

/// Relies on serde_json::to_string on a `&str`: the string quoted, with
/// JSON escapes; the result depends on the characters alone.
#[verifier::external_body]
fn json_quote(s: &str) -> (r: String)
    ensures
        r@ == json_quoted(s@),
{
    match serde_json::to_string(s) {
        Ok(t) => t,
        Err(_) => String::new(),
    }
}

/// The JSON text of a value.
pub fn value_string(v: &FieldValue) -> (r: String)
    ensures
        r@ == value_text(*v),
{
    match v {
        FieldValue::Null => String::from_str("null"),
        FieldValue::Bool(b) => if *b { String::from_str("true") } else { String::from_str("false") },
        FieldValue::Int(i) => int_string(*i),
        FieldValue::Float(x) => x.clone(),
        FieldValue::Text(s) => json_quote(s.as_str()),
        FieldValue::Other(x) => x.clone(),
    }
}

} // verus!
