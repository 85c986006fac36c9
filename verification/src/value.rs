//! The typed field-value model and the token coercion policy.

use vstd::prelude::*;

use crate::text::{
    chars_of, chars_eq, is_int_literal, int_value, is_float_literal, parse_i64_chars,
};

verus! {

/// A numeric field value. Integer-valued tokens keep their exact 64-bit
/// value; everything else carries the two canonical decimal renderings of
/// the parsed double: the plain display text and the JSON text.
pub enum NumValue {
    Int(i64),
    Dec(String, String),
}

/// A parsed field value: a closed sum over text, number, boolean and null.
pub enum FieldValue {
    Text(String),
    Number(NumValue),
    Boolean(bool),
    Null,
}

/// The mathematical model of a field value.
pub enum ValModel {
    MText(Seq<char>),
    MInt(int),
    MDec(Seq<char>, Seq<char>),
    MBool(bool),
    MNull,
}

impl FieldValue {
    pub open spec fn model(self) -> ValModel {
        match self {
            FieldValue::Text(s) => ValModel::MText(s@),
            FieldValue::Number(NumValue::Int(i)) => ValModel::MInt(i as int),
            FieldValue::Number(NumValue::Dec(d, j)) => ValModel::MDec(d@, j@),
            FieldValue::Boolean(b) => ValModel::MBool(b),
            FieldValue::Null => ValModel::MNull,
        }
    }

    /// A structurally equal copy.
    pub fn duplicate(&self) -> (r: FieldValue)
        ensures
            r == *self,
    {
        match self {
            FieldValue::Text(s) => FieldValue::Text(s.clone()),
            FieldValue::Number(NumValue::Int(i)) => FieldValue::Number(NumValue::Int(*i)),
            FieldValue::Number(NumValue::Dec(d, j)) => FieldValue::Number(
                NumValue::Dec(d.clone(), j.clone()),
            ),
            FieldValue::Boolean(b) => FieldValue::Boolean(*b),
            FieldValue::Null => FieldValue::Null,
        }
    }
}

/// The two renderings of the double that a float literal parses to: the
/// plain decimal display text, and the JSON number text (`0` when the value
/// is not a finite JSON number). Both depend on the literal alone.
pub uninterp spec fn float_repr_of(s: Seq<char>) -> (Seq<char>, Seq<char>);

/// Relies on `str::parse` to a double-precision float, which accepts exactly
/// the literals its documentation lists and is a pure function of the text;
/// on the double's `Display` for the first rendering; and on serde_json's
/// number serialization for the second (a non-finite double is no JSON
/// number and falls back to `0`, as `serde_json::Number::from_f64` has it).
#[verifier::external_body]
fn parse_float_repr(s: &str) -> (r: Option<(String, String)>)
    ensures
        r is Some <==> is_float_literal(s@),
        r is Some ==> (r.unwrap().0@, r.unwrap().1@) == float_repr_of(s@),
{
    let v = match s.parse() {
        Ok(v) => v,
        Err(_) => return None,
    };
    let json = match serde_json::Number::from_f64(v) {
        Some(n) => n.to_string(),
        None => "0".to_string(),
    };
    Some((v.to_string(), json))
}

/// What a raw token coerces to: the literal `null`, then the two boolean
/// literals, then a 64-bit integer, then a double, and otherwise the token
/// itself as text. The order is load-bearing.
pub open spec fn coerce_model(s: Seq<char>) -> ValModel {
    if s == "null"@ {
        ValModel::MNull
    } else if s == "true"@ {
        ValModel::MBool(true)
    } else if s == "false"@ {
        ValModel::MBool(false)
    } else if is_int_literal(s) {
        ValModel::MInt(int_value(s))
    } else if is_float_literal(s) {
        ValModel::MDec(float_repr_of(s).0, float_repr_of(s).1)
    } else {
        ValModel::MText(s)
    }
}

/// Coerce one raw token to a typed field value.
pub fn parse_field_value(value: &str) -> (r: FieldValue)
    ensures
        r.model() == coerce_model(value@),
{
    let cs = chars_of(value);
    if chars_eq(&cs, &chars_of("null")) {
        return FieldValue::Null;
    }
    if chars_eq(&cs, &chars_of("true")) {
        return FieldValue::Boolean(true);
    }
    if chars_eq(&cs, &chars_of("false")) {
        return FieldValue::Boolean(false);
    }
    match parse_i64_chars(&cs) {
        Some(i) => {
            return FieldValue::Number(NumValue::Int(i));
        },
        None => {
        },
    }
    match parse_float_repr(value) {
        Some((d, j)) => FieldValue::Number(NumValue::Dec(d, j)),
        None => FieldValue::Text(value.to_owned()),
    }
}

} // verus!
