//! Literal values of the block language and how one is read from its text.
use vstd::prelude::*;
use vstd::slice::slice_subrange;

use crate::numeral::{is_float_literal, is_float_text};
use crate::text::{chars_of, string_of, chars_eq_str};

verus! {

/// A literal value. A number is held by its numeral, as written in the program.
#[derive(Debug, Clone, PartialEq)]
pub enum Value {
    String(String),
    Boolean(bool),
    Number(String),
    Undefined,
}

/// The mathematical value of a [`Value`].
pub enum LiteralModel {
    String(Seq<char>),
    Boolean(bool),
    Number(Seq<char>),
    Undefined,
}

impl View for Value {
    type V = LiteralModel;

    open spec fn view(&self) -> LiteralModel {
        match self {
            Value::String(s) => LiteralModel::String(s@),
            Value::Boolean(b) => LiteralModel::Boolean(*b),
            Value::Number(n) => LiteralModel::Number(n@),
            Value::Undefined => LiteralModel::Undefined,
        }
    }
}

impl Value {
    /// A copy of the value.
    pub fn duplicate(&self) -> (r: Value)
        ensures
            r@ == self@,
    {
        match self {
            Value::String(s) => Value::String(s.clone()),
            Value::Boolean(b) => Value::Boolean(*b),
            Value::Number(n) => Value::Number(n.clone()),
            Value::Undefined => Value::Undefined,
        }
    }
}

/// The text starts and ends with a double quote (one quote alone does both).
pub open spec fn is_quoted(s: Seq<char>) -> bool {
    s.len() >= 1 && s[0] == '"' && s.last() == '"'
}

/// The text is a lone double quote, which counts as quoted but has no inside.
pub open spec fn is_lone_quote(s: Seq<char>) -> bool {
    s.len() == 1 && s[0] == '"'
}

/// The value a text stands for: `undefined`; a string between double quotes; a number
/// (a numeral that `f64` reads); `true` or `false`; or none.
pub open spec fn spec_parse_value(s: Seq<char>) -> Option<LiteralModel> {
    if s == "undefined"@ {
        Some(LiteralModel::Undefined)
    } else if is_quoted(s) {
        Some(LiteralModel::String(s.subrange(1, s.len() - 1)))
    } else if is_float_literal(s) {
        Some(LiteralModel::Number(s))
    } else if s == "true"@ {
        Some(LiteralModel::Boolean(true))
    } else if s == "false"@ {
        Some(LiteralModel::Boolean(false))
    } else {
        None
    }
}

pub open spec fn view_opt_value(r: Option<Value>) -> Option<LiteralModel> {
    match r {
        Some(v) => Some(v@),
        None => None,
    }
}

/// Reads a value from its text; see [`spec_parse_value`]. A lone double quote cannot be
/// read.
pub fn parse_value(s: String) -> (r: Option<Value>)
    requires
        !is_lone_quote(s@),
    ensures
        view_opt_value(r) == spec_parse_value(s@),
{
    let chars = chars_of(s.as_str());
    parse_value_chars(chars.as_slice())
}

/// [`parse_value`] on the characters of a text.
pub fn parse_value_chars(chars: &[char]) -> (r: Option<Value>)
    requires
        !is_lone_quote(chars@),
    ensures
        view_opt_value(r) == spec_parse_value(chars@),
{
    let n = chars.len();
    if chars_eq_str(chars, "undefined") {
        return Some(Value::Undefined);
    }
    if n >= 1 && chars[0] == '"' && chars[n - 1] == '"' {
        let inner = slice_subrange(chars, 1, n - 1);
        return Some(Value::String(string_of(inner)));
    }
    if is_float_text(chars) {
        return Some(Value::Number(string_of(chars)));
    }
    if chars_eq_str(chars, "true") {
        return Some(Value::Boolean(true));
    }
    if chars_eq_str(chars, "false") {
        return Some(Value::Boolean(false));
    }
    None
}

/// Any text between double quotes reads as the string value of that text.
pub proof fn law_quoted_text_is_a_string(t: Seq<char>)
    ensures
        spec_parse_value(seq!['"'] + t + seq!['"']) == Some(LiteralModel::String(t)),
{
    let q = seq!['"'] + t + seq!['"'];
    assert(q[0] == '"');
    assert(q.last() == '"');
    assert(q.subrange(1, q.len() - 1) =~= t);
    if q == "undefined"@ {
        reveal_strlit("undefined");
        assert(q[0] == 'u');
    }
}

} // verus!
