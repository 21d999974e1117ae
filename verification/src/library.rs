//! The built-in functions of the block language, by name, and those of them that compute
//! from their argument alone.
use vstd::prelude::*;

use crate::text::{chars_eq_str, chars_of, string_of, byte_offset, decimal, usize_to_text};
use crate::line_parser::{Expression, ExpressionModel};
use crate::value_parser::{Value, LiteralModel};
use crate::variable::{VariableMap, VariableModel, VariableType, first_named};

verus! {

/// What running a built-in function gives: success, or an expression to go on with.
#[derive(Debug)]
pub enum Output {
    Success,
    Expression(Expression),
}

/// The names of the built-in functions: `print`, `println`, `len()`, `inc_one()`, `let`,
/// `type()`, `if`.
pub open spec fn is_function_name(s: Seq<char>) -> bool {
    s == "print"@ || s == "println"@ || s == "len()"@ || s == "inc_one()"@ || s == "let"@
        || s == "type()"@ || s == "if"@
}

/// Whether the characters name a built-in function.
pub fn function_exists(s: &[char]) -> (r: bool)
    ensures
        r == is_function_name(s@),
{
    chars_eq_str(s, "print") || chars_eq_str(s, "println") || chars_eq_str(s, "len()")
        || chars_eq_str(s, "inc_one()") || chars_eq_str(s, "let") || chars_eq_str(s, "type()")
        || chars_eq_str(s, "if")
}

/// The value an argument stands for: a value, or the value held by the variable it names.
pub open spec fn spec_extract_value(args: ExpressionModel, vars: Seq<VariableModel>) -> Option<LiteralModel> {
    match args {
        ExpressionModel::Value(v) => Some(v),
        ExpressionModel::Variable(name) => match first_named(vars, name) {
            Some(i) => match vars[i].value {
                ExpressionModel::Value(v) => Some(v),
                _ => None,
            },
            None => None,
        },
        _ => None,
    }
}

/// The value an argument stands for; see [`spec_extract_value`].
pub fn extract_value(args: Expression, vars: &VariableMap) -> (r: Result<Value, ()>)
    ensures
        match spec_extract_value(args@, vars@) {
            Some(v) => r matches Ok(x) && x@ == v,
            None => r is Err,
        },
{
    match args {
        Expression::Value(value) => Ok(value),
        Expression::Variable(variable_name) => {
            match vars.get_pure_var(variable_name.as_str()) {
                Some(variable) => match variable.value() {
                    Expression::Value(value) => Ok(value.duplicate()),
                    _ => Err(()),
                },
                None => Err(()),
            }
        },
        _ => Err(()),
    }
}

/// The length in bytes of a text in UTF-8.
pub open spec fn byte_len(s: Seq<char>) -> nat {
    byte_offset(s, s.len() as int)
}

/// Calls `str::len`, the length of the text in bytes (of its UTF-8 encoding).
#[verifier::external_body]
fn str_len(s: &str) -> (r: usize)
    ensures
        r == byte_len(s@),
{
    s.len()
}

/// The built-in `len()`: the length in bytes of a string, as a number. Anything else is
/// refused.
pub fn len(args: Expression, vars: &mut VariableMap) -> (r: Result<Output, ()>)
    ensures
        match spec_extract_value(args@, old(vars)@) {
            Some(LiteralModel::String(s)) => r matches Ok(Output::Expression(e)) && e@ == ExpressionModel::Value(
                LiteralModel::Number(decimal(byte_len(s)))),
            _ => r is Err,
        },
        final(vars)@ == old(vars)@,
{
    match extract_value(args, vars) {
        Ok(Value::String(s)) => {
            let n = str_len(s.as_str());
            Ok(Output::Expression(Expression::Value(Value::Number(usize_to_text(n)))))
        },
        _ => Err(()),
    }
}

/// The name of a type, as `type()` gives it.
pub open spec fn type_word(t: VariableType) -> Seq<char> {
    match t {
        VariableType::Boolean => "bool"@,
        VariableType::String => "String"@,
        VariableType::Number => "number"@,
        VariableType::Undefined => "undefined"@,
    }
}

fn type_text(t: VariableType) -> (r: String)
    ensures
        r@ == type_word(t),
{
    let word = match t {
        VariableType::Boolean => "bool",
        VariableType::String => "String",
        VariableType::Number => "number",
        VariableType::Undefined => "undefined",
    };
    string_of(chars_of(word).as_slice())
}

/// The built-in `type()`: the name of the type of a value, or of a variable's declared
/// type. Anything else is refused.
pub fn m_type(args: Expression, vars: &mut VariableMap) -> (r: Result<Output, ()>)
    ensures
        match args@ {
            ExpressionModel::Value(v) => r matches Ok(Output::Expression(e)) && e@ == ExpressionModel::Value(
                LiteralModel::String(type_word(crate::variable::literal_type(v)))),
            ExpressionModel::Variable(name) => match first_named(old(vars)@, name) {
                Some(i) => r matches Ok(Output::Expression(e)) && e@ == ExpressionModel::Value(
                    LiteralModel::String(type_word(old(vars)@[i].var_type))),
                None => r is Err,
            },
            _ => r is Err,
        },
        final(vars)@ == old(vars)@,
{
    match args {
        Expression::Value(v) => {
            let t = match v {
                Value::Boolean(_) => VariableType::Boolean,
                Value::String(_) => VariableType::String,
                Value::Number(_) => VariableType::Number,
                Value::Undefined => VariableType::Undefined,
            };
            Ok(Output::Expression(Expression::Value(Value::String(type_text(t)))))
        },
        Expression::Variable(name) => {
            match vars.get_pure_var(name.as_str()) {
                Some(var) => Ok(Output::Expression(Expression::Value(Value::String(type_text(var.get_type()))))),
                None => Err(()),
            }
        },
        _ => Err(()),
    }
}

/// The built-in `let` as a function: it is always refused.
pub fn m_let(args: Expression, vars: &mut VariableMap) -> (r: Result<Output, ()>)
    ensures
        r is Err,
        final(vars)@ == old(vars)@,
{
    Err(())
}

/// The built-in `if` as a function: it is always refused.
pub fn m_if(exp: Expression, vars: &mut VariableMap) -> (r: Result<Output, ()>)
    ensures
        r is Err,
        final(vars)@ == old(vars)@,
{
    Err(())
}

} // verus!
