//! The messages of the errors that the expression readers report as data.
//!
//! A token inside a message is written as `{:?}` writes it. Where that takes a number
//! (written as `f64` writes it) or a text with characters that `{:?}` escapes, no message
//! is made here: the result is `None`.
use vstd::prelude::*;

use crate::text::{chars_of, push_str, push_char, decimal, digit_char};
use crate::alu::{CalcError, CalcErrorModel, Token, TokenModel};
use crate::logic::{LogicError, LErrorModel, Token as LToken, LTokenModel};
use crate::var_handler::{Value, ValueModel};

verus! {

/// A text that `{:?}` writes between quotes unchanged: printable ASCII without `"` and `\`.
pub open spec fn is_plain_text(s: Seq<char>) -> bool {
    forall|i: int| 0 <= i < s.len() ==> ' ' <= #[trigger] s[i] <= '~' && s[i] != '"' && s[i] != '\\'
}

/// A plain text as `{:?}` writes it.
pub open spec fn quoted(s: Seq<char>) -> Seq<char> {
    seq!['"'] + s + seq!['"']
}

fn plain_text(s: &str) -> (r: bool)
    ensures
        r == is_plain_text(s@),
{
    let v = chars_of(s);
    let mut i: usize = 0;
    while i < v.len()
        invariant
            v@ == s@,
            i <= v@.len(),
            forall|j: int| 0 <= j < i ==> ' ' <= #[trigger] v@[j] <= '~' && v@[j] != '"' && v@[j] != '\\',
        decreases v@.len() - i,
    {
        let c = v[i];
        if c < ' ' || c > '~' || c == '"' || c == '\\' {
            return false;
        }
        i = i + 1;
    }
    true
}

fn push_quoted(m: &mut String, s: &str)
    ensures
        final(m)@ == old(m)@ + quoted(s@),
{
    push_char(m, '"');
    push_str(m, s);
    push_char(m, '"');
    assert(final(m)@ =~= old(m)@ + quoted(s@));
}

/// The decimal numeral of `n`.
fn u128_text(n: u128) -> (r: String)
    ensures
        r@ == decimal(n as nat),
    decreases n,
{
    let d = (n % 10) as u8;
    let c = (48u8 + d) as char;
    assert(c == digit_char((n % 10) as nat));
    if n < 10 {
        let mut s = String::new();
        push_char(&mut s, c);
        assert(s@ =~= seq![c]);
        s
    } else {
        let mut s = u128_text(n / 10);
        push_char(&mut s, c);
        s
    }
}

/// `text` followed by what follows, or nothing where the rest is not made here.
pub open spec fn then(text: Seq<char>, rest: Option<Seq<char>>) -> Option<Seq<char>> {
    match rest {
        Some(x) => Some(text + x),
        None => None,
    }
}

/// An arithmetic token as `{:?}` writes it; none for a number or a name that is not plain.
pub open spec fn calc_token_shown(t: TokenModel) -> Option<Seq<char>> {
    match t {
        TokenModel::Number(_) => None,
        TokenModel::Variable(n) => if is_plain_text(n) {
            Some("Variable("@ + quoted(n) + ")"@)
        } else {
            None
        },
        TokenModel::Plus => Some("Plus"@),
        TokenModel::Minus => Some("Minus"@),
        TokenModel::Multiply => Some("Multiply"@),
        TokenModel::Divide => Some("Divide"@),
    }
}

/// The message of an arithmetic error; none where its token is not made here.
pub open spec fn calc_error_shown(e: CalcErrorModel) -> Option<Seq<char>> {
    match e {
        CalcErrorModel::UnexpectedCharacter(c, p) => Some(
            "Unexpected character '"@ + seq![c] + "' at position "@ + decimal(p),
        ),
        CalcErrorModel::InvalidNumber(n) => Some("Invalid number: "@ + n),
        CalcErrorModel::Empty => Some("Expected an expression"@),
        CalcErrorModel::UnexpectedToken(t) => then("Unexpected token: "@, calc_token_shown(t)),
        CalcErrorModel::ExpectedOperand(t) => then("Expected an operand, found "@, calc_token_shown(t)),
        CalcErrorModel::EndOfExpression => Some("Expected an operand, found end of expression"@),
        CalcErrorModel::VariableNotFound(n) => Some("Variable not found: "@ + n),
    }
}

/// Appends an arithmetic token as `{:?}` writes it; false, and nothing appended, where
/// that is not made here.
fn push_calc_token(m: &mut String, t: &Token) -> (r: bool)
    ensures
        match calc_token_shown(t@) {
            Some(x) => r && final(m)@ == old(m)@ + x,
            None => !r && final(m)@ == old(m)@,
        },
{
    match t {
        Token::Number(_) => false,
        Token::Variable(n) => {
            if !plain_text(n.as_str()) {
                return false;
            }
            push_str(m, "Variable(");
            push_quoted(m, n.as_str());
            push_str(m, ")");
            true
        },
        Token::Plus => {
            push_str(m, "Plus");
            true
        },
        Token::Minus => {
            push_str(m, "Minus");
            true
        },
        Token::Multiply => {
            push_str(m, "Multiply");
            true
        },
        Token::Divide => {
            push_str(m, "Divide");
            true
        },
    }
}

/// The message of an arithmetic error; see [`calc_error_shown`].
pub fn calc_error_text(e: &CalcError) -> (r: Option<String>)
    ensures
        match calc_error_shown(e@) {
            Some(x) => r matches Some(s) && s@ == x,
            None => r is None,
        },
{
    let mut m = String::new();
    match e {
        CalcError::UnexpectedCharacter(c, p) => {
            push_str(&mut m, "Unexpected character '");
            push_char(&mut m, *c);
            push_str(&mut m, "' at position ");
            let n = u128_text(*p);
            push_str(&mut m, n.as_str());
        },
        CalcError::InvalidNumber(n) => {
            push_str(&mut m, "Invalid number: ");
            push_str(&mut m, n.as_str());
        },
        CalcError::Empty => push_str(&mut m, "Expected an expression"),
        CalcError::UnexpectedToken(t) => {
            push_str(&mut m, "Unexpected token: ");
            if !push_calc_token(&mut m, t) {
                return None;
            }
        },
        CalcError::ExpectedOperand(t) => {
            push_str(&mut m, "Expected an operand, found ");
            if !push_calc_token(&mut m, t) {
                return None;
            }
        },
        CalcError::EndOfExpression => push_str(&mut m, "Expected an operand, found end of expression"),
        CalcError::VariableNotFound(n) => {
            push_str(&mut m, "Variable not found: ");
            push_str(&mut m, n.as_str());
        },
    }
    Some(m)
}

/// A value as `{:?}` writes it; none for a number or a text that is not plain.
pub open spec fn value_shown(v: ValueModel) -> Option<Seq<char>> {
    match v {
        ValueModel::String(t) => if is_plain_text(t) {
            Some("String("@ + quoted(t) + ")"@)
        } else {
            None
        },
        ValueModel::Number(_) => None,
        ValueModel::Bool(b) => Some(if b { "Bool(true)"@ } else { "Bool(false)"@ }),
        ValueModel::Undefined => Some("Undefined"@),
    }
}

/// A token of a logic expression as `{:?}` writes it; none where it holds a number or a
/// text that is not plain.
pub open spec fn logic_token_shown(t: LTokenModel) -> Option<Seq<char>> {
    match t {
        LTokenModel::Value(v) => match value_shown(v) {
            Some(x) => Some("Value("@ + x + ")"@),
            None => None,
        },
        LTokenModel::Variable(n) => if is_plain_text(n) {
            Some("Variable("@ + quoted(n) + ")"@)
        } else {
            None
        },
        LTokenModel::Not => Some("Not"@),
        LTokenModel::Equal => Some("Equal"@),
        LTokenModel::NotEqual => Some("NotEqual"@),
        LTokenModel::LessThan => Some("LessThan"@),
        LTokenModel::LessThanOrEqual => Some("LessThanOrEqual"@),
        LTokenModel::GreaterThan => Some("GreaterThan"@),
        LTokenModel::GreaterThanOrEqual => Some("GreaterThanOrEqual"@),
        LTokenModel::And => Some("And"@),
        LTokenModel::Or => Some("Or"@),
        LTokenModel::LeftParen => Some("LeftParen"@),
        LTokenModel::RightParen => Some("RightParen"@),
    }
}

/// The message of an error in a logic expression; none where its token is not made here.
pub open spec fn logic_error_shown(e: LErrorModel) -> Option<Seq<char>> {
    match e {
        LErrorModel::UnexpectedOperator(p, c) => Some(
            "Unexpected operator at position "@ + decimal(p) + ". Did you mean `"@ + seq![c, c] + "`?"@,
        ),
        LErrorModel::UnterminatedString(p) => Some("Unterminated string starting at position "@ + decimal(p)),
        LErrorModel::UnsupportedEscape(c, p) => Some(
            "Unsupported escape `\\"@ + seq![c] + "` in string at position "@ + decimal(p),
        ),
        LErrorModel::InvalidNumber(n) => Some("Invalid number: "@ + n),
        LErrorModel::UnexpectedCharacter(c, p) => Some(
            "Unexpected character '"@ + seq![c] + "' at position "@ + decimal(p),
        ),
        LErrorModel::Empty => Some("Expected a LogicExpression"@),
        LErrorModel::UnexpectedToken(t) => then("Unexpected token: "@, logic_token_shown(t)),
        LErrorModel::ExpectedRightParen => Some("Expected `)`"@),
        LErrorModel::ExpectedOperand(t) => then("Expected an operand, found "@, logic_token_shown(t)),
        LErrorModel::EndOfExpression => Some("Expected an operand, found end of LogicExpression"@),
        LErrorModel::VariableNotFound(n) => Some("Variable not found: "@ + n),
    }
}

fn push_value(m: &mut String, v: &Value) -> (r: bool)
    ensures
        match value_shown(v@) {
            Some(x) => r && final(m)@ == old(m)@ + x,
            None => !r && final(m)@ == old(m)@,
        },
{
    match v {
        Value::String(t) => {
            if !plain_text(t.as_str()) {
                return false;
            }
            push_str(m, "String(");
            push_quoted(m, t.as_str());
            push_str(m, ")");
            true
        },
        Value::Number(_) => false,
        Value::Bool(b) => {
            if *b {
                push_str(m, "Bool(true)");
            } else {
                push_str(m, "Bool(false)");
            }
            true
        },
        Value::Undefined => {
            push_str(m, "Undefined");
            true
        },
    }
}

fn push_logic_token(m: &mut String, t: &LToken) -> (r: bool)
    ensures
        match logic_token_shown(t@) {
            Some(x) => r && final(m)@ == old(m)@ + x,
            None => !r && final(m)@ == old(m)@,
        },
{
    let name = match t {
        LToken::Value(v) => {
            let mut inner = String::new();
            if !push_value(&mut inner, v) {
                return false;
            }
            push_str(m, "Value(");
            push_str(m, inner.as_str());
            push_str(m, ")");
            return true;
        },
        LToken::Variable(n) => {
            if !plain_text(n.as_str()) {
                return false;
            }
            push_str(m, "Variable(");
            push_quoted(m, n.as_str());
            push_str(m, ")");
            return true;
        },
        LToken::Not => "Not",
        LToken::Equal => "Equal",
        LToken::NotEqual => "NotEqual",
        LToken::LessThan => "LessThan",
        LToken::LessThanOrEqual => "LessThanOrEqual",
        LToken::GreaterThan => "GreaterThan",
        LToken::GreaterThanOrEqual => "GreaterThanOrEqual",
        LToken::And => "And",
        LToken::Or => "Or",
        LToken::LeftParen => "LeftParen",
        LToken::RightParen => "RightParen",
    };
    push_str(m, name);
    true
}

/// The message of an error in a logic expression; see [`logic_error_shown`].
pub fn logic_error_text(e: &LogicError) -> (r: Option<String>)
    ensures
        match logic_error_shown(e@) {
            Some(x) => r matches Some(s) && s@ == x,
            None => r is None,
        },
{
    let mut m = String::new();
    match e {
        LogicError::UnexpectedOperator(p, c) => {
            push_str(&mut m, "Unexpected operator at position ");
            let n = u128_text(*p);
            push_str(&mut m, n.as_str());
            push_str(&mut m, ". Did you mean `");
            push_char(&mut m, *c);
            push_char(&mut m, *c);
            push_str(&mut m, "`?");
        },
        LogicError::UnterminatedString(p) => {
            push_str(&mut m, "Unterminated string starting at position ");
            let n = u128_text(*p);
            push_str(&mut m, n.as_str());
        },
        LogicError::UnsupportedEscape(c, p) => {
            push_str(&mut m, "Unsupported escape `\\");
            push_char(&mut m, *c);
            push_str(&mut m, "` in string at position ");
            let n = u128_text(*p);
            push_str(&mut m, n.as_str());
        },
        LogicError::InvalidNumber(n) => {
            push_str(&mut m, "Invalid number: ");
            push_str(&mut m, n.as_str());
        },
        LogicError::UnexpectedCharacter(c, p) => {
            push_str(&mut m, "Unexpected character '");
            push_char(&mut m, *c);
            push_str(&mut m, "' at position ");
            let n = u128_text(*p);
            push_str(&mut m, n.as_str());
        },
        LogicError::Empty => push_str(&mut m, "Expected a LogicExpression"),
        LogicError::UnexpectedToken(t) => {
            push_str(&mut m, "Unexpected token: ");
            if !push_logic_token(&mut m, t) {
                return None;
            }
        },
        LogicError::ExpectedRightParen => push_str(&mut m, "Expected `)`"),
        LogicError::ExpectedOperand(t) => {
            push_str(&mut m, "Expected an operand, found ");
            if !push_logic_token(&mut m, t) {
                return None;
            }
        },
        LogicError::EndOfExpression => push_str(&mut m, "Expected an operand, found end of LogicExpression"),
        LogicError::VariableNotFound(n) => {
            push_str(&mut m, "Variable not found: ");
            push_str(&mut m, n.as_str());
        },
    }
    Some(m)
}

} // verus!
