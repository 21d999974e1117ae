//! Logic expressions: comparisons of values with `== != < <= > >=`, negation `!`,
//! conjunction `&&` and disjunction `||`, with parentheses. `!` binds tightest, then the
//! orderings, then the equalities, then `&&`, then `||`; the binary operators associate
//! to the left.
//!
//! Reading expressions is done here; evaluating them compares numbers, which is done
//! outside the library. The parts of evaluation that do not compare numbers are here.
use vstd::prelude::*;
use vstd::slice::slice_subrange;

use crate::text::{is_ws, char_is_whitespace, chars_of, string_of, byte_offset, utf8_len, char_len_utf8, push_str, push_char, chars_eq_str};
use crate::numeral::{is_digit, is_float_literal, is_float_text};
use crate::var_handler::{Value, ValueModel, VarMap};
use crate::alu::{is_ascii_alpha, is_number_char, number_end, name_end, lemma_number_end, lemma_name_end, prepend, prepend_all};
use crate::runtime_error::{RuntimeError, ErrorType};
use crate::execution_policy::ExecutionPolicy;

verus! {

/// A token of a logic expression.
#[derive(Debug, PartialEq)]
pub enum Token {
    Value(Value),
    Variable(String),
    Not,
    Equal,
    NotEqual,
    LessThan,
    LessThanOrEqual,
    GreaterThan,
    GreaterThanOrEqual,
    And,
    Or,
    LeftParen,
    RightParen,
}

/// The mathematical value of a [`Token`].
pub enum LTokenModel {
    Value(ValueModel),
    Variable(Seq<char>),
    Not,
    Equal,
    NotEqual,
    LessThan,
    LessThanOrEqual,
    GreaterThan,
    GreaterThanOrEqual,
    And,
    Or,
    LeftParen,
    RightParen,
}

impl View for Token {
    type V = LTokenModel;

    open spec fn view(&self) -> LTokenModel {
        match self {
            Token::Value(v) => LTokenModel::Value(v@),
            Token::Variable(n) => LTokenModel::Variable(n@),
            Token::Not => LTokenModel::Not,
            Token::Equal => LTokenModel::Equal,
            Token::NotEqual => LTokenModel::NotEqual,
            Token::LessThan => LTokenModel::LessThan,
            Token::LessThanOrEqual => LTokenModel::LessThanOrEqual,
            Token::GreaterThan => LTokenModel::GreaterThan,
            Token::GreaterThanOrEqual => LTokenModel::GreaterThanOrEqual,
            Token::And => LTokenModel::And,
            Token::Or => LTokenModel::Or,
            Token::LeftParen => LTokenModel::LeftParen,
            Token::RightParen => LTokenModel::RightParen,
        }
    }
}

impl Token {
    pub fn duplicate(&self) -> (r: Token)
        ensures
            r@ == self@,
    {
        match self {
            Token::Value(v) => Token::Value(v.duplicate()),
            Token::Variable(n) => Token::Variable(n.clone()),
            Token::Not => Token::Not,
            Token::Equal => Token::Equal,
            Token::NotEqual => Token::NotEqual,
            Token::LessThan => Token::LessThan,
            Token::LessThanOrEqual => Token::LessThanOrEqual,
            Token::GreaterThan => Token::GreaterThan,
            Token::GreaterThanOrEqual => Token::GreaterThanOrEqual,
            Token::And => Token::And,
            Token::Or => Token::Or,
            Token::LeftParen => Token::LeftParen,
            Token::RightParen => Token::RightParen,
        }
    }
}

/// Why a logic expression could not be read. Each is reported with the message written
/// next to it (positions count bytes from 1).
#[derive(Debug, PartialEq)]
pub enum LogicError {
    /// ``Unexpected operator at position {p}. Did you mean `{c}{c}`?``
    UnexpectedOperator(u128, char),
    /// `Unterminated string starting at position {p}`
    UnterminatedString(u128),
    /// ``Unsupported escape `\{c}` in string at position {p}``
    UnsupportedEscape(char, u128),
    /// `Invalid number: {numeral}`
    InvalidNumber(String),
    /// `Unexpected character '{c}' at position {p}`
    UnexpectedCharacter(char, u128),
    /// `Expected a LogicExpression`
    Empty,
    /// `Unexpected token: {token:?}`
    UnexpectedToken(Token),
    /// ``Expected `)` ``
    ExpectedRightParen,
    /// `Expected an operand, found {token:?}`
    ExpectedOperand(Token),
    /// `Expected an operand, found end of LogicExpression`
    EndOfExpression,
    /// `Variable not found: {name}`
    VariableNotFound(String),
}

/// The mathematical value of a [`LogicError`].
pub enum LErrorModel {
    UnexpectedOperator(nat, char),
    UnterminatedString(nat),
    UnsupportedEscape(char, nat),
    InvalidNumber(Seq<char>),
    UnexpectedCharacter(char, nat),
    Empty,
    UnexpectedToken(LTokenModel),
    ExpectedRightParen,
    ExpectedOperand(LTokenModel),
    EndOfExpression,
    VariableNotFound(Seq<char>),
}

impl View for LogicError {
    type V = LErrorModel;

    open spec fn view(&self) -> LErrorModel {
        match self {
            LogicError::UnexpectedOperator(p, c) => LErrorModel::UnexpectedOperator(*p as nat, *c),
            LogicError::UnterminatedString(p) => LErrorModel::UnterminatedString(*p as nat),
            LogicError::UnsupportedEscape(c, p) => LErrorModel::UnsupportedEscape(*c, *p as nat),
            LogicError::InvalidNumber(n) => LErrorModel::InvalidNumber(n@),
            LogicError::UnexpectedCharacter(c, p) => LErrorModel::UnexpectedCharacter(*c, *p as nat),
            LogicError::Empty => LErrorModel::Empty,
            LogicError::UnexpectedToken(t) => LErrorModel::UnexpectedToken(t@),
            LogicError::ExpectedRightParen => LErrorModel::ExpectedRightParen,
            LogicError::ExpectedOperand(t) => LErrorModel::ExpectedOperand(t@),
            LogicError::EndOfExpression => LErrorModel::EndOfExpression,
            LogicError::VariableNotFound(n) => LErrorModel::VariableNotFound(n@),
        }
    }
}

/// The character that an escape `\e` in a string literal stands for, if it is one of
/// `\n \r \t \" \\`.
pub open spec fn escaped(e: char) -> Option<char> {
    if e == 'n' {
        Some('\n')
    } else if e == 'r' {
        Some('\r')
    } else if e == 't' {
        Some('\t')
    } else if e == '"' {
        Some('"')
    } else if e == '\\' {
        Some('\\')
    } else {
        None
    }
}

/// The rest of a string literal from position `j`, its text so far being `acc`: the text
/// and the position after the closing quote. `start` is the position reported in errors.
pub open spec fn string_rest(s: Seq<char>, j: int, acc: Seq<char>, start: nat) -> Result<(Seq<char>, int), LErrorModel>
    decreases s.len() - j,
{
    if j < 0 || j >= s.len() {
        Err(LErrorModel::UnterminatedString(start))
    } else if s[j] == '"' {
        Ok((acc, j + 1))
    } else if s[j] == '\\' {
        if j + 1 >= s.len() {
            Err(LErrorModel::UnterminatedString(start))
        } else {
            match escaped(s[j + 1]) {
                Some(c) => string_rest(s, j + 2, acc.push(c), start),
                None => Err(LErrorModel::UnsupportedEscape(s[j + 1], start)),
            }
        }
    } else {
        string_rest(s, j + 1, acc.push(s[j]), start)
    }
}

pub proof fn lemma_string_rest(s: Seq<char>, j: int, acc: Seq<char>, start: nat)
    requires
        0 <= j,
    ensures
        string_rest(s, j, acc, start) matches Ok((_, e)) ==> j < e <= s.len(),
    decreases s.len() - j,
{
    if 0 <= j < s.len() && s[j] != '"' {
        if s[j] == '\\' {
            if j + 1 < s.len() {
                if let Some(c) = escaped(s[j + 1]) {
                    lemma_string_rest(s, j + 2, acc.push(c), start);
                }
            }
        } else {
            lemma_string_rest(s, j + 1, acc.push(s[j]), start);
        }
    }
}

/// Whether a number starts at `i`: a digit, a dot, or a minus sign before a digit or a dot.
pub open spec fn number_starts(s: Seq<char>, i: int) -> bool {
    is_number_char(s[i]) || (s[i] == '-' && i + 1 < s.len() && is_number_char(s[i + 1]))
}

/// The tokens of `s` from position `i`.
pub open spec fn tokenize_from(s: Seq<char>, i: int) -> Result<Seq<LTokenModel>, LErrorModel>
    decreases s.len() - i,
{
    if i < 0 || i >= s.len() {
        Ok(Seq::empty())
    } else {
        let c = s[i];
        if is_ws(c) {
            tokenize_from(s, i + 1)
        } else if c == '(' {
            prepend(LTokenModel::LeftParen, tokenize_from(s, i + 1))
        } else if c == ')' {
            prepend(LTokenModel::RightParen, tokenize_from(s, i + 1))
        } else if c == '=' || c == '&' || c == '|' {
            if i + 1 < s.len() && s[i + 1] == c {
                prepend(
                    if c == '=' {
                        LTokenModel::Equal
                    } else if c == '&' {
                        LTokenModel::And
                    } else {
                        LTokenModel::Or
                    },
                    tokenize_from(s, i + 2),
                )
            } else {
                Err(LErrorModel::UnexpectedOperator(byte_offset(s, i) + 1, c))
            }
        } else if c == '!' || c == '<' || c == '>' {
            if i + 1 < s.len() && s[i + 1] == '=' {
                prepend(
                    if c == '!' {
                        LTokenModel::NotEqual
                    } else if c == '<' {
                        LTokenModel::LessThanOrEqual
                    } else {
                        LTokenModel::GreaterThanOrEqual
                    },
                    tokenize_from(s, i + 2),
                )
            } else {
                prepend(
                    if c == '!' {
                        LTokenModel::Not
                    } else if c == '<' {
                        LTokenModel::LessThan
                    } else {
                        LTokenModel::GreaterThan
                    },
                    tokenize_from(s, i + 1),
                )
            }
        } else if c == '"' {
            proof {
                lemma_string_rest(s, i + 1, Seq::empty(), byte_offset(s, i) + 1);
            }
            match string_rest(s, i + 1, Seq::empty(), byte_offset(s, i) + 1) {
                Ok((text, e)) => prepend(
                    LTokenModel::Value(ValueModel::String(text)),
                    tokenize_from(s, e),
                ),
                Err(err) => Err(err),
            }
        } else if number_starts(s, i) {
            proof {
                lemma_number_end(s, i + 1);
            }
            let e = number_end(s, i + 1);
            let raw = s.subrange(i, e);
            if is_float_literal(raw) {
                prepend(LTokenModel::Value(ValueModel::Number(raw)), tokenize_from(s, e))
            } else {
                Err(LErrorModel::InvalidNumber(raw))
            }
        } else if is_ascii_alpha(c) || c == '_' {
            proof {
                lemma_name_end(s, i + 1);
            }
            let e = name_end(s, i + 1);
            let word = s.subrange(i, e);
            let t = if word == "true"@ {
                LTokenModel::Value(ValueModel::Bool(true))
            } else if word == "false"@ {
                LTokenModel::Value(ValueModel::Bool(false))
            } else {
                LTokenModel::Variable(word)
            };
            prepend(t, tokenize_from(s, e))
        } else {
            Err(LErrorModel::UnexpectedCharacter(c, byte_offset(s, i) + 1))
        }
    }
}

pub open spec fn view_tokens(v: Seq<Token>) -> Seq<LTokenModel> {
    v.map_values(|t: Token| t@)
}

/// The byte offset of the character at position `i`.
fn byte_position(s: &[char], i: usize) -> (r: u128)
    requires
        i <= s@.len(),
    ensures
        r == byte_offset(s@, i as int),
        r <= 4 * i,
{
    let mut k: usize = 0;
    let mut b: u128 = 0;
    while k < i
        invariant
            k <= i <= s@.len(),
            b == byte_offset(s@, k as int),
            b <= 4 * k,
        decreases i - k,
    {
        b = b + char_len_utf8(s[k]) as u128;
        k = k + 1;
    }
    b
}

/// Requires the character `expected` after the operator character at `index`.
pub fn consume_expected(s: &[char], index: usize, expected: char) -> (r: Result<(), LogicError>)
    requires
        index < s@.len(),
    ensures
        if index + 1 < s@.len() && s@[index + 1] == expected {
            r is Ok
        } else {
            r matches Err(e) && e@ == LErrorModel::UnexpectedOperator(byte_offset(s@, index as int) + 1, expected)
        },
{
    let n = s.len();
    if index + 1 < n && s[index + 1] == expected {
        return Ok(());
    }
    Err(LogicError::UnexpectedOperator(byte_position(s, index) + 1, expected))
}

proof fn lemma_prepend_all_push<T, E>(ts: Seq<T>, t: T, rest: Result<Seq<T>, E>)
    ensures
        prepend_all(ts, prepend(t, rest)) == prepend_all(ts.push(t), rest),
{
    match rest {
        Ok(r) => {
            assert(ts + (seq![t] + r) =~= ts.push(t) + r);
        },
        Err(_) => {},
    }
}

/// Reads the tokens of a logic expression; see [`tokenize_from`].
pub fn tokenize(input: &str) -> (r: Result<Vec<Token>, LogicError>)
    ensures
        match tokenize_from(input@, 0) {
            Ok(ts) => r matches Ok(v) && view_tokens(v@) == ts,
            Err(e) => r matches Err(x) && x@ == e,
        },
{
    let s = chars_of(input);
    let n = s.len();
    let mut tokens: Vec<Token> = Vec::new();
    let mut i: usize = 0;
    while i < n
        invariant
            n == s@.len(),
            s@ == input@,
            i <= n,
            tokenize_from(s@, 0) == prepend_all(view_tokens(tokens@), tokenize_from(s@, i as int)),
        decreases n - i,
    {
        let c = s[i];
        let ghost before = view_tokens(tokens@);
        let ghost sv = s@;
        let mut t: Token = Token::Not;
        let mut next: usize = i + 1;
        if char_is_whitespace(c) {
            i = i + 1;
            continue;
        } else if c == '(' {
            t = Token::LeftParen;
        } else if c == ')' {
            t = Token::RightParen;
        } else if c == '=' || c == '&' || c == '|' {
            match consume_expected(s.as_slice(), i, c) {
                Ok(()) => {},
                Err(e) => return Err(e),
            }
            t = if c == '=' {
                Token::Equal
            } else if c == '&' {
                Token::And
            } else {
                Token::Or
            };
            next = i + 2;
        } else if c == '!' || c == '<' || c == '>' {
            let with_eq = i + 1 < n && s[i + 1] == '=';
            t = if c == '!' {
                if with_eq {
                    Token::NotEqual
                } else {
                    Token::Not
                }
            } else if c == '<' {
                if with_eq {
                    Token::LessThanOrEqual
                } else {
                    Token::LessThan
                }
            } else {
                if with_eq {
                    Token::GreaterThanOrEqual
                } else {
                    Token::GreaterThan
                }
            };
            if with_eq {
                next = i + 2;
            }
        } else if c == '"' {
            let start = byte_position(s.as_slice(), i) + 1;
            let mut text = String::new();
            let mut j: usize = i + 1;
            let mut closed = false;
            proof {
                lemma_string_rest(sv, i + 1, Seq::empty(), start as nat);
            }
            while j < n
                invariant_except_break
                    n == s@.len(),
                    i < j <= n,
                    !closed,
                    string_rest(sv, i as int + 1, Seq::empty(), start as nat) == string_rest(
                        sv,
                        j as int,
                        text@,
                        start as nat,
                    ),
                invariant
                    sv == s@,
                    sv == input@,
                    i < n,
                    sv[i as int] == '"',
                    start as nat == byte_offset(sv, i as int) + 1,
                    tokenize_from(sv, 0) == prepend_all(before, tokenize_from(sv, i as int)),
                ensures
                    closed ==> i < j <= n && string_rest(sv, i as int + 1, Seq::empty(), start as nat)
                        == Ok::<(Seq<char>, int), LErrorModel>((text@, j as int)),
                    !closed ==> string_rest(sv, i as int + 1, Seq::empty(), start as nat) == Err::<
                        (Seq<char>, int),
                        LErrorModel,
                    >(LErrorModel::UnterminatedString(start as nat)),
                decreases n - j,
            {
                let d = s[j];
                if d == '"' {
                    closed = true;
                    j = j + 1;
                    break;
                } else if d == '\\' {
                    if j + 1 >= n {
                        j = n;
                        break;
                    }
                    let e = s[j + 1];
                    let mapped = if e == 'n' {
                        '\n'
                    } else if e == 'r' {
                        '\r'
                    } else if e == 't' {
                        '\t'
                    } else if e == '"' {
                        '"'
                    } else if e == '\\' {
                        '\\'
                    } else {
                        return Err(LogicError::UnsupportedEscape(e, start));
                    };
                    push_char(&mut text, mapped);
                    j = j + 2;
                } else {
                    push_char(&mut text, d);
                    j = j + 1;
                }
            }
            if !closed {
                return Err(LogicError::UnterminatedString(start));
            }
            t = Token::Value(Value::String(text));
            next = j;
        } else if ('0' <= c && c <= '9') || c == '.' || (c == '-' && i + 1 < n && (('0' <= s[i
            + 1] && s[i + 1] <= '9') || s[i + 1] == '.')) {
            let mut e = i + 1;
            while e < n && (('0' <= s[e] && s[e] <= '9') || s[e] == '.')
                invariant
                    i < e <= n,
                    n == s@.len(),
                    number_end(s@, i + 1) == number_end(s@, e as int),
                decreases n - e,
            {
                e = e + 1;
            }
            let raw = slice_subrange(s.as_slice(), i, e);
            if !is_float_text(raw) {
                return Err(LogicError::InvalidNumber(string_of(raw)));
            }
            t = Token::Value(Value::Number(string_of(raw)));
            next = e;
        } else if ('a' <= c && c <= 'z') || ('A' <= c && c <= 'Z') || c == '_' {
            let mut e = i + 1;
            while e < n && (('a' <= s[e] && s[e] <= 'z') || ('A' <= s[e] && s[e] <= 'Z') || ('0'
                <= s[e] && s[e] <= '9') || s[e] == '_')
                invariant
                    i < e <= n,
                    n == s@.len(),
                    name_end(s@, i + 1) == name_end(s@, e as int),
                decreases n - e,
            {
                e = e + 1;
            }
            let word = slice_subrange(s.as_slice(), i, e);
            t = if chars_eq_str(word, "true") {
                Token::Value(Value::Bool(true))
            } else if chars_eq_str(word, "false") {
                Token::Value(Value::Bool(false))
            } else {
                Token::Variable(string_of(word))
            };
            next = e;
        } else {
            return Err(LogicError::UnexpectedCharacter(c, byte_position(s.as_slice(), i) + 1));
        }
        proof {
            assert(tokenize_from(sv, i as int) == prepend(t@, tokenize_from(sv, next as int)));
            lemma_prepend_all_push(before, t@, tokenize_from(sv, next as int));
            crate::scan::lemma_map_push(tokens@, t, |t: Token| t@);
        }
        tokens.push(t);
        i = next;
    }
    assert(view_tokens(tokens@) + Seq::<LTokenModel>::empty() =~= view_tokens(tokens@));
    Ok(tokens)
}

} // verus!

verus! {

/// A logic expression, or the error that reading it met.
#[derive(Debug, PartialEq)]
pub enum LogicExpression {
    Error(LogicError),
    Value(Value),
    Variable(String),
    Not(Box<LogicExpression>),
    IsEqual(Box<LogicExpression>, Box<LogicExpression>),
    IsNotEqual(Box<LogicExpression>, Box<LogicExpression>),
    IsLessThan(Box<LogicExpression>, Box<LogicExpression>),
    IsLessThanOrEqual(Box<LogicExpression>, Box<LogicExpression>),
    IsGreaterThan(Box<LogicExpression>, Box<LogicExpression>),
    IsGreaterThanOrEqual(Box<LogicExpression>, Box<LogicExpression>),
    And(Box<LogicExpression>, Box<LogicExpression>),
    Or(Box<LogicExpression>, Box<LogicExpression>),
}

/// The mathematical value of a [`LogicExpression`].
pub enum LExprModel {
    Error(LErrorModel),
    Value(ValueModel),
    Variable(Seq<char>),
    Not(Box<LExprModel>),
    IsEqual(Box<LExprModel>, Box<LExprModel>),
    IsNotEqual(Box<LExprModel>, Box<LExprModel>),
    IsLessThan(Box<LExprModel>, Box<LExprModel>),
    IsLessThanOrEqual(Box<LExprModel>, Box<LExprModel>),
    IsGreaterThan(Box<LExprModel>, Box<LExprModel>),
    IsGreaterThanOrEqual(Box<LExprModel>, Box<LExprModel>),
    And(Box<LExprModel>, Box<LExprModel>),
    Or(Box<LExprModel>, Box<LExprModel>),
}

pub open spec fn view_logic(e: LogicExpression) -> LExprModel
    decreases e,
{
    match e {
        LogicExpression::Error(x) => LExprModel::Error(x@),
        LogicExpression::Value(v) => LExprModel::Value(v@),
        LogicExpression::Variable(n) => LExprModel::Variable(n@),
        LogicExpression::Not(x) => LExprModel::Not(Box::new(view_logic(*x))),
        LogicExpression::IsEqual(l, r) => LExprModel::IsEqual(Box::new(view_logic(*l)), Box::new(view_logic(*r))),
        LogicExpression::IsNotEqual(l, r) => LExprModel::IsNotEqual(Box::new(view_logic(*l)), Box::new(view_logic(*r))),
        LogicExpression::IsLessThan(l, r) => LExprModel::IsLessThan(Box::new(view_logic(*l)), Box::new(view_logic(*r))),
        LogicExpression::IsLessThanOrEqual(l, r) => LExprModel::IsLessThanOrEqual(
            Box::new(view_logic(*l)),
            Box::new(view_logic(*r)),
        ),
        LogicExpression::IsGreaterThan(l, r) => LExprModel::IsGreaterThan(Box::new(view_logic(*l)), Box::new(view_logic(*r))),
        LogicExpression::IsGreaterThanOrEqual(l, r) => LExprModel::IsGreaterThanOrEqual(
            Box::new(view_logic(*l)),
            Box::new(view_logic(*r)),
        ),
        LogicExpression::And(l, r) => LExprModel::And(Box::new(view_logic(*l)), Box::new(view_logic(*r))),
        LogicExpression::Or(l, r) => LExprModel::Or(Box::new(view_logic(*l)), Box::new(view_logic(*r))),
    }
}

impl View for LogicExpression {
    type V = LExprModel;

    open spec fn view(&self) -> LExprModel {
        view_logic(*self)
    }
}

/// Whether `t` is an operator of binary level `level`: 0 `||`, 1 `&&`, 2 `==` and `!=`,
/// 3 `<`, `<=`, `>` and `>=`.
pub open spec fn is_level_op(level: int, t: LTokenModel) -> bool {
    if level == 0 {
        t is Or
    } else if level == 1 {
        t is And
    } else if level == 2 {
        t is Equal || t is NotEqual
    } else {
        t is LessThan || t is LessThanOrEqual || t is GreaterThan || t is GreaterThanOrEqual
    }
}

/// The node that the operator `op` makes of its operands.
pub open spec fn binary_node(op: LTokenModel, l: LExprModel, r: LExprModel) -> LExprModel {
    match op {
        LTokenModel::Or => LExprModel::Or(Box::new(l), Box::new(r)),
        LTokenModel::And => LExprModel::And(Box::new(l), Box::new(r)),
        LTokenModel::Equal => LExprModel::IsEqual(Box::new(l), Box::new(r)),
        LTokenModel::NotEqual => LExprModel::IsNotEqual(Box::new(l), Box::new(r)),
        LTokenModel::LessThan => LExprModel::IsLessThan(Box::new(l), Box::new(r)),
        LTokenModel::LessThanOrEqual => LExprModel::IsLessThanOrEqual(Box::new(l), Box::new(r)),
        LTokenModel::GreaterThan => LExprModel::IsGreaterThan(Box::new(l), Box::new(r)),
        _ => LExprModel::IsGreaterThanOrEqual(Box::new(l), Box::new(r)),
    }
}

/// An operand at `pos`: a value, a variable that exists, or an expression in
/// parentheses; with the position after it.
pub open spec fn p_operand(ts: Seq<LTokenModel>, pos: int, vars: Map<Seq<char>, ValueModel>) -> Result<(LExprModel, int), LErrorModel>
    decreases ts.len() - pos, 0int,
{
    if pos < 0 || pos >= ts.len() {
        Err(LErrorModel::EndOfExpression)
    } else {
        match ts[pos] {
            LTokenModel::Value(v) => Ok((LExprModel::Value(v), pos + 1)),
            LTokenModel::Variable(name) => if vars.contains_key(name) {
                Ok((LExprModel::Variable(name), pos + 1))
            } else {
                Err(LErrorModel::VariableNotFound(name))
            },
            LTokenModel::LeftParen => match p_binary(ts, pos + 1, 0, vars) {
                Ok((e, p)) => if 0 <= p < ts.len() && ts[p] is RightParen {
                    Ok((e, p + 1))
                } else {
                    Err(LErrorModel::ExpectedRightParen)
                },
                Err(e) => Err(e),
            },
            t => Err(LErrorModel::ExpectedOperand(t)),
        }
    }
}

/// An operand after any number of `!`.
pub open spec fn p_unary(ts: Seq<LTokenModel>, pos: int, vars: Map<Seq<char>, ValueModel>) -> Result<(LExprModel, int), LErrorModel>
    decreases ts.len() - pos, 1int,
{
    if 0 <= pos < ts.len() && ts[pos] is Not {
        match p_unary(ts, pos + 1, vars) {
            Ok((e, p)) => Ok((LExprModel::Not(Box::new(e)), p)),
            Err(e) => Err(e),
        }
    } else {
        p_operand(ts, pos, vars)
    }
}

/// What binds tighter than the operators of `level`.
pub open spec fn p_lower(ts: Seq<LTokenModel>, pos: int, level: int, vars: Map<Seq<char>, ValueModel>) -> Result<(LExprModel, int), LErrorModel>
    decreases ts.len() - pos, 3 + 2 * (3 - level) - 1,
{
    if 0 <= level < 3 {
        p_binary(ts, pos, level + 1, vars)
    } else if level == 3 {
        p_unary(ts, pos, vars)
    } else {
        Err(LErrorModel::Empty)
    }
}

/// Continues an expression of `level` whose first part `acc` ends before `pos`.
pub open spec fn p_rest(ts: Seq<LTokenModel>, pos: int, acc: LExprModel, level: int, vars: Map<Seq<char>, ValueModel>) -> Result<(LExprModel, int), LErrorModel>
    decreases ts.len() - pos, 2 + 2 * (3 - level),
{
    if 0 <= level <= 3 && 0 <= pos < ts.len() && is_level_op(level, ts[pos]) {
        match p_lower(ts, pos + 1, level, vars) {
            Ok((r, p)) => if pos < p <= ts.len() {
                p_rest(ts, p, binary_node(ts[pos], acc, r), level, vars)
            } else {
                Err(LErrorModel::Empty)
            },
            Err(e) => Err(e),
        }
    } else {
        Ok((acc, pos))
    }
}

/// An expression of binary level `level` (see [`is_level_op`]) at `pos`, with the
/// position after it.
pub open spec fn p_binary(ts: Seq<LTokenModel>, pos: int, level: int, vars: Map<Seq<char>, ValueModel>) -> Result<(LExprModel, int), LErrorModel>
    decreases ts.len() - pos, 3 + 2 * (3 - level),
{
    if level < 0 || level > 3 {
        Err(LErrorModel::Empty)
    } else {
        match p_lower(ts, pos, level, vars) {
            Ok((l, p)) => if pos <= p <= ts.len() {
                p_rest(ts, p, l, level, vars)
            } else {
                Err(LErrorModel::Empty)
            },
            Err(e) => Err(e),
        }
    }
}

} // verus!

verus! {

proof fn lemma_operand_advances(ts: Seq<LTokenModel>, pos: int, vars: Map<Seq<char>, ValueModel>)
    requires
        0 <= pos,
    ensures
        p_operand(ts, pos, vars) matches Ok((_, p)) ==> pos < p <= ts.len(),
    decreases ts.len() - pos, 0int,
{
    if 0 <= pos < ts.len() && ts[pos] is LeftParen {
        lemma_binary_advances(ts, pos + 1, 0, vars);
    }
}

proof fn lemma_unary_advances(ts: Seq<LTokenModel>, pos: int, vars: Map<Seq<char>, ValueModel>)
    requires
        0 <= pos,
    ensures
        p_unary(ts, pos, vars) matches Ok((_, p)) ==> pos < p <= ts.len(),
    decreases ts.len() - pos, 1int,
{
    if 0 <= pos < ts.len() && ts[pos] is Not {
        lemma_unary_advances(ts, pos + 1, vars);
    } else {
        lemma_operand_advances(ts, pos, vars);
    }
}

proof fn lemma_lower_advances(ts: Seq<LTokenModel>, pos: int, level: int, vars: Map<Seq<char>, ValueModel>)
    requires
        0 <= pos,
    ensures
        p_lower(ts, pos, level, vars) matches Ok((_, p)) ==> pos < p <= ts.len(),
    decreases ts.len() - pos, 3 + 2 * (3 - level) - 1,
{
    if 0 <= level < 3 {
        lemma_binary_advances(ts, pos, level + 1, vars);
    } else if level == 3 {
        lemma_unary_advances(ts, pos, vars);
    }
}

proof fn lemma_rest_advances(ts: Seq<LTokenModel>, pos: int, acc: LExprModel, level: int, vars: Map<Seq<char>, ValueModel>)
    requires
        0 <= pos <= ts.len(),
    ensures
        p_rest(ts, pos, acc, level, vars) matches Ok((_, p)) ==> pos <= p <= ts.len(),
    decreases ts.len() - pos, 2 + 2 * (3 - level),
{
    if 0 <= level <= 3 && 0 <= pos < ts.len() && is_level_op(level, ts[pos]) {
        lemma_lower_advances(ts, pos + 1, level, vars);
        match p_lower(ts, pos + 1, level, vars) {
            Ok((r, p)) => {
                if pos < p <= ts.len() {
                    lemma_rest_advances(ts, p, binary_node(ts[pos], acc, r), level, vars);
                }
            },
            Err(_) => {},
        }
    }
}

proof fn lemma_binary_advances(ts: Seq<LTokenModel>, pos: int, level: int, vars: Map<Seq<char>, ValueModel>)
    requires
        0 <= pos,
    ensures
        p_binary(ts, pos, level, vars) matches Ok((_, p)) ==> pos < p <= ts.len(),
    decreases ts.len() - pos, 3 + 2 * (3 - level),
{
    if 0 <= level <= 3 {
        lemma_lower_advances(ts, pos, level, vars);
        match p_lower(ts, pos, level, vars) {
            Ok((l, p)) => {
                if pos <= p <= ts.len() {
                    lemma_rest_advances(ts, p, l, level, vars);
                }
            },
            Err(_) => {},
        }
    }
}

/// The expression that the tokens form: there must be tokens, and the expression must
/// take all of them.
pub open spec fn spec_parse_logic_tokens(ts: Seq<LTokenModel>, vars: Map<Seq<char>, ValueModel>) -> Result<LExprModel, LErrorModel> {
    if ts.len() == 0 {
        Err(LErrorModel::Empty)
    } else {
        match p_binary(ts, 0, 0, vars) {
            Ok((e, p)) => if 0 <= p < ts.len() {
                Err(LErrorModel::UnexpectedToken(ts[p]))
            } else {
                Ok(e)
            },
            Err(e) => Err(e),
        }
    }
}

/// The logic expression written in `s`, or the error met reading it.
pub open spec fn spec_logic_parse(s: Seq<char>, vars: Map<Seq<char>, ValueModel>) -> LExprModel {
    match tokenize_from(s, 0) {
        Ok(ts) => match spec_parse_logic_tokens(ts, vars) {
            Ok(e) => e,
            Err(e) => LExprModel::Error(e),
        },
        Err(e) => LExprModel::Error(e),
    }
}

fn parse_operand(ts: &Vec<Token>, pos: usize, vars: &VarMap) -> (r: Result<(LogicExpression, usize), LogicError>)
    requires
        pos <= ts@.len(),
    ensures
        match p_operand(view_tokens(ts@), pos as int, vars@) {
            Ok((e, p)) => r matches Ok((x, q)) && x@ == e && q == p,
            Err(e) => r matches Err(x) && x@ == e,
        },
    decreases ts@.len() - pos, 0int,
{
    let ghost tv = view_tokens(ts@);
    if pos >= ts.len() {
        return Err(LogicError::EndOfExpression);
    }
    assert(tv[pos as int] == ts@[pos as int]@);
    match &ts[pos] {
        Token::Value(value) => Ok((LogicExpression::Value(value.duplicate()), pos + 1)),
        Token::Variable(name) => {
            let name = name.clone();
            if !vars.var_exists(&name) {
                return Err(LogicError::VariableNotFound(name));
            }
            Ok((LogicExpression::Variable(name), pos + 1))
        },
        Token::LeftParen => {
            proof {
                lemma_binary_advances(tv, pos + 1, 0, vars@);
            }
            let (expression, p) = match parse_binary(ts, pos + 1, 0, vars) {
                Ok(x) => x,
                Err(e) => return Err(e),
            };
            let closes = p < ts.len() && match &ts[p] {
                Token::RightParen => true,
                _ => false,
            };
            if p < ts.len() {
                assert(tv[p as int] == ts@[p as int]@);
            }
            if !closes {
                return Err(LogicError::ExpectedRightParen);
            }
            Ok((expression, p + 1))
        },
        token => Err(LogicError::ExpectedOperand(token.duplicate())),
    }
}

fn parse_unary(ts: &Vec<Token>, pos: usize, vars: &VarMap) -> (r: Result<(LogicExpression, usize), LogicError>)
    requires
        pos <= ts@.len(),
    ensures
        match p_unary(view_tokens(ts@), pos as int, vars@) {
            Ok((e, p)) => r matches Ok((x, q)) && x@ == e && q == p,
            Err(e) => r matches Err(x) && x@ == e,
        },
    decreases ts@.len() - pos, 1int,
{
    let ghost tv = view_tokens(ts@);
    if pos < ts.len() {
        assert(tv[pos as int] == ts@[pos as int]@);
        if let Token::Not = &ts[pos] {
            let (inner, p) = match parse_unary(ts, pos + 1, vars) {
                Ok(x) => x,
                Err(e) => return Err(e),
            };
            return Ok((LogicExpression::Not(Box::new(inner)), p));
        }
    }
    parse_operand(ts, pos, vars)
}

fn parse_lower(ts: &Vec<Token>, pos: usize, level: u8, vars: &VarMap) -> (r: Result<(LogicExpression, usize), LogicError>)
    requires
        pos <= ts@.len(),
        level <= 3,
    ensures
        match p_lower(view_tokens(ts@), pos as int, level as int, vars@) {
            Ok((e, p)) => r matches Ok((x, q)) && x@ == e && q == p,
            Err(e) => r matches Err(x) && x@ == e,
        },
    decreases ts@.len() - pos, 3 + 2 * (3 - level) - 1,
{
    if level < 3 {
        parse_binary(ts, pos, level + 1, vars)
    } else {
        parse_unary(ts, pos, vars)
    }
}

/// Whether the token is an operator of the level; see [`is_level_op`].
fn level_op(level: u8, t: &Token) -> (r: bool)
    ensures
        r == is_level_op(level as int, t@),
{
    match t {
        Token::Or => level == 0,
        Token::And => level == 1,
        Token::Equal | Token::NotEqual => level == 2,
        Token::LessThan | Token::LessThanOrEqual | Token::GreaterThan | Token::GreaterThanOrEqual => level >= 3,
        _ => false,
    }
}

fn make_binary(op: &Token, l: LogicExpression, r: LogicExpression) -> (x: LogicExpression)
    ensures
        x@ == binary_node(op@, l@, r@),
{
    match op {
        Token::Or => LogicExpression::Or(Box::new(l), Box::new(r)),
        Token::And => LogicExpression::And(Box::new(l), Box::new(r)),
        Token::Equal => LogicExpression::IsEqual(Box::new(l), Box::new(r)),
        Token::NotEqual => LogicExpression::IsNotEqual(Box::new(l), Box::new(r)),
        Token::LessThan => LogicExpression::IsLessThan(Box::new(l), Box::new(r)),
        Token::LessThanOrEqual => LogicExpression::IsLessThanOrEqual(Box::new(l), Box::new(r)),
        Token::GreaterThan => LogicExpression::IsGreaterThan(Box::new(l), Box::new(r)),
        _ => LogicExpression::IsGreaterThanOrEqual(Box::new(l), Box::new(r)),
    }
}

/// An expression of binary level `level`; see [`p_binary`].
fn parse_binary(ts: &Vec<Token>, pos: usize, level: u8, vars: &VarMap) -> (r: Result<(LogicExpression, usize), LogicError>)
    requires
        pos <= ts@.len(),
        level <= 3,
    ensures
        match p_binary(view_tokens(ts@), pos as int, level as int, vars@) {
            Ok((e, p)) => r matches Ok((x, q)) && x@ == e && q == p,
            Err(e) => r matches Err(x) && x@ == e,
        },
    decreases ts@.len() - pos, 3 + 2 * (3 - level),
{
    let ghost tv = view_tokens(ts@);
    proof {
        lemma_lower_advances(tv, pos as int, level as int, vars@);
    }
    let (mut expression, mut p) = match parse_lower(ts, pos, level, vars) {
        Ok(x) => x,
        Err(e) => return Err(e),
    };
    loop
        invariant
            tv == view_tokens(ts@),
            level <= 3,
            pos <= p <= ts@.len(),
            p_binary(tv, pos as int, level as int, vars@) == p_rest(tv, p as int, expression@, level as int, vars@),
        ensures
            p_binary(tv, pos as int, level as int, vars@) == Ok::<(LExprModel, int), LErrorModel>((expression@, p as int)),
        decreases ts@.len() - p,
    {
        if p >= ts.len() {
            break;
        }
        assert(tv[p as int] == ts@[p as int]@);
        if !level_op(level, &ts[p]) {
            break;
        }
        proof {
            lemma_lower_advances(tv, p + 1, level as int, vars@);
        }
        let (right, q) = match parse_lower(ts, p + 1, level, vars) {
            Ok(x) => x,
            Err(e) => return Err(e),
        };
        expression = make_binary(&ts[p], expression, right);
        p = q;
    }
    Ok((expression, p))
}

/// Reads a logic expression over the variables of `vars`; see [`spec_logic_parse`]. A
/// failure is given as a [`LogicExpression::Error`].
pub fn attempt_logic_parse(to_parse: String, vars: &VarMap) -> (r: LogicExpression)
    ensures
        r@ == spec_logic_parse(to_parse@, vars@),
{
    let tokens = match tokenize(to_parse.as_str()) {
        Ok(tokens) => tokens,
        Err(error) => return LogicExpression::Error(error),
    };
    if tokens.len() == 0 {
        return LogicExpression::Error(LogicError::Empty);
    }
    let ghost tv = view_tokens(tokens@);
    let (expression, p) = match parse_binary(&tokens, 0, 0, vars) {
        Ok(x) => x,
        Err(error) => return LogicExpression::Error(error),
    };
    proof {
        lemma_binary_advances(tv, 0, 0, vars@);
    }
    if p < tokens.len() {
        assert(tv[p as int] == tokens@[p as int]@);
        return LogicExpression::Error(LogicError::UnexpectedToken(tokens[p].duplicate()));
    }
    expression
}


/// The name of a value's kind, as error messages give it.
pub open spec fn kind_name(v: ValueModel) -> Seq<char> {
    match v {
        ValueModel::String(_) => "string"@,
        ValueModel::Number(_) => "number"@,
        ValueModel::Bool(_) => "bool"@,
        ValueModel::Undefined => "undefined"@,
    }
}

/// The name of the value's kind: `string`, `number`, `bool` or `undefined`.
pub fn value_type(value: &Value) -> (r: &'static str)
    ensures
        r@ == kind_name(value@),
{
    match value {
        Value::String(_) => "string",
        Value::Number(_) => "number",
        Value::Bool(_) => "bool",
        Value::Undefined => "undefined",
    }
}

/// An error that no policy excuses, with the given message.
pub fn type_error(message: String) -> (r: RuntimeError)
    ensures
        r.message_of() == message@,
        r.kind_of() == ErrorType::AlwaysError,
{
    RuntimeError::new(message, ErrorType::AlwaysError)
}

/// The message of an operand of `&&`, `||` or `!` that is no bool.
pub open spec fn not_bool_message(operator: Seq<char>, v: ValueModel) -> Seq<char> {
    "Operator `"@ + operator + "` requires bool operands, found "@ + kind_name(v)
}

/// The bool that an operand of a logical operator holds; any other value is an error.
pub fn expect_bool(value: Value, operator: &str) -> (r: Result<bool, RuntimeError>)
    ensures
        match value@ {
            ValueModel::Bool(b) => r == Ok::<bool, RuntimeError>(b),
            v => r matches Err(e) && e.message_of() == not_bool_message(operator@, v)
                && e.kind_of() == ErrorType::AlwaysError,
        },
{
    match value {
        Value::Bool(b) => Ok(b),
        other => {
            let mut message = String::new();
            push_str(&mut message, "Operator `");
            push_str(&mut message, operator);
            push_str(&mut message, "` requires bool operands, found ");
            push_str(&mut message, value_type(&other));
            Err(type_error(message))
        },
    }
}

/// The value of the variable `name` as an operand: an undefined variable is an error of
/// kind `OnUndefinedValue`, which the policy answers with its replacement value or lets
/// through; a missing variable is an error.
pub fn resolve_variable(name: &str, vars: &VarMap, policy: &ExecutionPolicy) -> (r: Result<Value, RuntimeError>)
    ensures
        !vars@.contains_key(name@) ==> (r matches Err(e) && e.message_of() == "Variable not found: "@
            + name@ && e.kind_of() == ErrorType::AlwaysError),
        vars@.contains_key(name@) && vars@[name@] != ValueModel::Undefined ==> (r matches Ok(v)
            && v@ == vars@[name@]),
        vars@.contains_key(name@) && vars@[name@] == ValueModel::Undefined ==> match policy@.undefined_as {
            Some(w) => r matches Ok(v) && v@ == w,
            None => r matches Err(e) && e.message_of() == "Cannot use undefined variable: "@ + name@
                && e.kind_of() == ErrorType::OnUndefinedValue,
        },
{
    let key = name.to_owned();
    match vars.get_pure_value(key) {
        Some(Value::Undefined) => {
            let mut message = String::new();
            push_str(&mut message, "Cannot use undefined variable: ");
            push_str(&mut message, name);
            let error = RuntimeError::new(message, ErrorType::OnUndefinedValue);
            match policy.handle_error(error) {
                Ok(Some(value)) => Ok(value),
                Ok(None) => {
                    let mut message = String::new();
                    push_str(&mut message, "No replacement value supplied for undefined variable: ");
                    push_str(&mut message, name);
                    Err(type_error(message))
                },
                Err(e) => Err(e),
            }
        },
        Some(value) => Ok(value),
        None => {
            let mut message = String::new();
            push_str(&mut message, "Variable not found: ");
            push_str(&mut message, name);
            Err(type_error(message))
        },
    }
}

/// The outcome of a logic expression whose value has been computed: it must be a bool.
pub fn logic_result(value: Value) -> (r: Result<bool, RuntimeError>)
    ensures
        match value@ {
            ValueModel::Bool(b) => r == Ok::<bool, RuntimeError>(b),
            v => r matches Err(e) && e.message_of() == "LogicExpression must evaluate to a bool, found "@
                + kind_name(v) && e.kind_of() == ErrorType::AlwaysError,
        },
{
    match value {
        Value::Bool(b) => Ok(b),
        other => {
            let mut message = String::new();
            push_str(&mut message, "LogicExpression must evaluate to a bool, found ");
            push_str(&mut message, value_type(&other));
            Err(type_error(message))
        },
    }
}

/// How two operands are ordered. Numbers may be `Unordered` (one is not a number).
#[derive(Debug, Clone, Copy, PartialEq, Eq, Structural)]
pub enum Order {
    Less,
    Equal,
    Greater,
    Unordered,
}

/// An ordering operator of logic expressions.
#[derive(Debug, Clone, Copy, PartialEq, Eq, Structural)]
pub enum OrderOp {
    Less,
    LessOrEqual,
    Greater,
    GreaterOrEqual,
}

/// How an ordering operator is written.
pub open spec fn order_op_text(op: OrderOp) -> Seq<char> {
    match op {
        OrderOp::Less => "<"@,
        OrderOp::LessOrEqual => "<="@,
        OrderOp::Greater => ">"@,
        OrderOp::GreaterOrEqual => ">="@,
    }
}

fn order_op_str(op: OrderOp) -> (r: &'static str)
    ensures
        r@ == order_op_text(op),
{
    match op {
        OrderOp::Less => "<",
        OrderOp::LessOrEqual => "<=",
        OrderOp::Greater => ">",
        OrderOp::GreaterOrEqual => ">=",
    }
}

/// Whether an ordering operator holds of two operands so ordered.
pub open spec fn order_holds(op: OrderOp, o: Order) -> bool {
    match op {
        OrderOp::Less => o == Order::Less,
        OrderOp::LessOrEqual => o == Order::Less || o == Order::Equal,
        OrderOp::Greater => o == Order::Greater,
        OrderOp::GreaterOrEqual => o == Order::Greater || o == Order::Equal,
    }
}

/// The order of two texts: character by character by code point, a text before any
/// longer text that it starts (the order of `String`, whose UTF-8 bytes keep the order of
/// code points).
pub open spec fn text_order(a: Seq<char>, b: Seq<char>) -> Order
    decreases a.len(),
{
    if a.len() == 0 {
        if b.len() == 0 {
            Order::Equal
        } else {
            Order::Less
        }
    } else if b.len() == 0 {
        Order::Greater
    } else if a[0] < b[0] {
        Order::Less
    } else if a[0] > b[0] {
        Order::Greater
    } else {
        text_order(a.drop_first(), b.drop_first())
    }
}

/// Orders two texts; see [`text_order`].
pub fn compare_texts(a: &str, b: &str) -> (r: Order)
    ensures
        r == text_order(a@, b@),
{
    let x = chars_of(a);
    let y = chars_of(b);
    let mut i: usize = 0;
    assert(x@.subrange(0, x@.len() as int) =~= x@);
    assert(y@.subrange(0, y@.len() as int) =~= y@);
    while i < x.len() && i < y.len()
        invariant
            x@ == a@,
            y@ == b@,
            i <= x@.len(),
            i <= y@.len(),
            text_order(x@, y@) == text_order(x@.subrange(i as int, x@.len() as int), y@.subrange(i as int, y@.len() as int)),
        decreases x@.len() - i,
    {
        let ghost xs = x@.subrange(i as int, x@.len() as int);
        let ghost ys = y@.subrange(i as int, y@.len() as int);
        assert(xs[0] == x@[i as int] && ys[0] == y@[i as int]);
        if x[i] < y[i] {
            assert(text_order(xs, ys) == Order::Less);
            return Order::Less;
        }
        if x[i] > y[i] {
            assert(text_order(xs, ys) == Order::Greater);
            return Order::Greater;
        }
        assert(xs.drop_first() =~= x@.subrange(i + 1, x@.len() as int));
        assert(ys.drop_first() =~= y@.subrange(i + 1, y@.len() as int));
        i = i + 1;
    }
    let ghost xs = x@.subrange(i as int, x@.len() as int);
    let ghost ys = y@.subrange(i as int, y@.len() as int);
    if i < x.len() {
        assert(ys.len() == 0 && xs.len() > 0);
        Order::Greater
    } else if i < y.len() {
        assert(xs.len() == 0 && ys.len() > 0);
        Order::Less
    } else {
        assert(xs.len() == 0 && ys.len() == 0);
        Order::Equal
    }
}

/// `!` of an operand: the negation of a bool; any other value is an error.
pub fn negate(value: Value) -> (r: Result<Value, RuntimeError>)
    ensures
        match value@ {
            ValueModel::Bool(b) => r matches Ok(x) && x@ == ValueModel::Bool(!b),
            v => r matches Err(e) && e.message_of() == not_bool_message("!"@, v) && e.kind_of()
                == ErrorType::AlwaysError,
        },
{
    match expect_bool(value, "!") {
        Ok(b) => Ok(Value::Bool(!b)),
        Err(e) => Err(e),
    }
}

/// Whether two values are equal (`==`): values of different kinds never are; two
/// numbers are when `numbers_equal` says so; undefined equals undefined.
pub open spec fn spec_values_equal(l: ValueModel, r: ValueModel, numbers_equal: bool) -> bool {
    match (l, r) {
        (ValueModel::Number(_), ValueModel::Number(_)) => numbers_equal,
        (ValueModel::String(a), ValueModel::String(b)) => a == b,
        (ValueModel::Bool(a), ValueModel::Bool(b)) => a == b,
        (ValueModel::Undefined, ValueModel::Undefined) => true,
        _ => false,
    }
}

/// Equality of values; see [`spec_values_equal`]. The equality of two numbers is given.
pub fn values_equal(left: &Value, right: &Value, numbers_equal: bool) -> (r: bool)
    ensures
        r == spec_values_equal(left@, right@, numbers_equal),
{
    match (left, right) {
        (Value::Number(_), Value::Number(_)) => numbers_equal,
        (Value::String(a), Value::String(b)) => {
            let o = compare_texts(a.as_str(), b.as_str());
            proof {
                lemma_text_order_equal(a@, b@);
            }
            o == Order::Equal
        },
        (Value::Bool(a), Value::Bool(b)) => *a == *b,
        (Value::Undefined, Value::Undefined) => true,
        _ => false,
    }
}

/// Two texts are in the order `Equal` exactly when they are equal.
pub proof fn lemma_text_order_equal(a: Seq<char>, b: Seq<char>)
    ensures
        (text_order(a, b) == Order::Equal) == (a == b),
    decreases a.len(),
{
    if a.len() > 0 && b.len() > 0 {
        lemma_text_order_equal(a.drop_first(), b.drop_first());
        if a[0] == b[0] && a.drop_first() == b.drop_first() {
            assert(a =~= seq![a[0]] + a.drop_first());
            assert(b =~= seq![b[0]] + b.drop_first());
        }
        if a == b {
            assert(a.drop_first() == b.drop_first());
        }
    } else if a.len() == 0 && b.len() == 0 {
        assert(a =~= b);
    }
}

/// The error for operands of an ordering operator that are not two numbers or two texts.
pub open spec fn mixed_order_message(op: OrderOp, l: ValueModel, r: ValueModel) -> Seq<char> {
    "Operator `"@ + order_op_text(op) + "` requires two numbers or two strings, found "@ + kind_name(l)
        + " and "@ + kind_name(r)
}

/// An ordering operator applied to two values: two numbers are ordered as `numbers` says
/// (`Unordered` is an error); two texts by [`text_order`]; other pairs are an error.
pub fn compare_values(left: Value, right: Value, op: OrderOp, numbers: Order) -> (r: Result<Value, RuntimeError>)
    ensures
        match (left@, right@) {
            (ValueModel::Number(_), ValueModel::Number(_)) => if numbers == Order::Unordered {
                r matches Err(e) && e.message_of() == "Cannot compare values with `"@ + order_op_text(op) + "`"@
                    && e.kind_of() == ErrorType::AlwaysError
            } else {
                r matches Ok(x) && x@ == ValueModel::Bool(order_holds(op, numbers))
            },
            (ValueModel::String(a), ValueModel::String(b)) => r matches Ok(x) && x@ == ValueModel::Bool(
                order_holds(op, text_order(a, b))),
            (l, rv) => r matches Err(e) && e.message_of() == mixed_order_message(op, l, rv) && e.kind_of()
                == ErrorType::AlwaysError,
        },
{
    let ordering = match (&left, &right) {
        (Value::Number(_), Value::Number(_)) => {
            if numbers == Order::Unordered {
                let mut message = String::new();
                push_str(&mut message, "Cannot compare values with `");
                push_str(&mut message, order_op_str(op));
                push_str(&mut message, "`");
                return Err(type_error(message));
            }
            numbers
        },
        (Value::String(a), Value::String(b)) => compare_texts(a.as_str(), b.as_str()),
        _ => {
            let mut message = String::new();
            push_str(&mut message, "Operator `");
            push_str(&mut message, order_op_str(op));
            push_str(&mut message, "` requires two numbers or two strings, found ");
            push_str(&mut message, value_type(&left));
            push_str(&mut message, " and ");
            push_str(&mut message, value_type(&right));
            return Err(type_error(message));
        },
    };
    let holds = match op {
        OrderOp::Less => ordering == Order::Less,
        OrderOp::LessOrEqual => ordering == Order::Less || ordering == Order::Equal,
        OrderOp::Greater => ordering == Order::Greater,
        OrderOp::GreaterOrEqual => ordering == Order::Greater || ordering == Order::Equal,
    };
    Ok(Value::Bool(holds))
}

/// A logical operator.
#[derive(Debug, Clone, Copy, PartialEq, Eq, Structural)]
pub enum LogicalOp {
    And,
    Or,
}

pub open spec fn logical_op_text(op: LogicalOp) -> Seq<char> {
    match op {
        LogicalOp::And => "&&"@,
        LogicalOp::Or => "||"@,
    }
}

fn logical_op_str(op: LogicalOp) -> (r: &'static str)
    ensures
        r@ == logical_op_text(op),
{
    match op {
        LogicalOp::And => "&&",
        LogicalOp::Or => "||",
    }
}

/// The left operand of `&&` or `||`, which must be a bool: it decides the result alone
/// (`false &&`, `true ||`), or the right operand is to be read (`None`).
pub fn logical_left(op: LogicalOp, left: Value) -> (r: Result<Option<bool>, RuntimeError>)
    ensures
        match left@ {
            ValueModel::Bool(b) => r == Ok::<Option<bool>, RuntimeError>(match op {
                LogicalOp::And => if b { None } else { Some(false) },
                LogicalOp::Or => if b { Some(true) } else { None },
            }),
            v => r matches Err(e) && e.message_of() == not_bool_message(logical_op_text(op), v)
                && e.kind_of() == ErrorType::AlwaysError,
        },
{
    let b = match expect_bool(left, logical_op_str(op)) {
        Ok(b) => b,
        Err(e) => return Err(e),
    };
    match op {
        LogicalOp::And => if b { Ok(None) } else { Ok(Some(false)) },
        LogicalOp::Or => if b { Ok(Some(true)) } else { Ok(None) },
    }
}

/// The right operand of `&&` or `||` when the left one left it to decide: it must be a
/// bool, and it is the result.
pub fn logical_right(op: LogicalOp, right: Value) -> (r: Result<Value, RuntimeError>)
    ensures
        match right@ {
            ValueModel::Bool(b) => r matches Ok(x) && x@ == ValueModel::Bool(b),
            v => r matches Err(e) && e.message_of() == not_bool_message(logical_op_text(op), v)
                && e.kind_of() == ErrorType::AlwaysError,
        },
{
    match expect_bool(right, logical_op_str(op)) {
        Ok(b) => Ok(Value::Bool(b)),
        Err(e) => Err(e),
    }
}

/// The tokens that write an expression without parentheses.
pub open spec fn lflatten(e: LExprModel) -> Seq<LTokenModel>
    decreases e,
{
    match e {
        LExprModel::Value(v) => seq![LTokenModel::Value(v)],
        LExprModel::Variable(n) => seq![LTokenModel::Variable(n)],
        LExprModel::Not(x) => seq![LTokenModel::Not] + lflatten(*x),
        LExprModel::IsEqual(l, r) => lflatten(*l) + seq![LTokenModel::Equal] + lflatten(*r),
        LExprModel::IsNotEqual(l, r) => lflatten(*l) + seq![LTokenModel::NotEqual] + lflatten(*r),
        LExprModel::IsLessThan(l, r) => lflatten(*l) + seq![LTokenModel::LessThan] + lflatten(*r),
        LExprModel::IsLessThanOrEqual(l, r) => lflatten(*l) + seq![LTokenModel::LessThanOrEqual] + lflatten(*r),
        LExprModel::IsGreaterThan(l, r) => lflatten(*l) + seq![LTokenModel::GreaterThan] + lflatten(*r),
        LExprModel::IsGreaterThanOrEqual(l, r) => lflatten(*l) + seq![LTokenModel::GreaterThanOrEqual] + lflatten(*r),
        LExprModel::And(l, r) => lflatten(*l) + seq![LTokenModel::And] + lflatten(*r),
        LExprModel::Or(l, r) => lflatten(*l) + seq![LTokenModel::Or] + lflatten(*r),
        LExprModel::Error(_) => Seq::empty(),
    }
}

/// The binding level of an expression's top: 0 `||`, 1 `&&`, 2 the equalities, 3 the
/// orderings, 4 a negation, a value or a variable.
pub open spec fn node_level(e: LExprModel) -> int {
    match e {
        LExprModel::Or(_, _) => 0,
        LExprModel::And(_, _) => 1,
        LExprModel::IsEqual(_, _) | LExprModel::IsNotEqual(_, _) => 2,
        LExprModel::IsLessThan(_, _) | LExprModel::IsLessThanOrEqual(_, _) | LExprModel::IsGreaterThan(_, _)
        | LExprModel::IsGreaterThanOrEqual(_, _) => 3,
        _ => 4,
    }
}

pub open spec fn left_of(e: LExprModel) -> LExprModel {
    match e {
        LExprModel::Or(l, _) | LExprModel::And(l, _) | LExprModel::IsEqual(l, _) | LExprModel::IsNotEqual(l, _)
        | LExprModel::IsLessThan(l, _) | LExprModel::IsLessThanOrEqual(l, _) | LExprModel::IsGreaterThan(l, _)
        | LExprModel::IsGreaterThanOrEqual(l, _) => *l,
        _ => e,
    }
}

pub open spec fn right_of(e: LExprModel) -> LExprModel {
    match e {
        LExprModel::Or(_, r) | LExprModel::And(_, r) | LExprModel::IsEqual(_, r) | LExprModel::IsNotEqual(_, r)
        | LExprModel::IsLessThan(_, r) | LExprModel::IsLessThanOrEqual(_, r) | LExprModel::IsGreaterThan(_, r)
        | LExprModel::IsGreaterThanOrEqual(_, r) => *r,
        _ => e,
    }
}

/// Negations of a value or a variable.
pub open spec fn is_unary_shape(e: LExprModel) -> bool
    decreases e,
{
    match e {
        LExprModel::Not(x) => is_unary_shape(*x),
        LExprModel::Value(_) | LExprModel::Variable(_) => true,
        _ => false,
    }
}

/// The shape of an expression read at binary level `level` without parentheses: a chain,
/// associating to the left, of the level's operators over expressions of the next level;
/// below the last level, negations of values and variables.
pub open spec fn is_level_shape(e: LExprModel, level: int) -> bool
    decreases e, 4 - level,
{
    if level >= 4 {
        is_unary_shape(e)
    } else if node_level(e) == level {
        is_level_shape(left_of(e), level) && is_level_shape(right_of(e), level + 1)
    } else if level < 0 {
        false
    } else {
        is_level_shape(e, level + 1)
    }
}

/// No parentheses among the tokens.
pub open spec fn no_parens(ts: Seq<LTokenModel>) -> bool {
    forall|i: int| 0 <= i < ts.len() ==> !(#[trigger] ts[i] is LeftParen) && !(ts[i] is RightParen)
}

proof fn lemma_shape_level(e: LExprModel, level: int)
    requires
        0 <= level <= 4,
        is_level_shape(e, level),
    ensures
        node_level(e) >= level,
    decreases e, 4 - level,
{
    if level < 4 && node_level(e) != level {
        lemma_shape_level(e, level + 1);
    }
}

proof fn lemma_shape_up(e: LExprModel, level: int)
    requires
        0 <= level < 4,
        is_level_shape(e, level + 1),
    ensures
        is_level_shape(e, level),
{
    lemma_shape_level(e, level + 1);
}

proof fn lemma_operand_shape(ts: Seq<LTokenModel>, pos: int, vars: Map<Seq<char>, ValueModel>)
    requires
        0 <= pos,
        no_parens(ts),
    ensures
        p_operand(ts, pos, vars) matches Ok((e, p)) ==> p == pos + 1 && p <= ts.len() && lflatten(e)
            == ts.subrange(pos, p) && is_unary_shape(e),
{
    if 0 <= pos < ts.len() {
        assert(!(ts[pos] is LeftParen));
        if let Ok((e, p)) = p_operand(ts, pos, vars) {
            assert(lflatten(e) =~= ts.subrange(pos, p));
        }
    }
}

proof fn lemma_unary_shape(ts: Seq<LTokenModel>, pos: int, vars: Map<Seq<char>, ValueModel>)
    requires
        0 <= pos,
        no_parens(ts),
    ensures
        p_unary(ts, pos, vars) matches Ok((e, p)) ==> pos < p <= ts.len() && lflatten(e) == ts.subrange(pos, p)
            && is_unary_shape(e),
    decreases ts.len() - pos,
{
    if 0 <= pos < ts.len() && ts[pos] is Not {
        lemma_unary_shape(ts, pos + 1, vars);
        if let Ok((e, p)) = p_unary(ts, pos + 1, vars) {
            assert(lflatten(LExprModel::Not(Box::new(e))) =~= ts.subrange(pos, p));
        }
    } else {
        lemma_operand_shape(ts, pos, vars);
    }
}

proof fn lemma_lower_shape(ts: Seq<LTokenModel>, pos: int, level: int, vars: Map<Seq<char>, ValueModel>)
    requires
        0 <= pos,
        0 <= level <= 3,
        no_parens(ts),
    ensures
        p_lower(ts, pos, level, vars) matches Ok((e, p)) ==> pos < p <= ts.len() && lflatten(e)
            == ts.subrange(pos, p) && is_level_shape(e, level + 1),
    decreases ts.len() - pos, 3 + 2 * (3 - level) - 1,
{
    if level < 3 {
        lemma_binary_shape(ts, pos, level + 1, vars);
    } else {
        lemma_unary_shape(ts, pos, vars);
    }
}

proof fn lemma_rest_shape(ts: Seq<LTokenModel>, start: int, pos: int, acc: LExprModel, level: int, vars: Map<Seq<char>, ValueModel>)
    requires
        0 <= start <= pos <= ts.len(),
        0 <= level <= 3,
        no_parens(ts),
        lflatten(acc) == ts.subrange(start, pos),
        is_level_shape(acc, level),
    ensures
        p_rest(ts, pos, acc, level, vars) matches Ok((e, p)) ==> pos <= p <= ts.len() && lflatten(e)
            == ts.subrange(start, p) && is_level_shape(e, level),
    decreases ts.len() - pos, 2 + 2 * (3 - level),
{
    if 0 <= pos < ts.len() && is_level_op(level, ts[pos]) {
        lemma_lower_shape(ts, pos + 1, level, vars);
        match p_lower(ts, pos + 1, level, vars) {
            Ok((r, p)) => {
                if pos < p <= ts.len() {
                    let next = binary_node(ts[pos], acc, r);
                    assert(node_level(next) == level);
                    assert(left_of(next) == acc && right_of(next) == r);
                    assert(lflatten(next) =~= ts.subrange(start, p));
                    lemma_rest_shape(ts, start, p, next, level, vars);
                }
            },
            Err(_) => {},
        }
    }
}

proof fn lemma_binary_shape(ts: Seq<LTokenModel>, pos: int, level: int, vars: Map<Seq<char>, ValueModel>)
    requires
        0 <= pos,
        0 <= level <= 3,
        no_parens(ts),
    ensures
        p_binary(ts, pos, level, vars) matches Ok((e, p)) ==> pos < p <= ts.len() && lflatten(e)
            == ts.subrange(pos, p) && is_level_shape(e, level),
    decreases ts.len() - pos, 3 + 2 * (3 - level),
{
    lemma_lower_shape(ts, pos, level, vars);
    match p_lower(ts, pos, level, vars) {
        Ok((l, p)) => {
            if pos <= p <= ts.len() {
                lemma_shape_up(l, level);
                lemma_rest_shape(ts, pos, p, l, level, vars);
            }
        },
        Err(_) => {},
    }
}

/// Without parentheses, a logic expression is written with exactly the tokens it was
/// read from, in order, and has the shape that makes `!` bind tightest, then the
/// orderings, the equalities, `&&` and `||`, each binary operator associating to the
/// left.
pub proof fn law_logic_parse_keeps_tokens_and_precedence(ts: Seq<LTokenModel>, vars: Map<Seq<char>, ValueModel>)
    requires
        no_parens(ts),
    ensures
        spec_parse_logic_tokens(ts, vars) matches Ok(e) ==> lflatten(e) == ts && is_level_shape(e, 0),
{
    lemma_binary_shape(ts, 0, 0, vars);
    if let Ok((e, p)) = p_binary(ts, 0, 0, vars) {
        assert(ts.subrange(0, ts.len() as int) =~= ts);
    }
}

/// How a character is written inside a string literal: a line feed as `\n`, a carriage
/// return as `\r`, a tab as `\t`, `"` and `\` after a backslash, any other character as
/// itself.
pub open spec fn written_in_literal(c: char) -> Seq<char> {
    if c == '\n' {
        seq!['\\', 'n']
    } else if c == '\r' {
        seq!['\\', 'r']
    } else if c == '\t' {
        seq!['\\', 't']
    } else if c == '"' {
        seq!['\\', '"']
    } else if c == '\\' {
        seq!['\\', '\\']
    } else {
        seq![c]
    }
}

/// A text written between the quotes of a string literal, character by character.
pub open spec fn literal_body(x: Seq<char>) -> Seq<char>
    decreases x.len(),
{
    if x.len() == 0 {
        Seq::empty()
    } else {
        written_in_literal(x[0]) + literal_body(x.drop_first())
    }
}

/// Reading a literal body written for `x` and its closing quote gives `x`.
proof fn lemma_string_rest_reads_body(s: Seq<char>, j: int, acc: Seq<char>, start: nat, x: Seq<char>)
    requires
        0 <= j,
        j + literal_body(x).len() < s.len(),
        s.subrange(j, j + literal_body(x).len()) == literal_body(x),
        s[j + literal_body(x).len()] == '"',
    ensures
        string_rest(s, j, acc, start) == Ok::<(Seq<char>, int), LErrorModel>((acc + x, j + literal_body(x).len() + 1)),
    decreases x.len(),
{
    let body = literal_body(x);
    if x.len() == 0 {
        assert(acc + x =~= acc);
    } else {
        let c = x[0];
        let w = written_in_literal(c);
        let rest = literal_body(x.drop_first());
        assert(body == w + rest);
        assert(s[j] == body[0]);
        assert forall|k: int| 0 <= k < rest.len() implies s.subrange(j + w.len(), j + w.len() + rest.len())[k] == rest[k] by {
            assert(s.subrange(j, j + body.len())[w.len() + k] == body[w.len() + k]);
        }
        assert(s.subrange(j + w.len(), j + w.len() + rest.len()) =~= rest);
        assert(acc.push(c) + x.drop_first() =~= acc + x);
        if w.len() == 2 {
            assert(s[j + 1] == body[1]);
        }
        lemma_string_rest_reads_body(s, j + w.len(), acc.push(c), start, x.drop_first());
    }
}

/// A string literal is read as the text that it writes: for every text `x`, the literal
/// made of `"`, each character of `x` written as in [`written_in_literal`] (a line feed as
/// `\n`, and so on), and a closing `"` is read as the one token `Value(String(x))`; the
/// escapes stand for their control characters.
pub proof fn law_string_literal_reads_back(x: Seq<char>)
    ensures
        tokenize_from(seq!['"'] + literal_body(x) + seq!['"'], 0)
            == Ok::<Seq<LTokenModel>, LErrorModel>(seq![LTokenModel::Value(ValueModel::String(x))]),
{
    let s = seq!['"'] + literal_body(x) + seq!['"'];
    let n = literal_body(x).len() as int;
    assert(s.subrange(1, 1 + n) =~= literal_body(x));
    lemma_string_rest_reads_body(s, 1, Seq::empty(), byte_offset(s, 0) + 1, x);
    assert(Seq::<char>::empty() + x =~= x);
    assert(tokenize_from(s, n + 2) == Ok::<Seq<LTokenModel>, LErrorModel>(Seq::empty()));
    assert(seq![LTokenModel::Value(ValueModel::String(x))] + Seq::<LTokenModel>::empty() =~= seq![LTokenModel::Value(ValueModel::String(x))]);
}

} // verus!
