//! The arithmetic unit: reads arithmetic expressions over numbers and variables with
//! `+`, `-`, `*` and `/` (the last two binding tighter, all left-associative).
//!
//! Numbers are held by their numerals; computing with them is done outside the library.
use vstd::prelude::*;
use vstd::slice::slice_subrange;

use crate::text::{is_ws, char_is_whitespace, chars_of, string_of, byte_offset, utf8_len, char_len_utf8};
use crate::numeral::{is_digit, is_decimal};
use crate::var_handler::{VarMap, ValueModel};

verus! {

/// A token of an arithmetic expression.
#[derive(Debug, PartialEq)]
pub enum Token {
    Number(String),
    Variable(String),
    Plus,
    Minus,
    Multiply,
    Divide,
}

/// The mathematical value of a [`Token`].
pub enum TokenModel {
    Number(Seq<char>),
    Variable(Seq<char>),
    Plus,
    Minus,
    Multiply,
    Divide,
}

impl View for Token {
    type V = TokenModel;

    open spec fn view(&self) -> TokenModel {
        match self {
            Token::Number(n) => TokenModel::Number(n@),
            Token::Variable(v) => TokenModel::Variable(v@),
            Token::Plus => TokenModel::Plus,
            Token::Minus => TokenModel::Minus,
            Token::Multiply => TokenModel::Multiply,
            Token::Divide => TokenModel::Divide,
        }
    }
}

impl Token {
    pub fn duplicate(&self) -> (r: Token)
        ensures
            r@ == self@,
    {
        match self {
            Token::Number(n) => Token::Number(n.clone()),
            Token::Variable(v) => Token::Variable(v.clone()),
            Token::Plus => Token::Plus,
            Token::Minus => Token::Minus,
            Token::Multiply => Token::Multiply,
            Token::Divide => Token::Divide,
        }
    }
}

/// Why an expression could not be read. Each is reported with the message written next
/// to it.
#[derive(Debug, PartialEq)]
pub enum CalcError {
    /// `Unexpected character '{c}' at position {p}` (`p` counts bytes from 1).
    UnexpectedCharacter(char, u128),
    /// `Invalid number: {numeral}`.
    InvalidNumber(String),
    /// `Expected an expression`.
    Empty,
    /// `Unexpected token: {token:?}`.
    UnexpectedToken(Token),
    /// `Expected an operand, found {token:?}`.
    ExpectedOperand(Token),
    /// `Expected an operand, found end of expression`.
    EndOfExpression,
    /// `Variable not found: {name}`.
    VariableNotFound(String),
}

/// The mathematical value of a [`CalcError`].
pub enum CalcErrorModel {
    UnexpectedCharacter(char, nat),
    InvalidNumber(Seq<char>),
    Empty,
    UnexpectedToken(TokenModel),
    ExpectedOperand(TokenModel),
    EndOfExpression,
    VariableNotFound(Seq<char>),
}

impl View for CalcError {
    type V = CalcErrorModel;

    open spec fn view(&self) -> CalcErrorModel {
        match self {
            CalcError::UnexpectedCharacter(c, p) => CalcErrorModel::UnexpectedCharacter(*c, *p as nat),
            CalcError::InvalidNumber(n) => CalcErrorModel::InvalidNumber(n@),
            CalcError::Empty => CalcErrorModel::Empty,
            CalcError::UnexpectedToken(t) => CalcErrorModel::UnexpectedToken(t@),
            CalcError::ExpectedOperand(t) => CalcErrorModel::ExpectedOperand(t@),
            CalcError::EndOfExpression => CalcErrorModel::EndOfExpression,
            CalcError::VariableNotFound(v) => CalcErrorModel::VariableNotFound(v@),
        }
    }
}

pub open spec fn is_ascii_alpha(c: char) -> bool {
    ('a' <= c <= 'z') || ('A' <= c <= 'Z')
}

/// A character that continues a numeral.
pub open spec fn is_number_char(c: char) -> bool {
    is_digit(c) || c == '.'
}

/// A character that continues a name.
pub open spec fn is_name_char(c: char) -> bool {
    is_ascii_alpha(c) || is_digit(c) || c == '_'
}

/// The end of the run of numeral characters starting at `j`.
pub open spec fn number_end(s: Seq<char>, j: int) -> int
    decreases s.len() - j,
{
    if 0 <= j < s.len() && is_number_char(s[j]) {
        number_end(s, j + 1)
    } else {
        j
    }
}

/// The end of the run of name characters starting at `j`.
pub open spec fn name_end(s: Seq<char>, j: int) -> int
    decreases s.len() - j,
{
    if 0 <= j < s.len() && is_name_char(s[j]) {
        name_end(s, j + 1)
    } else {
        j
    }
}

pub proof fn lemma_number_end(s: Seq<char>, j: int)
    requires
        0 <= j <= s.len(),
    ensures
        j <= number_end(s, j) <= s.len(),
        forall|k: int| j <= k < number_end(s, j) ==> is_number_char(#[trigger] s[k]),
        number_end(s, j) < s.len() ==> !is_number_char(s[number_end(s, j)]),
    decreases s.len() - j,
{
    if j < s.len() && is_number_char(s[j]) {
        lemma_number_end(s, j + 1);
    }
}

pub proof fn lemma_name_end(s: Seq<char>, j: int)
    requires
        0 <= j <= s.len(),
    ensures
        j <= name_end(s, j) <= s.len(),
        forall|k: int| j <= k < name_end(s, j) ==> is_name_char(#[trigger] s[k]),
        name_end(s, j) < s.len() ==> !is_name_char(s[name_end(s, j)]),
    decreases s.len() - j,
{
    if j < s.len() && is_name_char(s[j]) {
        lemma_name_end(s, j + 1);
    }
}

/// One token in front of the tokens of the rest, unless the rest failed.
pub open spec fn prepend<T, E>(t: T, rest: Result<Seq<T>, E>) -> Result<Seq<T>, E> {
    match rest {
        Ok(ts) => Ok(seq![t] + ts),
        Err(e) => Err(e),
    }
}

/// The tokens of `s` from position `i`: whitespace is skipped; `+ - * /` are operators;
/// a run of digits and dots starting with one of them is a number, which must be a
/// decimal numeral; a run of letters, digits and `_` starting with a letter or `_` is a
/// variable; any other character is an error.
pub open spec fn tokenize_from(s: Seq<char>, i: int) -> Result<Seq<TokenModel>, CalcErrorModel>
    decreases s.len() - i,
{
    if i < 0 || i >= s.len() {
        Ok(Seq::empty())
    } else {
        let c = s[i];
        if is_ws(c) {
            tokenize_from(s, i + 1)
        } else if c == '+' {
            prepend(TokenModel::Plus, tokenize_from(s, i + 1))
        } else if c == '-' {
            prepend(TokenModel::Minus, tokenize_from(s, i + 1))
        } else if c == '*' {
            prepend(TokenModel::Multiply, tokenize_from(s, i + 1))
        } else if c == '/' {
            prepend(TokenModel::Divide, tokenize_from(s, i + 1))
        } else if is_number_char(c) {
            proof {
                lemma_number_end(s, i + 1);
            }
            let e = number_end(s, i + 1);
            let raw = s.subrange(i, e);
            if is_decimal(raw) {
                prepend(TokenModel::Number(raw), tokenize_from(s, e))
            } else {
                Err(CalcErrorModel::InvalidNumber(raw))
            }
        } else if is_ascii_alpha(c) || c == '_' {
            proof {
                lemma_name_end(s, i + 1);
            }
            let e = name_end(s, i + 1);
            prepend(TokenModel::Variable(s.subrange(i, e)), tokenize_from(s, e))
        } else {
            Err(CalcErrorModel::UnexpectedCharacter(c, byte_offset(s, i) + 1))
        }
    }
}

pub open spec fn view_tokens(v: Seq<Token>) -> Seq<TokenModel> {
    v.map_values(|t: Token| t@)
}

/// The tokens found so far in front of the tokens of the rest.
pub open spec fn prepend_all<T, E>(ts: Seq<T>, rest: Result<Seq<T>, E>) -> Result<Seq<T>, E> {
    match rest {
        Ok(r) => Ok(ts + r),
        Err(e) => Err(e),
    }
}

proof fn lemma_prepend_all<T, E>(ts: Seq<T>, t: T, rest: Result<Seq<T>, E>)
    ensures
        prepend_all(ts, prepend(t, rest)) == prepend_all(ts.push(t), rest),
{
    match rest {
        Ok(r) => {
            assert(ts + (seq![t] + r) =~= ts.push(t) + r);
        },
        Err(_) => {},
    }
}

fn run_end_number(s: &[char], j: usize) -> (e: usize)
    requires
        j <= s@.len(),
    ensures
        e == number_end(s@, j as int),
{
    let mut e = j;
    while e < s.len() && (('0' <= s[e] && s[e] <= '9') || s[e] == '.')
        invariant
            j <= e <= s@.len(),
            number_end(s@, j as int) == number_end(s@, e as int),
        decreases s@.len() - e,
    {
        e = e + 1;
    }
    e
}

fn run_end_name(s: &[char], j: usize) -> (e: usize)
    requires
        j <= s@.len(),
    ensures
        e == name_end(s@, j as int),
{
    let mut e = j;
    while e < s.len() && (('a' <= s[e] && s[e] <= 'z') || ('A' <= s[e] && s[e] <= 'Z') || ('0'
        <= s[e] && s[e] <= '9') || s[e] == '_')
        invariant
            j <= e <= s@.len(),
            name_end(s@, j as int) == name_end(s@, e as int),
        decreases s@.len() - e,
    {
        e = e + 1;
    }
    e
}

/// Reads the tokens of an expression; see [`tokenize_from`].
pub fn tokenize(input: &str) -> (r: Result<Vec<Token>, CalcError>)
    ensures
        match tokenize_from(input@, 0) {
            Ok(ts) => r matches Ok(v) && view_tokens(v@) == ts,
            Err(e) => r matches Err(x) && x@ == e,
        },
{
    let s = chars_of(input);
    let n = s.len();
    let mut tokens: Vec<Token> = Vec::new();
    let mut i: usize = 0;
    let mut bytes: u128 = 0;
    while i < n
        invariant
            n == s@.len(),
            s@ == input@,
            i <= n,
            bytes == byte_offset(s@, i as int),
            bytes <= 4 * i,
            tokenize_from(s@, 0) == prepend_all(view_tokens(tokens@), tokenize_from(s@, i as int)),
        decreases n - i,
    {
        let c = s[i];
        let ghost before = view_tokens(tokens@);
        if char_is_whitespace(c) {
            bytes = bytes + char_len_utf8(c) as u128;
            i = i + 1;
        } else if c == '+' || c == '-' || c == '*' || c == '/' {
            let t = if c == '+' {
                Token::Plus
            } else if c == '-' {
                Token::Minus
            } else if c == '*' {
                Token::Multiply
            } else {
                Token::Divide
            };
            proof {
                lemma_prepend_all(before, t@, tokenize_from(s@, i + 1));
                crate::scan::lemma_map_push(tokens@, t, |t: Token| t@);
            }
            tokens.push(t);
            bytes = bytes + 1;
            i = i + 1;
        } else if ('0' <= c && c <= '9') || c == '.' {
            let e = run_end_number(s.as_slice(), i + 1);
            proof {
                lemma_number_end(s@, i + 1);
            }
            let raw = slice_subrange(s.as_slice(), i, e);
            if !crate::numeral::check_decimal(raw) {
                return Err(CalcError::InvalidNumber(string_of(raw)));
            }
            let t = Token::Number(string_of(raw));
            proof {
                lemma_prepend_all(before, t@, tokenize_from(s@, e as int));
                crate::scan::lemma_map_push(tokens@, t, |t: Token| t@);
                lemma_byte_offset_ascii(s@, i as int, e as int);
            }
            tokens.push(t);
            bytes = bytes + (e - i) as u128;
            i = e;
        } else if ('a' <= c && c <= 'z') || ('A' <= c && c <= 'Z') || c == '_' {
            let e = run_end_name(s.as_slice(), i + 1);
            proof {
                lemma_name_end(s@, i + 1);
            }
            let raw = slice_subrange(s.as_slice(), i, e);
            let t = Token::Variable(string_of(raw));
            proof {
                lemma_prepend_all(before, t@, tokenize_from(s@, e as int));
                crate::scan::lemma_map_push(tokens@, t, |t: Token| t@);
                lemma_byte_offset_ascii(s@, i as int, e as int);
            }
            tokens.push(t);
            bytes = bytes + (e - i) as u128;
            i = e;
        } else {
            return Err(CalcError::UnexpectedCharacter(c, bytes + 1));
        }
    }
    assert(view_tokens(tokens@) + Seq::<TokenModel>::empty() =~= view_tokens(tokens@));
    Ok(tokens)
}

/// The characters of a run of ASCII characters are one byte each.
proof fn lemma_byte_offset_ascii(s: Seq<char>, i: int, e: int)
    requires
        0 <= i <= e <= s.len(),
        forall|k: int| i <= k < e ==> (s[k] as u32) < 0x80,
    ensures
        byte_offset(s, e) == byte_offset(s, i) + (e - i),
    decreases e - i,
{
    if e > i {
        lemma_byte_offset_ascii(s, i, e - 1);
    }
}

} // verus!

verus! {

/// An arithmetic expression, or the error that reading it met.
#[derive(Debug, PartialEq)]
pub enum Expression {
    Error(CalcError),
    Number(String),
    Variable(String),
    Add(Box<Expression>, Box<Expression>),
    Subtract(Box<Expression>, Box<Expression>),
    Multiply(Box<Expression>, Box<Expression>),
    Divide(Box<Expression>, Box<Expression>),
}

/// The mathematical value of an [`Expression`].
pub enum ExprModel {
    Error(CalcErrorModel),
    Number(Seq<char>),
    Variable(Seq<char>),
    Add(Box<ExprModel>, Box<ExprModel>),
    Subtract(Box<ExprModel>, Box<ExprModel>),
    Multiply(Box<ExprModel>, Box<ExprModel>),
    Divide(Box<ExprModel>, Box<ExprModel>),
}

pub open spec fn view_expression(e: Expression) -> ExprModel
    decreases e,
{
    match e {
        Expression::Error(x) => ExprModel::Error(x@),
        Expression::Number(n) => ExprModel::Number(n@),
        Expression::Variable(v) => ExprModel::Variable(v@),
        Expression::Add(l, r) => ExprModel::Add(Box::new(view_expression(*l)), Box::new(view_expression(*r))),
        Expression::Subtract(l, r) => ExprModel::Subtract(
            Box::new(view_expression(*l)),
            Box::new(view_expression(*r)),
        ),
        Expression::Multiply(l, r) => ExprModel::Multiply(
            Box::new(view_expression(*l)),
            Box::new(view_expression(*r)),
        ),
        Expression::Divide(l, r) => ExprModel::Divide(
            Box::new(view_expression(*l)),
            Box::new(view_expression(*r)),
        ),
    }
}

impl View for Expression {
    type V = ExprModel;

    open spec fn view(&self) -> ExprModel {
        view_expression(*self)
    }
}

/// An operand at position `pos`: a number, or a variable that exists.
pub open spec fn spec_operand(ts: Seq<TokenModel>, pos: int, vars: Map<Seq<char>, ValueModel>) -> Result<ExprModel, CalcErrorModel> {
    if pos < 0 || pos >= ts.len() {
        Err(CalcErrorModel::EndOfExpression)
    } else {
        match ts[pos] {
            TokenModel::Number(n) => Ok(ExprModel::Number(n)),
            TokenModel::Variable(name) => if vars.contains_key(name) {
                Ok(ExprModel::Variable(name))
            } else {
                Err(CalcErrorModel::VariableNotFound(name))
            },
            t => Err(CalcErrorModel::ExpectedOperand(t)),
        }
    }
}

/// Continues a term whose first part `acc` ends before `pos`: each `*` or `/` with the
/// operand after it extends the term to the left-associated product or quotient.
pub open spec fn term_rest(ts: Seq<TokenModel>, pos: int, acc: ExprModel, vars: Map<Seq<char>, ValueModel>) -> Result<(ExprModel, int), CalcErrorModel>
    decreases ts.len() - pos,
{
    if 0 <= pos < ts.len() && (ts[pos] is Multiply || ts[pos] is Divide) {
        match spec_operand(ts, pos + 1, vars) {
            Ok(r) => term_rest(
                ts,
                pos + 2,
                if ts[pos] is Multiply {
                    ExprModel::Multiply(Box::new(acc), Box::new(r))
                } else {
                    ExprModel::Divide(Box::new(acc), Box::new(r))
                },
                vars,
            ),
            Err(e) => Err(e),
        }
    } else {
        Ok((acc, pos))
    }
}

/// A term starting at `pos`: operands joined by `*` and `/`.
pub open spec fn spec_term(ts: Seq<TokenModel>, pos: int, vars: Map<Seq<char>, ValueModel>) -> Result<(ExprModel, int), CalcErrorModel> {
    match spec_operand(ts, pos, vars) {
        Ok(l) => term_rest(ts, pos + 1, l, vars),
        Err(e) => Err(e),
    }
}

pub proof fn lemma_term_rest_advances(ts: Seq<TokenModel>, pos: int, acc: ExprModel, vars: Map<Seq<char>, ValueModel>)
    requires
        0 <= pos <= ts.len(),
    ensures
        term_rest(ts, pos, acc, vars) matches Ok((_, p)) ==> pos <= p <= ts.len(),
    decreases ts.len() - pos,
{
    if 0 <= pos < ts.len() && (ts[pos] is Multiply || ts[pos] is Divide) {
        match spec_operand(ts, pos + 1, vars) {
            Ok(r) => {
                let next = if ts[pos] is Multiply {
                    ExprModel::Multiply(Box::new(acc), Box::new(r))
                } else {
                    ExprModel::Divide(Box::new(acc), Box::new(r))
                };
                lemma_term_rest_advances(ts, pos + 2, next, vars);
            },
            Err(_) => {},
        }
    }
}

pub proof fn lemma_term_advances(ts: Seq<TokenModel>, pos: int, vars: Map<Seq<char>, ValueModel>)
    requires
        0 <= pos,
    ensures
        spec_term(ts, pos, vars) matches Ok((_, p)) ==> pos < p <= ts.len(),
{
    if let Ok(l) = spec_operand(ts, pos, vars) {
        lemma_term_rest_advances(ts, pos + 1, l, vars);
    }
}

/// Continues an expression whose first part `acc` ends before `pos`: each `+` or `-`
/// with the term after it extends the expression to the left-associated sum or
/// difference.
pub open spec fn expr_rest(ts: Seq<TokenModel>, pos: int, acc: ExprModel, vars: Map<Seq<char>, ValueModel>) -> Result<(ExprModel, int), CalcErrorModel>
    decreases ts.len() - pos,
{
    if 0 <= pos < ts.len() && (ts[pos] is Plus || ts[pos] is Minus) {
        proof {
            lemma_term_advances(ts, pos + 1, vars);
        }
        match spec_term(ts, pos + 1, vars) {
            Ok((r, p)) => expr_rest(
                ts,
                p,
                if ts[pos] is Plus {
                    ExprModel::Add(Box::new(acc), Box::new(r))
                } else {
                    ExprModel::Subtract(Box::new(acc), Box::new(r))
                },
                vars,
            ),
            Err(e) => Err(e),
        }
    } else {
        Ok((acc, pos))
    }
}

/// The expression at the start of the tokens, and where it ends.
pub open spec fn spec_expression(ts: Seq<TokenModel>, vars: Map<Seq<char>, ValueModel>) -> Result<(ExprModel, int), CalcErrorModel> {
    match spec_term(ts, 0, vars) {
        Ok((l, p)) => expr_rest(ts, p, l, vars),
        Err(e) => Err(e),
    }
}

/// The expression that the tokens form: there must be tokens, and the expression must
/// take all of them.
pub open spec fn spec_parse_tokens(ts: Seq<TokenModel>, vars: Map<Seq<char>, ValueModel>) -> Result<ExprModel, CalcErrorModel> {
    if ts.len() == 0 {
        Err(CalcErrorModel::Empty)
    } else {
        match spec_expression(ts, vars) {
            Ok((e, p)) => if 0 <= p < ts.len() {
                Err(CalcErrorModel::UnexpectedToken(ts[p]))
            } else {
                Ok(e)
            },
            Err(e) => Err(e),
        }
    }
}

/// The expression written in `s`, or the error met reading it.
pub open spec fn spec_calculator_parse(s: Seq<char>, vars: Map<Seq<char>, ValueModel>) -> ExprModel {
    match tokenize_from(s, 0) {
        Ok(ts) => match spec_parse_tokens(ts, vars) {
            Ok(e) => e,
            Err(e) => ExprModel::Error(e),
        },
        Err(e) => ExprModel::Error(e),
    }
}

struct Parser<'a> {
    tokens: Vec<Token>,
    position: usize,
    vars: &'a VarMap,
}

impl<'a> Parser<'a> {
    fn new(tokens: Vec<Token>, vars: &'a VarMap) -> (r: Self)
        ensures
            r.tokens == tokens,
            r.position == 0,
            r.vars == vars,
    {
        Self { tokens, position: 0, vars }
    }

    fn parse_operand(&mut self) -> (r: Result<Expression, CalcError>)
        ensures
            final(self).tokens == old(self).tokens,
            final(self).vars == old(self).vars,
            match spec_operand(view_tokens(old(self).tokens@), old(self).position as int, old(self).vars@) {
                Ok(e) => r matches Ok(x) && x@ == e && final(self).position == old(self).position + 1,
                Err(e) => r matches Err(x) && x@ == e,
            },
    {
        if self.position >= self.tokens.len() {
            return Err(CalcError::EndOfExpression);
        }
        let ghost ts = view_tokens(self.tokens@);
        assert(ts[self.position as int] == self.tokens@[self.position as int]@);
        match &self.tokens[self.position] {
            Token::Number(number) => {
                let number = number.clone();
                self.position = self.position + 1;
                Ok(Expression::Number(number))
            },
            Token::Variable(name) => {
                let name = name.clone();
                if !self.vars.var_exists(&name) {
                    return Err(CalcError::VariableNotFound(name));
                }
                self.position = self.position + 1;
                Ok(Expression::Variable(name))
            },
            token => Err(CalcError::ExpectedOperand(token.duplicate())),
        }
    }

    fn parse_term(&mut self) -> (r: Result<Expression, CalcError>)
        ensures
            final(self).tokens == old(self).tokens,
            final(self).vars == old(self).vars,
            match spec_term(view_tokens(old(self).tokens@), old(self).position as int, old(self).vars@) {
                Ok((e, p)) => r matches Ok(x) && x@ == e && final(self).position == p,
                Err(e) => r matches Err(x) && x@ == e,
            },
    {
        let ghost ts = view_tokens(self.tokens@);
        let ghost vars = self.vars@;
        let ghost start = self.position as int;
        let mut expression = match self.parse_operand() {
            Ok(e) => e,
            Err(e) => return Err(e),
        };
        loop
            invariant
                ts == view_tokens(self.tokens@),
                vars == self.vars@,
                self.tokens == old(self).tokens,
                self.vars == old(self).vars,
                start == old(self).position,
                ts == view_tokens(old(self).tokens@),
                vars == old(self).vars@,
                self.position <= self.tokens@.len(),
                spec_term(ts, start, vars) == term_rest(ts, self.position as int, expression@, vars),
            ensures
                self.tokens == old(self).tokens,
                self.vars == old(self).vars,
                spec_term(ts, start, vars) == Ok::<(ExprModel, int), CalcErrorModel>((expression@, self.position as int)),
            decreases self.tokens@.len() - self.position,
        {
            if self.position >= self.tokens.len() {
                break;
            }
            let is_mul = match &self.tokens[self.position] {
                Token::Multiply => true,
                _ => false,
            };
            let is_div = match &self.tokens[self.position] {
                Token::Divide => true,
                _ => false,
            };
            assert(ts[self.position as int] == self.tokens@[self.position as int]@);
            if !is_mul && !is_div {
                break;
            }
            self.position = self.position + 1;
            let right = match self.parse_operand() {
                Ok(e) => e,
                Err(e) => return Err(e),
            };
            expression = if is_mul {
                Expression::Multiply(Box::new(expression), Box::new(right))
            } else {
                Expression::Divide(Box::new(expression), Box::new(right))
            };
        }
        Ok(expression)
    }

    fn parse_expression(&mut self) -> (r: Result<Expression, CalcError>)
        requires
            old(self).position == 0,
        ensures
            final(self).tokens == old(self).tokens,
            final(self).vars == old(self).vars,
            match spec_expression(view_tokens(old(self).tokens@), old(self).vars@) {
                Ok((e, p)) => r matches Ok(x) && x@ == e && final(self).position == p,
                Err(e) => r matches Err(x) && x@ == e,
            },
    {
        let ghost ts = view_tokens(self.tokens@);
        let ghost vars = self.vars@;
        proof {
            lemma_term_advances(ts, 0, vars);
        }
        let mut expression = match self.parse_term() {
            Ok(e) => e,
            Err(e) => return Err(e),
        };
        loop
            invariant
                ts == view_tokens(self.tokens@),
                vars == self.vars@,
                self.tokens == old(self).tokens,
                self.vars == old(self).vars,
                ts == view_tokens(old(self).tokens@),
                vars == old(self).vars@,
                self.position <= self.tokens@.len(),
                spec_expression(ts, vars) == expr_rest(ts, self.position as int, expression@, vars),
            ensures
                self.tokens == old(self).tokens,
                self.vars == old(self).vars,
                spec_expression(ts, vars) == Ok::<(ExprModel, int), CalcErrorModel>((expression@, self.position as int)),
            decreases self.tokens@.len() - self.position,
        {
            if self.position >= self.tokens.len() {
                break;
            }
            let is_add = match &self.tokens[self.position] {
                Token::Plus => true,
                _ => false,
            };
            let is_sub = match &self.tokens[self.position] {
                Token::Minus => true,
                _ => false,
            };
            assert(ts[self.position as int] == self.tokens@[self.position as int]@);
            if !is_add && !is_sub {
                break;
            }
            self.position = self.position + 1;
            proof {
                lemma_term_advances(ts, self.position as int, vars);
            }
            let right = match self.parse_term() {
                Ok(e) => e,
                Err(e) => return Err(e),
            };
            expression = if is_add {
                Expression::Add(Box::new(expression), Box::new(right))
            } else {
                Expression::Subtract(Box::new(expression), Box::new(right))
            };
        }
        Ok(expression)
    }

    fn parse(&mut self) -> (r: Result<Expression, CalcError>)
        requires
            old(self).position == 0,
        ensures
            match spec_parse_tokens(view_tokens(old(self).tokens@), old(self).vars@) {
                Ok(e) => r matches Ok(x) && x@ == e,
                Err(e) => r matches Err(x) && x@ == e,
            },
    {
        if self.tokens.len() == 0 {
            return Err(CalcError::Empty);
        }
        let ghost ts = view_tokens(self.tokens@);
        let expression = match self.parse_expression() {
            Ok(e) => e,
            Err(e) => return Err(e),
        };
        if self.position < self.tokens.len() {
            assert(ts[self.position as int] == self.tokens@[self.position as int]@);
            return Err(CalcError::UnexpectedToken(self.tokens[self.position].duplicate()));
        }
        Ok(expression)
    }
}

/// Reads an arithmetic expression over the variables of `vars`; see
/// [`spec_calculator_parse`]. A failure is given as an [`Expression::Error`].
pub fn attempt_calculator_parse(to_parse: String, vars: &VarMap) -> (r: Expression)
    ensures
        r@ == spec_calculator_parse(to_parse@, vars@),
{
    let tokens = match tokenize(to_parse.as_str()) {
        Ok(tokens) => tokens,
        Err(error) => return Expression::Error(error),
    };
    let mut parser = Parser::new(tokens, vars);
    match parser.parse() {
        Ok(expression) => expression,
        Err(error) => Expression::Error(error),
    }
}

} // verus!

verus! {

/// The tokens an expression is written with, operands and operators in order.
pub open spec fn flatten(e: ExprModel) -> Seq<TokenModel>
    decreases e,
{
    match e {
        ExprModel::Error(_) => Seq::empty(),
        ExprModel::Number(n) => seq![TokenModel::Number(n)],
        ExprModel::Variable(v) => seq![TokenModel::Variable(v)],
        ExprModel::Add(l, r) => flatten(*l) + seq![TokenModel::Plus] + flatten(*r),
        ExprModel::Subtract(l, r) => flatten(*l) + seq![TokenModel::Minus] + flatten(*r),
        ExprModel::Multiply(l, r) => flatten(*l) + seq![TokenModel::Multiply] + flatten(*r),
        ExprModel::Divide(l, r) => flatten(*l) + seq![TokenModel::Divide] + flatten(*r),
    }
}

/// A number or a variable.
pub open spec fn is_leaf(e: ExprModel) -> bool {
    e is Number || e is Variable
}

/// Leaves joined by `*` and `/`, associated to the left.
pub open spec fn is_term_shape(e: ExprModel) -> bool
    decreases e,
{
    match e {
        ExprModel::Multiply(l, r) => is_term_shape(*l) && is_leaf(*r),
        ExprModel::Divide(l, r) => is_term_shape(*l) && is_leaf(*r),
        _ => is_leaf(e),
    }
}

/// Terms joined by `+` and `-`, associated to the left.
pub open spec fn is_expr_shape(e: ExprModel) -> bool
    decreases e,
{
    match e {
        ExprModel::Add(l, r) => is_expr_shape(*l) && is_term_shape(*r),
        ExprModel::Subtract(l, r) => is_expr_shape(*l) && is_term_shape(*r),
        _ => is_term_shape(e),
    }
}

proof fn lemma_term_rest_shape(ts: Seq<TokenModel>, a: int, pos: int, acc: ExprModel, vars: Map<Seq<char>, ValueModel>)
    requires
        0 <= a <= pos <= ts.len(),
        flatten(acc) == ts.subrange(a, pos),
        is_term_shape(acc),
    ensures
        term_rest(ts, pos, acc, vars) matches Ok((e, p)) ==> pos <= p <= ts.len() && flatten(e)
            == ts.subrange(a, p) && is_term_shape(e),
    decreases ts.len() - pos,
{
    if 0 <= pos < ts.len() && (ts[pos] is Multiply || ts[pos] is Divide) {
        match spec_operand(ts, pos + 1, vars) {
            Ok(r) => {
                let next = if ts[pos] is Multiply {
                    ExprModel::Multiply(Box::new(acc), Box::new(r))
                } else {
                    ExprModel::Divide(Box::new(acc), Box::new(r))
                };
                assert(flatten(r) == seq![ts[pos + 1]]);
                assert(flatten(next) =~= ts.subrange(a, pos + 2));
                lemma_term_rest_shape(ts, a, pos + 2, next, vars);
            },
            Err(_) => {},
        }
    }
}

proof fn lemma_term_shape(ts: Seq<TokenModel>, pos: int, vars: Map<Seq<char>, ValueModel>)
    requires
        0 <= pos,
    ensures
        spec_term(ts, pos, vars) matches Ok((e, p)) ==> pos < p <= ts.len() && flatten(e)
            == ts.subrange(pos, p) && is_term_shape(e),
{
    if let Ok(l) = spec_operand(ts, pos, vars) {
        assert(flatten(l) =~= ts.subrange(pos, pos + 1));
        lemma_term_rest_shape(ts, pos, pos + 1, l, vars);
    }
}

proof fn lemma_expr_rest_shape(ts: Seq<TokenModel>, pos: int, acc: ExprModel, vars: Map<Seq<char>, ValueModel>)
    requires
        0 <= pos <= ts.len(),
        flatten(acc) == ts.subrange(0, pos),
        is_expr_shape(acc),
    ensures
        expr_rest(ts, pos, acc, vars) matches Ok((e, p)) ==> pos <= p <= ts.len() && flatten(e)
            == ts.subrange(0, p) && is_expr_shape(e),
    decreases ts.len() - pos,
{
    if 0 <= pos < ts.len() && (ts[pos] is Plus || ts[pos] is Minus) {
        lemma_term_shape(ts, pos + 1, vars);
        match spec_term(ts, pos + 1, vars) {
            Ok((r, p)) => {
                let next = if ts[pos] is Plus {
                    ExprModel::Add(Box::new(acc), Box::new(r))
                } else {
                    ExprModel::Subtract(Box::new(acc), Box::new(r))
                };
                assert(flatten(next) =~= ts.subrange(0, p));
                lemma_expr_rest_shape(ts, p, next, vars);
            },
            Err(_) => {},
        }
    }
}

/// A parsed expression is written with exactly the tokens it was read from, in order,
/// and has the shape that makes `*` and `/` bind tighter than `+` and `-`, each
/// associating to the left.
pub proof fn law_parse_preserves_tokens_and_precedence(ts: Seq<TokenModel>, vars: Map<Seq<char>, ValueModel>)
    ensures
        spec_parse_tokens(ts, vars) matches Ok(e) ==> flatten(e) == ts && is_expr_shape(e),
{
    lemma_term_shape(ts, 0, vars);
    if let Ok((l, p)) = spec_term(ts, 0, vars) {
        lemma_expr_rest_shape(ts, p, l, vars);
        if let Ok((e, q)) = expr_rest(ts, p, l, vars) {
            assert(ts.subrange(0, ts.len() as int) =~= ts);
        }
    }
}

} // verus!
