//! Expressions of the block language, and how the lines of a block are read into them.
use vstd::prelude::*;

use crate::value_parser::{Value, LiteralModel};
use vstd::slice::slice_subrange;
use crate::variable::{VariableType, VariableMap, VariableModel, has_named, spec_variable_expression,
    var_line_readable, parse_variable_expression, spec_reset_variable, reset_readable, reset_variable_chars};
use crate::value_parser::{spec_parse_value, parse_value_chars, is_lone_quote};
use crate::dot_notation::{spec_dot_notation, dot_notation_readable, dot_notation_chars};
use crate::library::{is_function_name, function_exists};
use crate::text::{is_ws, trim, trim_start, trim_chars, trim_start_chars, chars_of, string_of, char_is_whitespace};
use crate::scan::{join_terminated, after_last, count_where, lemma_split_scan_count, lemma_split_scan_join, in_string_before, split_scan, lemma_split_scan, lemma_map_push, first_index, lemma_first_index, lemma_first_index_is};

verus! {

/// An expression of a line.
#[derive(Debug, PartialEq)]
pub enum Expression {
    Value(Value),
    Variable(String),
    /// A variable's name, its declared type and its first value.
    VariableDefinition((String, VariableType, Box<Expression>)),
    /// A built-in function's name and its argument.
    ExecutionExpression((String, Box<Expression>)),
    /// A built-in function applied, by a dot, to what comes before it.
    ChainingExpression((String, Box<Expression>)),
    /// A variable's name and its new value.
    ResetVariableValue((String, Box<Expression>)),
    /// No expression.
    Empty,
}

/// The mathematical value of an [`Expression`].
pub enum ExpressionModel {
    Value(LiteralModel),
    Variable(Seq<char>),
    VariableDefinition(Seq<char>, VariableType, Box<ExpressionModel>),
    ExecutionExpression(Seq<char>, Box<ExpressionModel>),
    ChainingExpression(Seq<char>, Box<ExpressionModel>),
    ResetVariableValue(Seq<char>, Box<ExpressionModel>),
    Empty,
}

pub open spec fn expression_model(e: Expression) -> ExpressionModel
    decreases e,
{
    match e {
        Expression::Value(v) => ExpressionModel::Value(v@),
        Expression::Variable(n) => ExpressionModel::Variable(n@),
        Expression::VariableDefinition((n, t, b)) => ExpressionModel::VariableDefinition(n@, t, Box::new(expression_model(*b))),
        Expression::ExecutionExpression((n, b)) => ExpressionModel::ExecutionExpression(n@, Box::new(expression_model(*b))),
        Expression::ChainingExpression((n, b)) => ExpressionModel::ChainingExpression(n@, Box::new(expression_model(*b))),
        Expression::ResetVariableValue((n, b)) => ExpressionModel::ResetVariableValue(n@, Box::new(expression_model(*b))),
        Expression::Empty => ExpressionModel::Empty,
    }
}

impl View for Expression {
    type V = ExpressionModel;

    open spec fn view(&self) -> ExpressionModel {
        expression_model(*self)
    }
}

impl Expression {
    /// A copy of the expression.
    pub fn duplicate(&self) -> (r: Expression)
        ensures
            r@ == self@,
        decreases self,
    {
        match self {
            Expression::Value(v) => Expression::Value(v.duplicate()),
            Expression::Variable(n) => Expression::Variable(n.clone()),
            Expression::VariableDefinition((n, t, b)) => Expression::VariableDefinition((n.clone(), *t, Box::new((**b).duplicate()))),
            Expression::ExecutionExpression((n, b)) => Expression::ExecutionExpression((n.clone(), Box::new((**b).duplicate()))),
            Expression::ChainingExpression((n, b)) => Expression::ChainingExpression((n.clone(), Box::new((**b).duplicate()))),
            Expression::ResetVariableValue((n, b)) => Expression::ResetVariableValue((n.clone(), Box::new((**b).duplicate()))),
            Expression::Empty => Expression::Empty,
        }
    }
}

pub open spec fn view_opt_expr(r: Option<Expression>) -> Option<ExpressionModel> {
    match r {
        Some(e) => Some(e@),
        None => None,
    }
}

/// The lines, each without its leading whitespace, run together.
pub open spec fn joined_trimmed(lines: Seq<Seq<char>>) -> Seq<char>
    decreases lines.len(),
{
    if lines.len() == 0 {
        Seq::empty()
    } else {
        joined_trimmed(lines.drop_last()) + trim_start(lines.last())
    }
}

/// Position `i` holds a `;` outside string literals: it ends a statement.
pub open spec fn is_statement_end(t: Seq<char>, i: int) -> bool {
    t[i] == ';' && !in_string_before(t, i)
}

/// The statements of the lines: their text without leading whitespace, run together and
/// cut at every `;` outside string literals. What follows the last `;` is dropped.
pub open spec fn spec_prepare_strings(lines: Seq<Seq<char>>) -> Seq<Seq<char>> {
    let t = joined_trimmed(lines);
    split_scan(t, |i: int| is_statement_end(t, i), t.len() as int).0
}

pub open spec fn view_strs(v: Seq<&str>) -> Seq<Seq<char>> {
    v.map_values(|l: &str| l@)
}

pub open spec fn view_strings(v: Seq<String>) -> Seq<Seq<char>> {
    v.map_values(|l: String| l@)
}

pub open spec fn view_char_lines(v: Seq<Vec<char>>) -> Seq<Seq<char>> {
    v.map_values(|l: Vec<char>| l@)
}

/// The characters of each line.
pub fn char_lines(lines: &Vec<&str>) -> (r: Vec<Vec<char>>)
    ensures
        view_char_lines(r@) == view_strs(lines@),
{
    let mut out: Vec<Vec<char>> = Vec::new();
    let mut k: usize = 0;
    while k < lines.len()
        invariant
            k <= lines@.len(),
            view_char_lines(out@) == view_strs(lines@).subrange(0, k as int),
        decreases lines@.len() - k,
    {
        let chars = chars_of(lines[k]);
        proof {
            lemma_map_push(out@, chars, |l: Vec<char>| l@);
        }
        out.push(chars);
        k = k + 1;
    }
    assert(view_strs(lines@).subrange(0, lines@.len() as int) == view_strs(lines@));
    out
}

/// Cuts the lines into statements; see [`spec_prepare_strings`].
pub fn prepare_strings(lines: Vec<&str>) -> (r: Vec<String>)
    ensures
        view_strings(r@) == spec_prepare_strings(view_strs(lines@)),
{
    let cl = char_lines(&lines);
    prepare_char_lines(&cl)
}

/// Cuts lines given by their characters into statements; see [`spec_prepare_strings`].
pub fn prepare_char_lines(lines: &Vec<Vec<char>>) -> (r: Vec<String>)
    ensures
        view_strings(r@) == spec_prepare_strings(view_char_lines(lines@)),
{
    let ghost lv = view_char_lines(lines@);
    let mut text: Vec<char> = Vec::new();
    let mut k: usize = 0;
    while k < lines.len()
        invariant
            k <= lines@.len(),
            lv == view_char_lines(lines@),
            text@ == joined_trimmed(lv.subrange(0, k as int)),
        decreases lines@.len() - k,
    {
        let line = trim_start_chars(lines[k].as_slice());
        let mut j: usize = 0;
        let ghost before = text@;
        while j < line.len()
            invariant
                j <= line@.len(),
                text@ == before + line@.subrange(0, j as int),
            decreases line@.len() - j,
        {
            text.push(line[j]);
            j = j + 1;
        }
        assert(line@.subrange(0, line@.len() as int) == line@);
        assert(lv.subrange(0, k + 1).drop_last() == lv.subrange(0, k as int));
        k = k + 1;
    }
    assert(lv.subrange(0, lv.len() as int) == lv);
    let ghost t = text@;
    let ghost sep = |i: int| is_statement_end(t, i);
    let n = text.len();
    let mut out: Vec<String> = Vec::new();
    let mut start: usize = 0;
    let mut inside_string = false;
    let mut i: usize = 0;
    while i < n
        invariant
            n == t.len(),
            t == text@,
            i <= n,
            sep == (|k: int| is_statement_end(t, k)),
            inside_string == in_string_before(t, i as int),
            start as int == split_scan(t, sep, i as int).1,
            view_strings(out@) == split_scan(t, sep, i as int).0,
        decreases n - i,
    {
        proof {
            lemma_split_scan(t, sep, i as int);
        }
        let c = text[i];
        if c == ';' && !inside_string {
            let piece = string_of(slice_subrange(text.as_slice(), start, i));
            proof {
                lemma_map_push(out@, piece, |l: String| l@);
            }
            out.push(piece);
            start = i + 1;
        }
        if c == '"' {
            inside_string = !inside_string;
        }
        i = i + 1;
    }
    out
}

/// The first `k` characters of the statement name a built-in function and are followed by
/// whitespace or by nothing.
pub open spec fn keyword_ends_at(line: Seq<char>, k: int) -> bool {
    is_function_name(line.subrange(0, k)) && (k == line.len() || is_ws(line[k]))
}

/// The length of the shortest start of the statement that names a built-in function and
/// is followed by whitespace or by nothing.
pub open spec fn line_keyword(line: Seq<char>) -> Option<int> {
    match first_index(line.len() as int, |j: int| keyword_ends_at(line, j + 1)) {
        Some(j) => Some(j + 1),
        None => None,
    }
}

/// What a statement gives: a variable reset (see [`spec_reset_variable`]); else, after the
/// built-in function that starts it, a value (the call of that function on the value); a
/// variable line (its definition); dot notation or a variable's name (the call of the
/// function on it); or nothing.
pub open spec fn spec_parse_line(line: Seq<char>, vars: Seq<VariableModel>) -> Option<ExpressionModel> {
    match spec_reset_variable(line, vars) {
        Some(e) => Some(e),
        None => match line_keyword(line) {
            None => None,
            Some(k) => {
                let name = line.subrange(0, k);
                let e = trim(line.subrange(k, line.len() as int));
                match spec_parse_value(e) {
                    Some(v) => Some(ExpressionModel::ExecutionExpression(name, Box::new(ExpressionModel::Value(v)))),
                    None => match spec_variable_expression(e) {
                        Some(x) => Some(x),
                        None => match spec_dot_notation(e, ExpressionModel::Empty, vars) {
                            Some(x) => Some(ExpressionModel::ExecutionExpression(name, Box::new(x))),
                            None => if has_named(vars, e) {
                                Some(ExpressionModel::ExecutionExpression(name, Box::new(ExpressionModel::Variable(e))))
                            } else {
                                None
                            },
                        },
                    },
                }
            },
        },
    }
}

/// A statement can be read without reading a lone double quote as a value.
pub open spec fn line_readable(line: Seq<char>, vars: Seq<VariableModel>) -> bool {
    &&& reset_readable(line, vars)
    &&& spec_reset_variable(line, vars) is None ==> match line_keyword(line) {
        Some(k) => {
            let e = trim(line.subrange(k, line.len() as int));
            &&& !is_lone_quote(e)
            &&& spec_parse_value(e) is None ==> var_line_readable(e)
            &&& spec_parse_value(e) is None && spec_variable_expression(e) is None
                ==> dot_notation_readable(e, ExpressionModel::Empty)
        },
        None => true,
    }
}

/// The expressions of the statements, each statement that gives one in order.
pub open spec fn parse_statements(ls: Seq<Seq<char>>, vars: Seq<VariableModel>) -> Seq<ExpressionModel>
    decreases ls.len(),
{
    if ls.len() == 0 {
        Seq::empty()
    } else {
        let rest = parse_statements(ls.drop_last(), vars);
        match spec_parse_line(ls.last(), vars) {
            Some(e) => rest.push(e),
            None => rest,
        }
    }
}

/// The expressions of the lines of a block; see [`spec_prepare_strings`] and
/// [`spec_parse_line`].
pub open spec fn spec_parse_lines(lines: Seq<Seq<char>>, vars: Seq<VariableModel>) -> Seq<ExpressionModel> {
    parse_statements(spec_prepare_strings(lines), vars)
}

/// The lines of a block can be read: so can each of their statements.
pub open spec fn lines_readable(lines: Seq<Seq<char>>, vars: Seq<VariableModel>) -> bool {
    forall|i: int| 0 <= i < spec_prepare_strings(lines).len()
        ==> line_readable(#[trigger] spec_prepare_strings(lines)[i], vars)
}

/// Reads one statement; see [`spec_parse_line`].
pub fn parse_line(line: &[char], vars: &VariableMap) -> (r: Option<Expression>)
    requires
        line_readable(line@, vars@),
    ensures
        view_opt_expr(r) == spec_parse_line(line@, vars@),
{
    match reset_variable_chars(line, vars) {
        Some(e) => return Some(e),
        None => {},
    }
    let n = line.len();
    let ghost p = |j: int| keyword_ends_at(line@, j + 1);
    let mut k: usize = 0;
    while k < n
        invariant
            k <= n == line@.len(),
            p == (|j: int| keyword_ends_at(line@, j + 1)),
            forall|j: int| 0 <= j < k ==> !#[trigger] p(j),
            spec_reset_variable(line@, vars@) is None,
            line_readable(line@, vars@),
        decreases n - k,
    {
        let prefix = slice_subrange(line, 0, k + 1);
        if function_exists(prefix) && (k + 1 == n || char_is_whitespace(line[k + 1])) {
            proof {
                lemma_first_index_is(n as int, p, k as int);
            }
            let name = string_of(prefix);
            let e = trim_chars(slice_subrange(line, k + 1, n));
            match parse_value_chars(e) {
                Some(v) => {
                    let inner = Expression::Value(v);
                    let r = Expression::ExecutionExpression((name, Box::new(inner)));
                    assert(r@ == ExpressionModel::ExecutionExpression(name@, Box::new(inner@)));
                    return Some(r);
                },
                None => {},
            }
            match parse_variable_expression(string_of(e)) {
                Some(x) => return Some(x),
                None => {},
            }
            match dot_notation_chars(e, Expression::Empty, vars) {
                Some(x) => {
                    let r = Expression::ExecutionExpression((name, Box::new(x)));
                    assert(r@ == ExpressionModel::ExecutionExpression(name@, Box::new(x@)));
                    return Some(r);
                },
                None => {},
            }
            if vars.has_variable(e) {
                let inner = Expression::Variable(string_of(e));
                let r = Expression::ExecutionExpression((name, Box::new(inner)));
                assert(r@ == ExpressionModel::ExecutionExpression(name@, Box::new(inner@)));
                return Some(r);
            }
            return None;
        }
        k = k + 1;
    }
    proof {
        lemma_first_index(n as int, p);
    }
    None
}

/// Reads the lines of a block into expressions; see [`spec_parse_lines`]. The variables
/// are only read.
pub fn parse_lines(lines: Vec<&str>, vars: &mut VariableMap) -> (r: Vec<Expression>)
    requires
        lines_readable(view_strs(lines@), old(vars)@),
    ensures
        r@.map_values(|e: Expression| e@) == spec_parse_lines(view_strs(lines@), old(vars)@),
        final(vars)@ == old(vars)@,
{
    let cl = char_lines(&lines);
    parse_char_lines(&cl, vars)
}

/// Reads lines given by their characters into expressions; see [`spec_parse_lines`].
pub fn parse_char_lines(lines: &Vec<Vec<char>>, vars: &VariableMap) -> (r: Vec<Expression>)
    requires
        lines_readable(view_char_lines(lines@), vars@),
    ensures
        r@.map_values(|e: Expression| e@) == spec_parse_lines(view_char_lines(lines@), vars@),
{
    let statements = prepare_char_lines(lines);
    let ghost sv = view_strings(statements@);
    let mut out: Vec<Expression> = Vec::new();
    let mut i: usize = 0;
    while i < statements.len()
        invariant
            i <= statements@.len(),
            sv == view_strings(statements@),
            sv == spec_prepare_strings(view_char_lines(lines@)),
            lines_readable(view_char_lines(lines@), vars@),
            out@.map_values(|e: Expression| e@) == parse_statements(sv.subrange(0, i as int), vars@),
        decreases statements@.len() - i,
    {
        let chars = chars_of(statements[i].as_str());
        assert(chars@ == sv[i as int]);
        assert(sv.subrange(0, i + 1).drop_last() == sv.subrange(0, i as int));
        match parse_line(chars.as_slice(), vars) {
            Some(e) => {
                proof {
                    lemma_map_push(out@, e, |e: Expression| e@);
                }
                out.push(e);
            },
            None => {},
        }
        i = i + 1;
    }
    assert(sv.subrange(0, sv.len() as int) == sv);
    out
}

/// Cutting lines into statements loses only the `;` that end them and what follows the
/// last one: there is one statement per `;` outside strings, and the statements, each
/// followed by `;`, give back the lines' text (each without its leading whitespace, run
/// together) up to and including that last `;`.
pub proof fn law_statements_rejoin(lines: Seq<Seq<char>>)
    ensures
        ({
            let t = joined_trimmed(lines);
            let sep = |i: int| is_statement_end(t, i);
            &&& spec_prepare_strings(lines).len() == count_where(sep, t.len() as int)
            &&& join_terminated(spec_prepare_strings(lines), ';') == t.subrange(0, after_last(sep, t.len() as int))
        }),
{
    let t = joined_trimmed(lines);
    let sep = |i: int| is_statement_end(t, i);
    lemma_split_scan_count(t, sep, t.len() as int);
    lemma_split_scan_join(t, sep, t.len() as int, ';');
}

} // verus!
