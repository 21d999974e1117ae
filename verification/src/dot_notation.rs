//! Dot notation: a value or a variable followed by built-in functions applied to it one
//! after another, `"text".len()` or `count.inc_one()`.
use vstd::prelude::*;
use vstd::slice::slice_subrange;

use crate::text::{trim, trim_chars, string_of, chars_of};
use crate::scan::{in_string_before, first_index, lemma_first_index, lemma_first_index_is};
use crate::value_parser::{spec_parse_value, parse_value_chars, is_lone_quote};
use crate::line_parser::{Expression, ExpressionModel, view_opt_expr};
use crate::variable::{VariableMap, VariableModel, has_named};
use crate::library::{is_function_name, function_exists};

verus! {

/// Position `i` holds a `.` outside string literals.
pub open spec fn is_free_dot(s: Seq<char>, i: int) -> bool {
    s[i] == '.' && !in_string_before(s, i)
}

/// The first `.` outside string literals.
pub open spec fn free_dot(s: Seq<char>) -> Option<int> {
    first_index(s.len() as int, |i: int| is_free_dot(s, i))
}

/// The text before the first `.` outside string literals and, if there is such a dot, the
/// text after it.
pub open spec fn spec_split_at_dot(s: Seq<char>) -> (Seq<char>, Option<Seq<char>>) {
    match free_dot(s) {
        Some(i) => (s.subrange(0, i), Some(s.subrange(i + 1, s.len() as int))),
        None => (s, None),
    }
}

pub proof fn lemma_split_at_dot(s: Seq<char>)
    ensures
        match spec_split_at_dot(s).1 {
            Some(rest) => rest.len() < s.len(),
            None => spec_split_at_dot(s).0 == s,
        },
{
    lemma_first_index(s.len() as int, |i: int| is_free_dot(s, i));
}

/// Cuts the text at its first `.` outside string literals; see [`spec_split_at_dot`].
pub fn split_at_dot(expression: &[char]) -> (r: (&[char], Option<&[char]>))
    ensures
        r.0@ == spec_split_at_dot(expression@).0,
        match (r.1, spec_split_at_dot(expression@).1) {
            (Some(a), Some(b)) => a@ == b,
            (None, None) => true,
            _ => false,
        },
{
    let ghost s = expression@;
    let n = expression.len();
    let mut inside_string = false;
    let mut i: usize = 0;
    while i < n
        invariant
            n == s.len(),
            s == expression@,
            i <= n,
            inside_string == in_string_before(s, i as int),
            forall|j: int| 0 <= j < i ==> !#[trigger] is_free_dot(s, j),
        decreases n - i,
    {
        let c = expression[i];
        if c == '"' {
            inside_string = !inside_string;
        } else if c == '.' && !inside_string {
            proof {
                lemma_first_index_is(n as int, |j: int| is_free_dot(s, j), i as int);
            }
            return (slice_subrange(expression, 0, i), Some(slice_subrange(expression, i + 1, n)));
        }
        i = i + 1;
    }
    proof {
        lemma_first_index(n as int, |j: int| is_free_dot(s, j));
    }
    (expression, None)
}

/// Reads dot notation, `exp` being what came before (`Empty` at the start). At the start
/// the first piece is a value or the name of a variable; after that each piece names a
/// built-in function, applied to what came before. Nothing is read when a piece is
/// neither, when a dot is followed by nothing, or when the whole is a lone value.
pub open spec fn spec_dot_notation(s: Seq<char>, exp: ExpressionModel, vars: Seq<VariableModel>) -> Option<ExpressionModel>
    decreases s.len(),
{
    let cur = trim(spec_split_at_dot(s).0);
    let parsed = if exp is Empty {
        match spec_parse_value(cur) {
            Some(v) => Some(ExpressionModel::Value(v)),
            None => if has_named(vars, cur) {
                Some(ExpressionModel::Variable(cur))
            } else {
                None
            },
        }
    } else if is_function_name(cur) {
        Some(ExpressionModel::ChainingExpression(cur, Box::new(exp)))
    } else {
        None
    };
    match parsed {
        None => None,
        Some(p) => match spec_split_at_dot(s).1 {
            Some(rest) => if trim(rest).len() > 0 {
                proof {
                    lemma_split_at_dot(s);
                }
                spec_dot_notation(rest, p, vars)
            } else {
                None
            },
            None => if p is Value {
                None
            } else {
                Some(p)
            },
        },
    }
}

/// Dot notation can be read without reading a lone double quote as a value: at the start
/// the first piece is not a lone quote.
pub open spec fn dot_notation_readable(s: Seq<char>, exp: ExpressionModel) -> bool {
    exp is Empty ==> !is_lone_quote(trim(spec_split_at_dot(s).0))
}

/// Reads dot notation from characters; see [`spec_dot_notation`].
pub fn dot_notation_chars(s: &[char], exp: Expression, vars: &VariableMap) -> (r: Option<Expression>)
    requires
        dot_notation_readable(s@, exp@),
    ensures
        view_opt_expr(r) == spec_dot_notation(s@, exp@, vars@),
    decreases s@.len(),
{
    let (current, rest) = split_at_dot(s);
    let cur = trim_chars(current);
    let parsed = match exp {
        Expression::Empty => match parse_value_chars(cur) {
            Some(v) => Expression::Value(v),
            None => {
                if vars.has_variable(cur) {
                    Expression::Variable(string_of(cur))
                } else {
                    return None;
                }
            },
        },
        previous => {
            if function_exists(cur) {
                Expression::ChainingExpression((string_of(cur), Box::new(previous)))
            } else {
                return None;
            }
        },
    };
    proof {
        lemma_split_at_dot(s@);
    }
    match rest {
        Some(rest) => {
            if trim_chars(rest).len() > 0 {
                dot_notation_chars(rest, parsed, vars)
            } else {
                None
            }
        },
        None => match parsed {
            Expression::Value(_) => None,
            other => Some(other),
        },
    }
}

/// Reads dot notation; see [`spec_dot_notation`]. The variables are only read.
pub fn parse_dot_notation(expression: String, exp: Expression, vars: &mut VariableMap) -> (r: Option<Expression>)
    requires
        dot_notation_readable(expression@, exp@),
    ensures
        view_opt_expr(r) == spec_dot_notation(expression@, exp@, old(vars)@),
        final(vars)@ == old(vars)@,
{
    let chars = chars_of(expression.as_str());
    dot_notation_chars(chars.as_slice(), exp, vars)
}

/// Cutting at the first dot outside strings loses nothing but that dot: the part before
/// it, the dot and the part after it make up the text, and the part before holds no such
/// dot.
pub proof fn law_split_at_dot_loses_only_the_dot(s: Seq<char>)
    ensures
        match spec_split_at_dot(s) {
            (before, Some(after)) => before + seq!['.'] + after == s && forall|i: int|
                0 <= i < before.len() ==> !#[trigger] is_free_dot(s, i),
            (before, None) => before == s && forall|i: int| 0 <= i < s.len() ==> !#[trigger] is_free_dot(s, i),
        },
{
    let p = |k: int| is_free_dot(s, k);
    lemma_first_index(s.len() as int, p);
    match free_dot(s) {
        Some(i) => {
            assert(p(i));
            assert(s.subrange(0, i) + seq!['.'] + s.subrange(i + 1, s.len() as int) =~= s);
            assert forall|j: int| 0 <= j < i implies !#[trigger] is_free_dot(s, j) by {
                assert(!p(j));
            }
        },
        None => {
            assert forall|j: int| 0 <= j < s.len() implies !#[trigger] is_free_dot(s, j) by {
                assert(!p(j));
            }
        },
    }
}

} // verus!
