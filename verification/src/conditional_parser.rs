//! Conditions: comparisons `== != > >= < <=` of values and dot notation, negation `!`,
//! and parentheses.
use vstd::prelude::*;
use vstd::slice::slice_subrange;

use crate::text::{is_ws, trim, trim_start, trim_chars, chars_of, lemma_trim, trim_offset, lemma_trim_start_suffix, lemma_trim_end_prefix};
use crate::scan::{in_string_before, depth_before, first_index, lemma_first_index, lemma_first_index_is};
use crate::value_parser::{spec_parse_value, parse_value_chars, is_lone_quote};
use crate::line_parser::{Expression, ExpressionModel};
use crate::dot_notation::{spec_dot_notation, dot_notation_readable, dot_notation_chars, spec_split_at_dot,
    free_dot, is_free_dot};
use crate::variable::{VariableMap, VariableModel};

verus! {

/// A condition.
#[derive(Debug)]
pub enum Condition {
    Expression(Box<Expression>),
    IsEqual(Box<Condition>, Box<Condition>),
    Bigger(Box<Condition>, Box<Condition>),
    BiggerEquals(Box<Condition>, Box<Condition>),
    Smaller(Box<Condition>, Box<Condition>),
    SmallerEquals(Box<Condition>, Box<Condition>),
    NotEquals(Box<Condition>, Box<Condition>),
    Invert(Box<Condition>),
}

/// The mathematical value of a [`Condition`].
pub enum ConditionModel {
    Expression(ExpressionModel),
    IsEqual(Box<ConditionModel>, Box<ConditionModel>),
    Bigger(Box<ConditionModel>, Box<ConditionModel>),
    BiggerEquals(Box<ConditionModel>, Box<ConditionModel>),
    Smaller(Box<ConditionModel>, Box<ConditionModel>),
    SmallerEquals(Box<ConditionModel>, Box<ConditionModel>),
    NotEquals(Box<ConditionModel>, Box<ConditionModel>),
    Invert(Box<ConditionModel>),
}

pub open spec fn condition_model(c: Condition) -> ConditionModel
    decreases c,
{
    match c {
        Condition::Expression(e) => ConditionModel::Expression((*e)@),
        Condition::IsEqual(l, r) => ConditionModel::IsEqual(Box::new(condition_model(*l)), Box::new(condition_model(*r))),
        Condition::Bigger(l, r) => ConditionModel::Bigger(Box::new(condition_model(*l)), Box::new(condition_model(*r))),
        Condition::BiggerEquals(l, r) => ConditionModel::BiggerEquals(Box::new(condition_model(*l)), Box::new(condition_model(*r))),
        Condition::Smaller(l, r) => ConditionModel::Smaller(Box::new(condition_model(*l)), Box::new(condition_model(*r))),
        Condition::SmallerEquals(l, r) => ConditionModel::SmallerEquals(Box::new(condition_model(*l)), Box::new(condition_model(*r))),
        Condition::NotEquals(l, r) => ConditionModel::NotEquals(Box::new(condition_model(*l)), Box::new(condition_model(*r))),
        Condition::Invert(c) => ConditionModel::Invert(Box::new(condition_model(*c))),
    }
}

impl View for Condition {
    type V = ConditionModel;

    open spec fn view(&self) -> ConditionModel {
        condition_model(*self)
    }
}

pub open spec fn view_opt_condition(r: Option<Condition>) -> Option<ConditionModel> {
    match r {
        Some(c) => Some(c@),
        None => None,
    }
}

/// A comparison operator.
#[derive(Clone, Copy, PartialEq, Eq, Structural)]
pub enum CompareOp {
    IsEqual,
    NotEquals,
    BiggerEquals,
    SmallerEquals,
    Bigger,
    Smaller,
}

/// The comparison operator at position `i` and its length: `==`, `!=`, `>=`, `<=`, then
/// `>` and `<`.
pub open spec fn operator_at(s: Seq<char>, i: int) -> Option<(int, CompareOp)> {
    let two = i + 1 < s.len();
    if two && s[i] == '=' && s[i + 1] == '=' {
        Some((2, CompareOp::IsEqual))
    } else if two && s[i] == '!' && s[i + 1] == '=' {
        Some((2, CompareOp::NotEquals))
    } else if two && s[i] == '>' && s[i + 1] == '=' {
        Some((2, CompareOp::BiggerEquals))
    } else if two && s[i] == '<' && s[i + 1] == '=' {
        Some((2, CompareOp::SmallerEquals))
    } else if s[i] == '>' {
        Some((1, CompareOp::Bigger))
    } else if s[i] == '<' {
        Some((1, CompareOp::Smaller))
    } else {
        None
    }
}

/// An operator stands at position `i` outside string literals and parentheses.
pub open spec fn is_operator(s: Seq<char>, i: int) -> bool {
    !in_string_before(s, i) && depth_before(s, i) == 0 && operator_at(s, i) is Some
}

/// A `)` at position `i` closes a parenthesis that was never opened.
pub open spec fn is_unopened_close(s: Seq<char>, i: int) -> bool {
    s[i] == ')' && !in_string_before(s, i) && depth_before(s, i) == 0
}

/// A `)` at position `i` closes the parenthesis opened first.
pub open spec fn is_closing(s: Seq<char>, i: int) -> bool {
    s[i] == ')' && !in_string_before(s, i) && depth_before(s, i) == 1
}

/// The whole text is one parenthesized part: it opens with `(` and the parenthesis it
/// opens closes at its last character.
pub open spec fn enclosed(s: Seq<char>) -> bool {
    s.len() >= 2 && s[0] == '(' && s.last() == ')' && first_index(s.len() as int, |i: int| is_closing(s, i))
        == Some(s.len() - 1)
}

/// The text without the parentheses that enclose the whole of it, trimmed at each step;
/// none when nothing is left inside.
pub open spec fn strip_parens(s: Seq<char>) -> Option<Seq<char>>
    decreases s.len(),
{
    if enclosed(s) {
        let inner = trim(s.subrange(1, s.len() - 1));
        if inner.len() == 0 {
            None
        } else {
            proof {
                lemma_trim(s.subrange(1, s.len() - 1));
            }
            strip_parens(inner)
        }
    } else {
        Some(s)
    }
}

pub proof fn lemma_strip_parens(s: Seq<char>)
    requires
        s.len() > 0,
    ensures
        match strip_parens(s) {
            Some(t) => t.len() <= s.len() && t.len() > 0 && !enclosed(t),
            None => true,
        },
    decreases s.len(),
{
    if enclosed(s) {
        let inner = trim(s.subrange(1, s.len() - 1));
        lemma_trim(s.subrange(1, s.len() - 1));
        if inner.len() > 0 {
            lemma_strip_parens(inner);
        }
    }
}

/// The condition made by a comparison operator.
pub open spec fn compare_model(op: CompareOp, l: ConditionModel, r: ConditionModel) -> ConditionModel {
    let (l, r) = (Box::new(l), Box::new(r));
    match op {
        CompareOp::IsEqual => ConditionModel::IsEqual(l, r),
        CompareOp::NotEquals => ConditionModel::NotEquals(l, r),
        CompareOp::BiggerEquals => ConditionModel::BiggerEquals(l, r),
        CompareOp::SmallerEquals => ConditionModel::SmallerEquals(l, r),
        CompareOp::Bigger => ConditionModel::Bigger(l, r),
        CompareOp::Smaller => ConditionModel::Smaller(l, r),
    }
}

/// Reads a condition. The text is trimmed and freed of enclosing parentheses. A leading
/// `!` that does not start `!=` negates the rest. Otherwise the first comparison operator
/// outside strings and parentheses splits it into two conditions. Without one it is a
/// value or dot notation. Nothing is read from an empty text, from a text with a `)` that
/// closes nothing before the first operator, or from one that leaves a string or a
/// parenthesis open.
pub open spec fn spec_parse_condition(s: Seq<char>, vars: Seq<VariableModel>) -> Option<ConditionModel>
    decreases s.len(),
{
    let t = trim(s);
    if t.len() == 0 {
        None
    } else {
        proof {
            lemma_trim(s);
            lemma_strip_parens(t);
        }
        match strip_parens(t) {
            None => None,
            Some(inp) => {
                let n = inp.len() as int;
                if inp[0] == '!' && !(n >= 2 && inp[1] == '=') {
                    proof {
                        lemma_trim(inp.subrange(1, n));
                    }
                    match spec_parse_condition(trim(inp.subrange(1, n)), vars) {
                        Some(c) => Some(ConditionModel::Invert(Box::new(c))),
                        None => None,
                    }
                } else {
                    let f = first_index(n, |i: int| is_operator(inp, i));
                    let u = first_index(n, |i: int| is_unopened_close(inp, i));
                    if u is Some && (f is None || u->0 < f->0) {
                        None
                    } else {
                        match f {
                            Some(i) => {
                                proof {
                                    lemma_first_index(n, |i: int| is_operator(inp, i));
                                }
                                let (len, op) = operator_at(inp, i)->0;
                                proof {
                                    lemma_trim(inp.subrange(0, i));
                                    lemma_trim(inp.subrange(i + len, n));
                                }
                                let left = spec_parse_condition(trim(inp.subrange(0, i)), vars);
                                let right = spec_parse_condition(trim(inp.subrange(i + len, n)), vars);
                                match (left, right) {
                                    (Some(l), Some(r)) => Some(compare_model(op, l, r)),
                                    _ => None,
                                }
                            },
                            None => if in_string_before(inp, n) || depth_before(inp, n) != 0 {
                                None
                            } else {
                                match spec_parse_value(inp) {
                                    Some(v) => Some(ConditionModel::Expression(ExpressionModel::Value(v))),
                                    None => match spec_dot_notation(inp, ExpressionModel::Empty, vars) {
                                        Some(e) => Some(ConditionModel::Expression(e)),
                                        None => None,
                                    },
                                }
                            },
                        }
                    }
                }
            },
        }
    }
}

/// Whether a string literal is open depends only on what comes before.
proof fn lemma_in_string_prefix(s: Seq<char>, m: int, k: int)
    requires
        0 <= k <= m <= s.len(),
    ensures
        in_string_before(s.subrange(0, m), k) == in_string_before(s, k),
    decreases k,
{
    if k > 0 {
        lemma_in_string_prefix(s, m, k - 1);
    }
}

/// Characters other than `"` leave a string literal open or closed as it was.
proof fn lemma_in_string_without_quotes(s: Seq<char>, a: int, b: int)
    requires
        0 <= a <= b <= s.len(),
        forall|j: int| a <= j < b ==> s[j] != '"',
    ensures
        in_string_before(s, b) == in_string_before(s, a),
    decreases b - a,
{
    if b > a {
        lemma_in_string_without_quotes(s, a, b - 1);
    }
}

/// A text that trims to a lone double quote leaves a string literal open.
proof fn lemma_lone_quote_opens(t: Seq<char>)
    requires
        is_lone_quote(trim(t)),
    ensures
        in_string_before(t, t.len() as int),
{
    lemma_trim(t);
    lemma_trim_start_suffix(t);
    lemma_trim_end_prefix(trim_start(t));
    let o = trim_offset(t);
    let ts = trim_start(t);
    assert(ts == t.subrange(o, t.len() as int));
    assert(!is_ws('"'));
    assert forall|j: int| 0 <= j < o implies t[j] != '"' by {
        assert(is_ws(t[j]));
    }
    lemma_in_string_without_quotes(t, 0, o);
    assert(t[o] == trim(t)[0]);
    assert forall|j: int| o + 1 <= j < t.len() implies t[j] != '"' by {
        assert(ts[j - o] == t[j]);
        assert(is_ws(ts[j - o]));
    }
    lemma_in_string_without_quotes(t, o + 1, t.len() as int);
}

/// A text that leaves no string literal open is no lone double quote, and neither is what
/// comes before its first dot.
proof fn lemma_closed_text_readable(s: Seq<char>)
    requires
        !in_string_before(s, s.len() as int),
    ensures
        !is_lone_quote(s),
        dot_notation_readable(s, ExpressionModel::Empty),
{
    if is_lone_quote(s) {
        assert(in_string_before(s, 1) == !in_string_before(s, 0));
    }
    lemma_first_index(s.len() as int, |i: int| is_free_dot(s, i));
    let seg = spec_split_at_dot(s).0;
    match free_dot(s) {
        Some(i) => {
            lemma_in_string_prefix(s, i, i);
        },
        None => {},
    }
    if is_lone_quote(trim(seg)) {
        lemma_lone_quote_opens(seg);
    }
}

/// Whether the parenthesis that the text opens closes at its last character.
fn encloses_whole(s: &[char]) -> (r: bool)
    requires
        s@.len() >= 2,
        s@[0] == '(',
    ensures
        r == (first_index(s@.len() as int, |i: int| is_closing(s@, i)) == Some(s@.len() - 1)),
{
    let n = s.len();
    let ghost p = |i: int| is_closing(s@, i);
    let mut inside = false;
    let mut depth: usize = 0;
    let mut i: usize = 0;
    while i < n
        invariant
            i <= n == s@.len(),
            s@[0] == '(',
            p == (|i: int| is_closing(s@, i)),
            inside == in_string_before(s@, i as int),
            depth == depth_before(s@, i as int),
            i >= 1 ==> depth >= 1,
            depth <= i,
            forall|j: int| 0 <= j < i ==> !#[trigger] p(j),
        decreases n - i,
    {
        let c = s[i];
        if c == '"' {
            inside = !inside;
        } else if c == '(' && !inside {
            depth = depth + 1;
        } else if c == ')' && !inside {
            if depth == 1 {
                proof {
                    lemma_first_index_is(n as int, p, i as int);
                }
                return i == n - 1;
            }
            depth = depth - 1;
        }
        i = i + 1;
    }
    proof {
        lemma_first_index(n as int, p);
    }
    false
}

/// The comparison operator at position `i`; see [`operator_at`].
fn operator_here(s: &[char], i: usize) -> (r: Option<(usize, CompareOp)>)
    requires
        i < s@.len(),
    ensures
        match operator_at(s@, i as int) {
            Some((len, op)) => r == Some((len as usize, op)),
            None => r is None,
        },
{
    assert(i < s.len());
    let two = i + 1 < s.len();
    let c = s[i];
    if two && c == '=' && s[i + 1] == '=' {
        Some((2, CompareOp::IsEqual))
    } else if two && c == '!' && s[i + 1] == '=' {
        Some((2, CompareOp::NotEquals))
    } else if two && c == '>' && s[i + 1] == '=' {
        Some((2, CompareOp::BiggerEquals))
    } else if two && c == '<' && s[i + 1] == '=' {
        Some((2, CompareOp::SmallerEquals))
    } else if c == '>' {
        Some((1, CompareOp::Bigger))
    } else if c == '<' {
        Some((1, CompareOp::Smaller))
    } else {
        None
    }
}

/// What the search for a comparison operator found.
enum OperatorSearch {
    /// A `)` that closes nothing came first.
    Unopened,
    /// The first operator.
    Found(usize),
    /// No operator; whether every string literal and parenthesis was closed.
    NotFound(bool),
}

/// Searches for the first comparison operator outside strings and parentheses.
fn find_operator(s: &[char]) -> (r: OperatorSearch)
    ensures
        ({
            let n = s@.len() as int;
            let f = first_index(n, |i: int| is_operator(s@, i));
            let u = first_index(n, |i: int| is_unopened_close(s@, i));
            match r {
                OperatorSearch::Unopened => u is Some && (f is None || u->0 < f->0),
                OperatorSearch::Found(i) => f == Some(i as int) && !(u is Some && u->0 < i),
                OperatorSearch::NotFound(b) => f is None && u is None && b == (!in_string_before(s@, n)
                    && depth_before(s@, n) == 0),
            }
        }),
{
    let n = s.len();
    let ghost po = |i: int| is_operator(s@, i);
    let ghost pu = |i: int| is_unopened_close(s@, i);
    let mut inside = false;
    let mut depth: usize = 0;
    let mut i: usize = 0;
    while i < n
        invariant
            i <= n == s@.len(),
            po == (|i: int| is_operator(s@, i)),
            pu == (|i: int| is_unopened_close(s@, i)),
            inside == in_string_before(s@, i as int),
            depth == depth_before(s@, i as int),
            depth <= i,
            forall|j: int| 0 <= j < i ==> !#[trigger] po(j),
            forall|j: int| 0 <= j < i ==> !#[trigger] pu(j),
        decreases n - i,
    {
        let c = s[i];
        if c == '"' {
            inside = !inside;
        } else if c == '(' && !inside {
            depth = depth + 1;
        } else if c == ')' && !inside {
            if depth == 0 {
                proof {
                    lemma_first_index_is(n as int, pu, i as int);
                    lemma_first_index(n as int, po);
                }
                return OperatorSearch::Unopened;
            }
            depth = depth - 1;
        } else if inside || depth > 0 {
        } else {
            match operator_here(s, i) {
                Some(_) => {
                    proof {
                        lemma_first_index_is(n as int, po, i as int);
                        lemma_first_index(n as int, pu);
                    }
                    return OperatorSearch::Found(i);
                },
                None => {},
            }
        }
        i = i + 1;
    }
    proof {
        lemma_first_index(n as int, po);
        lemma_first_index(n as int, pu);
    }
    OperatorSearch::NotFound(!inside && depth == 0)
}

/// The condition made by a comparison operator.
fn compare(op: CompareOp, l: Condition, r: Condition) -> (c: Condition)
    ensures
        c@ == compare_model(op, l@, r@),
{
    let (l, r) = (Box::new(l), Box::new(r));
    match op {
        CompareOp::IsEqual => Condition::IsEqual(l, r),
        CompareOp::NotEquals => Condition::NotEquals(l, r),
        CompareOp::BiggerEquals => Condition::BiggerEquals(l, r),
        CompareOp::SmallerEquals => Condition::SmallerEquals(l, r),
        CompareOp::Bigger => Condition::Bigger(l, r),
        CompareOp::Smaller => Condition::Smaller(l, r),
    }
}

/// Reads a condition from characters; see [`spec_parse_condition`].
pub fn condition_chars(s: &[char], vars: &VariableMap) -> (r: Option<Condition>)
    ensures
        view_opt_condition(r) == spec_parse_condition(s@, vars@),
    decreases s@.len(),
{
    let t = trim_chars(s);
    if t.len() == 0 {
        return None;
    }
    proof {
        lemma_trim(s@);
        lemma_strip_parens(t@);
    }
    let mut input = t;
    loop
        invariant
            strip_parens(t@) == strip_parens(input@),
            0 < input@.len() <= t@.len(),
            t@ == trim(s@),
        ensures
            strip_parens(t@) == Some(input@),
            0 < input@.len() <= t@.len(),
        decreases input@.len(),
    {
        let n = input.len();
        if n >= 2 && input[0] == '(' && input[n - 1] == ')' && encloses_whole(input) {
            let inner = trim_chars(slice_subrange(input, 1, n - 1));
            proof {
                lemma_trim(input@.subrange(1, n - 1));
            }
            assert(enclosed(input@));
            if inner.len() == 0 {
                assert(strip_parens(input@) is None);
                return None;
            }
            input = inner;
        } else {
            break;
        }
    }
    let n = input.len();
    if input[0] == '!' && !(n >= 2 && input[1] == '=') {
        let rest = trim_chars(slice_subrange(input, 1, n));
        proof {
            lemma_trim(input@.subrange(1, n as int));
        }
        return match condition_chars(rest, vars) {
            Some(c) => Some(Condition::Invert(Box::new(c))),
            None => None,
        };
    }
    match find_operator(input) {
        OperatorSearch::Unopened => None,
        OperatorSearch::Found(i) => {
            proof {
                lemma_first_index(n as int, |i: int| is_operator(input@, i));
            }
            let (len, op) = operator_here(input, i).unwrap();
            let left_text = trim_chars(slice_subrange(input, 0, i));
            let right_text = trim_chars(slice_subrange(input, i + len, n));
            proof {
                lemma_trim(input@.subrange(0, i as int));
                lemma_trim(input@.subrange(i + len, n as int));
            }
            let left = match condition_chars(left_text, vars) {
                Some(l) => l,
                None => return None,
            };
            let right = match condition_chars(right_text, vars) {
                Some(r) => r,
                None => return None,
            };
            Some(compare(op, left, right))
        },
        OperatorSearch::NotFound(balanced) => {
            if !balanced {
                return None;
            }
            proof {
                lemma_closed_text_readable(input@);
            }
            match parse_value_chars(input) {
                Some(v) => {
                    let e = Expression::Value(v);
                    return Some(Condition::Expression(Box::new(e)));
                },
                None => {},
            }
            match dot_notation_chars(input, Expression::Empty, vars) {
                Some(e) => Some(Condition::Expression(Box::new(e))),
                None => None,
            }
        },
    }
}

/// Reads a condition; see [`spec_parse_condition`]. The variables are only read.
pub fn parse_condition(s: String, vars: &mut VariableMap) -> (r: Option<Condition>)
    ensures
        view_opt_condition(r) == spec_parse_condition(s@, old(vars)@),
        final(vars)@ == old(vars)@,
{
    let chars = chars_of(s.as_str());
    condition_chars(chars.as_slice(), vars)
}

/// A leading `!` (one that does not start `!=`) negates the condition after it.
pub proof fn law_not_negates(c: Seq<char>, vars: Seq<VariableModel>)
    requires
        c.len() > 0,
        c[0] != '=',
        !is_ws(c.last()),
    ensures
        spec_parse_condition(seq!['!'] + c, vars) == match spec_parse_condition(trim(c), vars) {
            Some(x) => Some(ConditionModel::Invert(Box::new(x))),
            None => None,
        },
{
    let s = seq!['!'] + c;
    assert(!is_ws('!'));
    assert(s[0] == '!');
    assert(s.last() == c.last());
    assert(trim_start(s) == s);
    assert(trim(s) == s);
    assert(!enclosed(s));
    assert(strip_parens(s) == Some(s));
    assert(s.subrange(1, s.len() as int) =~= c);
}

/// The operator that a comparison condition stands for, as it is written.
pub open spec fn comparison_symbol(c: ConditionModel) -> Option<Seq<char>> {
    match c {
        ConditionModel::IsEqual(_, _) => Some(seq!['=', '=']),
        ConditionModel::NotEquals(_, _) => Some(seq!['!', '=']),
        ConditionModel::BiggerEquals(_, _) => Some(seq!['>', '=']),
        ConditionModel::SmallerEquals(_, _) => Some(seq!['<', '=']),
        ConditionModel::Bigger(_, _) => Some(seq!['>']),
        ConditionModel::Smaller(_, _) => Some(seq!['<']),
        _ => None,
    }
}

/// The condition read at an operator is the comparison written there, between the two
/// sides: for every text and position where an operator is found, the condition made
/// from it stands for exactly the characters of that operator (`<` gives `Smaller`, `>`
/// gives `Bigger`, and so on), with the left side first.
pub proof fn law_comparison_is_the_written_operator(s: Seq<char>, i: int, l: ConditionModel, r: ConditionModel)
    requires
        0 <= i < s.len(),
        operator_at(s, i) is Some,
    ensures
        ({
            let (k, op) = operator_at(s, i)->0;
            &&& comparison_symbol(compare_model(op, l, r)) == Some(s.subrange(i, i + k))
            &&& match compare_model(op, l, r) {
                ConditionModel::IsEqual(a, b) => *a == l && *b == r,
                ConditionModel::NotEquals(a, b) => *a == l && *b == r,
                ConditionModel::BiggerEquals(a, b) => *a == l && *b == r,
                ConditionModel::SmallerEquals(a, b) => *a == l && *b == r,
                ConditionModel::Bigger(a, b) => *a == l && *b == r,
                ConditionModel::Smaller(a, b) => *a == l && *b == r,
                _ => false,
            }
        }),
{
    let (k, op) = operator_at(s, i)->0;
    if k == 2 {
        assert(s.subrange(i, i + 2) =~= seq![s[i], s[i + 1]]);
    } else {
        assert(s.subrange(i, i + 1) =~= seq![s[i]]);
    }
}

/// Reading a condition whose first operator outside strings and parentheses stands at
/// position `i` gives, when it gives anything, the comparison written at `i`: `a < b` is
/// never read as another comparison. This holds for every trimmed text that is not wholly
/// in parentheses and does not start with a negating `!`.
pub proof fn law_parse_condition_keeps_operator(s: Seq<char>, vars: Seq<VariableModel>, i: int)
    requires
        s.len() > 0,
        trim(s) == s,
        !enclosed(s),
        !(s[0] == '!' && !(s.len() >= 2 && s[1] == '=')),
        first_index(s.len() as int, |j: int| is_operator(s, j)) == Some(i),
    ensures
        spec_parse_condition(s, vars) matches Some(c) ==> comparison_symbol(c) == Some(
            s.subrange(i, i + (operator_at(s, i)->0).0),
        ),
{
    lemma_first_index(s.len() as int, |j: int| is_operator(s, j));
    assert(strip_parens(s) == Some(s));
    if spec_parse_condition(s, vars) is Some {
        let (k, op) = operator_at(s, i)->0;
        let left = spec_parse_condition(trim(s.subrange(0, i)), vars);
        let right = spec_parse_condition(trim(s.subrange(i + k, s.len() as int)), vars);
        if left is Some && right is Some {
            law_comparison_is_the_written_operator(s, i, left->0, right->0);
        }
    }
}

} // verus!
