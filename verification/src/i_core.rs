//! The core kinds of block, and the core values: strings, whole numbers and truth values.
use vstd::prelude::*;
use std::sync::Arc;

use crate::symbol_resolver::BlockType;
use crate::text::{chars_of, string_of};

verus! {

/// The kinds of block: `execute`, run first.
pub fn gather_blocktypes() -> (r: Vec<Arc<BlockType>>)
    ensures
        r@.len() == 1,
        r@[0].name@ == "execute"@,
        r@[0].execution_order == 1,
{
    let mut out: Vec<Arc<BlockType>> = Vec::new();
    out.push(Arc::new(BlockType {
        name: string_of(chars_of("execute").as_slice()),
        execution_order: 1,
    }));
    out
}

} // verus!

verus! {

/// A core value: a string, a whole number or a truth value.
#[derive(Debug, Clone, PartialEq)]
pub enum Value {
    String(String),
    Number(i32),
    Boolean(bool),
}

/// The mathematical value of a core [`Value`].
pub enum CoreModel {
    String(Seq<char>),
    Number(i32),
    Boolean(bool),
}

impl View for Value {
    type V = CoreModel;

    open spec fn view(&self) -> CoreModel {
        match self {
            Value::String(s) => CoreModel::String(s@),
            Value::Number(n) => CoreModel::Number(*n),
            Value::Boolean(b) => CoreModel::Boolean(*b),
        }
    }
}

pub open spec fn is_ascii_digit(c: char) -> bool {
    '0' <= c && c <= '9'
}

/// One or more ASCII digits.
pub open spec fn all_digits(d: Seq<char>) -> bool {
    d.len() > 0 && forall|i: int| 0 <= i < d.len() ==> is_ascii_digit(#[trigger] d[i])
}

/// The number the decimal digits stand for.
pub open spec fn digits_value(d: Seq<char>) -> int
    decreases d.len(),
{
    if d.len() == 0 {
        0
    } else {
        digits_value(d.drop_last()) * 10 + (d.last() as int - '0' as int)
    }
}

/// The whole number a text stands for as `i32::from_str` reads it: an optional `+` or `-`
/// and one or more ASCII digits, within the range of `i32`.
pub open spec fn spec_parse_i32(s: Seq<char>) -> Option<i32> {
    let neg = s.len() > 0 && s[0] == '-';
    let signed = s.len() > 0 && (s[0] == '-' || s[0] == '+');
    let d = if signed {
        s.subrange(1, s.len() as int)
    } else {
        s
    };
    let v = if neg {
        -digits_value(d)
    } else {
        digits_value(d)
    };
    if all_digits(d) && i32::MIN <= v <= i32::MAX {
        Some(v as i32)
    } else {
        None
    }
}

proof fn lemma_digits_value_grows(d: Seq<char>, k: int)
    requires
        0 <= k <= d.len(),
        forall|i: int| 0 <= i < d.len() ==> is_ascii_digit(#[trigger] d[i]),
    ensures
        0 <= digits_value(d.subrange(0, k)) <= digits_value(d),
    decreases d.len() - k,
{
    if k < d.len() {
        lemma_digits_value_grows(d, k + 1);
        assert(d.subrange(0, k + 1).drop_last() == d.subrange(0, k));
    } else {
        assert(d.subrange(0, k) == d);
        lemma_digits_value_nonneg(d);
    }
}

proof fn lemma_digits_value_nonneg(d: Seq<char>)
    requires
        forall|i: int| 0 <= i < d.len() ==> is_ascii_digit(#[trigger] d[i]),
    ensures
        digits_value(d) >= 0,
    decreases d.len(),
{
    if d.len() > 0 {
        lemma_digits_value_nonneg(d.drop_last());
    }
}

/// Reads a whole number; see [`spec_parse_i32`].
pub fn parse_i32(s: &[char]) -> (r: Option<i32>)
    ensures
        r == spec_parse_i32(s@),
{
    let n = s.len();
    let neg = n > 0 && s[0] == '-';
    let signed = n > 0 && (s[0] == '-' || s[0] == '+');
    let start: usize = if signed { 1 } else { 0 };
    let ghost d = s@.subrange(start as int, n as int);
    assert(s@.subrange(0, n as int) == s@);
    assert(d == (if signed { s@.subrange(1, s@.len() as int) } else { s@ }));
    if start == n {
        return None;
    }
    let mut acc: i64 = 0;
    let mut i: usize = start;
    while i < n
        invariant
            start <= i <= n == s@.len(),
            d == s@.subrange(start as int, n as int),
            forall|j: int| 0 <= j < i - start ==> is_ascii_digit(#[trigger] d[j]),
            acc == digits_value(d.subrange(0, i - start)),
            0 <= acc <= 2147483648,
            neg == (s@.len() > 0 && s@[0] == '-'),
            signed == (s@.len() > 0 && (s@[0] == '-' || s@[0] == '+')),
            d == (if signed { s@.subrange(1, s@.len() as int) } else { s@ }),
        decreases n - i,
    {
        let c = s[i];
        if !('0' <= c && c <= '9') {
            assert(!is_ascii_digit(d[i - start]));
            return None;
        }
        let digit = (c as u32 - '0' as u32) as i64;
        assert(d.subrange(0, i + 1 - start).drop_last() == d.subrange(0, i - start));
        acc = acc * 10 + digit;
        if acc > 2147483648 {
            proof {
                if all_digits(d) {
                    lemma_digits_value_grows(d, i + 1 - start);
                }
            }
            return None;
        }
        i = i + 1;
    }
    assert(d.subrange(0, n - start) == d);
    if neg {
        Some((-acc) as i32)
    } else if acc <= 2147483647 {
        Some(acc as i32)
    } else {
        None
    }
}

/// Reads a core value: a string between double quotes, a whole number, or `true` or
/// `false`. A lone double quote cannot be read.
pub open spec fn spec_expression_parser(s: Seq<char>) -> Option<CoreModel> {
    if s.len() >= 1 && s[0] == '"' && s.last() == '"' {
        Some(CoreModel::String(s.subrange(1, s.len() - 1)))
    } else if spec_parse_i32(s) is Some {
        Some(CoreModel::Number(spec_parse_i32(s)->0))
    } else if s == "true"@ {
        Some(CoreModel::Boolean(true))
    } else if s == "false"@ {
        Some(CoreModel::Boolean(false))
    } else {
        None
    }
}

/// Reads a core value; see [`spec_expression_parser`].
pub fn expression_parser(input: &str) -> (r: Option<Value>)
    requires
        !(input@.len() == 1 && input@[0] == '"'),
    ensures
        match r {
            Some(v) => spec_expression_parser(input@) == Some(v@),
            None => spec_expression_parser(input@) is None,
        },
{
    let chars = chars_of(input);
    let n = chars.len();
    if n >= 1 && chars[0] == '"' && chars[n - 1] == '"' {
        let inner = vstd::slice::slice_subrange(chars.as_slice(), 1, n - 1);
        return Some(Value::String(string_of(inner)));
    }
    match parse_i32(chars.as_slice()) {
        Some(v) => return Some(Value::Number(v)),
        None => {},
    }
    if crate::text::chars_eq_str(chars.as_slice(), "true") {
        return Some(Value::Boolean(true));
    }
    if crate::text::chars_eq_str(chars.as_slice(), "false") {
        return Some(Value::Boolean(false));
    }
    None
}

/// The decimal numeral of a whole number, with `-` before a negative one.
pub open spec fn int_text(n: i32) -> Seq<char> {
    if n < 0 {
        seq!['-'] + crate::text::decimal((-n) as nat)
    } else {
        crate::text::decimal(n as nat)
    }
}

/// How a core value is shown: a string as it is, a number by its numeral, a truth value as
/// `true` or `false`.
pub open spec fn spec_display(v: CoreModel) -> Seq<char> {
    match v {
        CoreModel::String(s) => s,
        CoreModel::Number(n) => int_text(n),
        CoreModel::Boolean(b) => if b { "true"@ } else { "false"@ },
    }
}

/// Shows a core value; see [`spec_display`].
pub fn display(v: &Value) -> (r: String)
    ensures
        r@ == spec_display(v@),
{
    match v {
        Value::String(s) => s.clone(),
        Value::Number(n) => {
            if *n < 0 {
                let m = (-(*n as i64)) as usize;
                let digits = crate::text::usize_to_text(m);
                let mut r = String::new();
                crate::text::push_char(&mut r, '-');
                crate::text::push_str(&mut r, digits.as_str());
                r
            } else {
                crate::text::usize_to_text(*n as usize)
            }
        },
        Value::Boolean(b) => {
            let t = if *b { "true" } else { "false" };
            string_of(chars_of(t).as_slice())
        },
    }
}

/// The built-in `inc_one`: its first argument plus one, when it is a number.
pub fn inc_one(args: &Vec<Value>) -> (r: Option<Value>)
    requires
        args@.len() >= 1,
        args@[0] matches Value::Number(n) ==> n < i32::MAX,
    ensures
        match args@[0] {
            Value::Number(n) => r == Some(Value::Number((n + 1) as i32)),
            _ => r is None,
        },
{
    match &args[0] {
        Value::Number(n) => Some(Value::Number(*n + 1)),
        _ => None,
    }
}

proof fn lemma_decimal_digits(n: nat)
    ensures
        all_digits(crate::text::decimal(n)),
        digits_value(crate::text::decimal(n)) == n,
        crate::text::decimal(n)[0] != '-' && crate::text::decimal(n)[0] != '+',
    decreases n,
{
    let d = crate::text::decimal(n);
    assert('0' as int == 48);
    assert(digits_value(d) == digits_value(d.drop_last()) * 10 + (d.last() as int - '0' as int));
    if n < 10 {
        assert(d.drop_last() =~= Seq::<char>::empty());
        assert(d.last() == crate::text::digit_char(n));
        assert(crate::text::digit_char(n) as int == 48 + n);
    } else {
        lemma_decimal_digits(n / 10);
        let p = crate::text::decimal(n / 10);
        assert(d.drop_last() == p);
        assert(d[0] == p[0]);
        assert(d.last() == crate::text::digit_char(n % 10));
        assert(crate::text::digit_char(n % 10) as int == 48 + n % 10);
        assert((n / 10) * 10 + n % 10 == n) by (nonlinear_arith);
        assert forall|i: int| 0 <= i < d.len() implies is_ascii_digit(#[trigger] d[i]) by {
            if i < p.len() {
                assert(d[i] == p[i]);
            }
        }
    }
}

/// Showing a whole number and reading it back gives the number.
pub proof fn law_display_then_read(n: i32)
    ensures
        spec_parse_i32(spec_display(CoreModel::Number(n))) == Some(n),
{
    let t = spec_display(CoreModel::Number(n));
    if n < 0 {
        let m = (-n) as nat;
        lemma_decimal_digits(m);
        let d = crate::text::decimal(m);
        assert(t == seq!['-'] + d);
        assert(t.subrange(1, t.len() as int) =~= d);
    } else {
        lemma_decimal_digits(n as nat);
    }
}

} // verus!
