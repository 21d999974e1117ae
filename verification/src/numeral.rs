//! Numbers as they are written. The library holds a number by its numeral; the
//! numeral's floating-point value is computed outside the library, where it is used.
//! Which texts `str::parse::<f64>` accepts is decided here, by the grammar that its
//! documentation gives.
use vstd::prelude::*;

use crate::scan::{first_index, lemma_first_index};

verus! {

pub open spec fn is_digit(c: char) -> bool {
    '0' <= c <= '9'
}

/// The code of the character after ASCII lowercasing.
pub open spec fn ascii_lower(c: char) -> int {
    if 'A' <= c <= 'Z' {
        (c as u32) + 32
    } else {
        c as u32 as int
    }
}

/// Equal up to ASCII case.
pub open spec fn eq_ignore_ascii_case(a: Seq<char>, b: Seq<char>) -> bool {
    a.len() == b.len() && forall|i: int| 0 <= i < a.len() ==> ascii_lower(#[trigger] a[i]) == ascii_lower(b[i])
}

/// `Digit+ | Digit+ '.' Digit* | Digit* '.' Digit+`: digits and at most one dot, with at
/// least one digit.
pub open spec fn is_decimal(m: Seq<char>) -> bool {
    &&& forall|i: int| 0 <= i < m.len() ==> is_digit(#[trigger] m[i]) || m[i] == '.'
    &&& forall|i: int, j: int| 0 <= i < j < m.len() ==> !(#[trigger] m[i] == '.' && #[trigger] m[j] == '.')
    &&& exists|i: int| 0 <= i < m.len() && is_digit(#[trigger] m[i])
}

/// The digits of an exponent `e`, after the `e` and an optional sign.
pub open spec fn exponent_digits(e: Seq<char>) -> Seq<char> {
    let r = e.drop_first();
    if r.len() > 0 && (r[0] == '+' || r[0] == '-') {
        r.drop_first()
    } else {
        r
    }
}

/// `'e' Sign? Digit+`, the `e` in either case.
pub open spec fn is_exponent(e: Seq<char>) -> bool {
    &&& e.len() >= 2
    &&& (e[0] == 'e' || e[0] == 'E')
    &&& exponent_digits(e).len() >= 1
    &&& forall|i: int| 0 <= i < exponent_digits(e).len() ==> is_digit(#[trigger] exponent_digits(e)[i])
}

/// Where the exponent of a numeral starts: at its first `e` or `E`, or at its end.
pub open spec fn exponent_start(s: Seq<char>) -> int {
    match first_index(s.len() as int, |i: int| s[i] == 'e' || s[i] == 'E') {
        Some(k) => k,
        None => s.len() as int,
    }
}

/// `Decimal Exp?`.
pub open spec fn is_number(s: Seq<char>) -> bool {
    let k = exponent_start(s);
    is_decimal(s.subrange(0, k)) && (k == s.len() || is_exponent(s.subrange(k, s.len() as int)))
}

/// The text without one leading sign.
pub open spec fn unsigned_part(s: Seq<char>) -> Seq<char> {
    if s.len() > 0 && (s[0] == '+' || s[0] == '-') {
        s.drop_first()
    } else {
        s
    }
}

/// The texts that `str::parse::<f64>` accepts, as its documentation gives them:
/// `Sign? ('inf' | 'infinity' | 'nan' | Number)`, without regard to ASCII case.
pub open spec fn is_float_literal(s: Seq<char>) -> bool {
    let u = unsigned_part(s);
    ||| eq_ignore_ascii_case(u, seq!['i', 'n', 'f'])
    ||| eq_ignore_ascii_case(u, seq!['i', 'n', 'f', 'i', 'n', 'i', 't', 'y'])
    ||| eq_ignore_ascii_case(u, seq!['n', 'a', 'n'])
    ||| is_number(u)
}

fn lower(c: char) -> (r: u32)
    ensures
        r == ascii_lower(c),
{
    if 'A' <= c && c <= 'Z' {
        (c as u32) + 32
    } else {
        c as u32
    }
}

fn matches_ignore_case(s: &[char], word: &[char]) -> (r: bool)
    ensures
        r == eq_ignore_ascii_case(s@, word@),
{
    if s.len() != word.len() {
        return false;
    }
    let mut i: usize = 0;
    while i < s.len()
        invariant
            s@.len() == word@.len(),
            i <= s@.len(),
            forall|j: int| 0 <= j < i ==> ascii_lower(#[trigger] s@[j]) == ascii_lower(word@[j]),
        decreases s@.len() - i,
    {
        if lower(s[i]) != lower(word[i]) {
            return false;
        }
        i = i + 1;
    }
    true
}

fn all_digits(d: &[char]) -> (r: bool)
    ensures
        r == (forall|i: int| 0 <= i < d@.len() ==> is_digit(#[trigger] d@[i])),
{
    let mut i: usize = 0;
    while i < d.len()
        invariant
            i <= d@.len(),
            forall|j: int| 0 <= j < i ==> is_digit(#[trigger] d@[j]),
        decreases d@.len() - i,
    {
        if !('0' <= d[i] && d[i] <= '9') {
            return false;
        }
        i = i + 1;
    }
    true
}

pub fn check_decimal(m: &[char]) -> (r: bool)
    ensures
        r == is_decimal(m@),
{
    let mut dot: Option<usize> = None;
    let mut digit = false;
    let mut i: usize = 0;
    while i < m.len()
        invariant
            i <= m@.len(),
            forall|j: int| 0 <= j < i ==> is_digit(#[trigger] m@[j]) || m@[j] == '.',
            forall|a: int, b: int| 0 <= a < b < i ==> !(#[trigger] m@[a] == '.' && #[trigger] m@[b] == '.'),
            match dot {
                Some(k) => k < i && m@[k as int] == '.',
                None => forall|j: int| 0 <= j < i ==> m@[j] != '.',
            },
            digit == (exists|j: int| 0 <= j < i && is_digit(#[trigger] m@[j])),
        decreases m@.len() - i,
    {
        let c = m[i];
        if '0' <= c && c <= '9' {
            digit = true;
        } else if c == '.' {
            if let Some(k) = dot {
                assert(!(m@[k as int] == '.' && m@[i as int] == '.') ==> false);
                return false;
            }
            dot = Some(i);
        } else {
            return false;
        }
        i = i + 1;
    }
    digit
}

fn check_exponent(e: &[char]) -> (r: bool)
    ensures
        r == is_exponent(e@),
{
    if e.len() < 2 || !(e[0] == 'e' || e[0] == 'E') {
        return false;
    }
    let r = vstd::slice::slice_subrange(e, 1, e.len());
    assert(r@ == e@.drop_first());
    let d = if r[0] == '+' || r[0] == '-' {
        vstd::slice::slice_subrange(r, 1, r.len())
    } else {
        r
    };
    assert(d@ == exponent_digits(e@));
    d.len() >= 1 && all_digits(d)
}

/// Whether `str::parse::<f64>` accepts the text; see [`is_float_literal`].
pub fn is_float_text(s: &[char]) -> (r: bool)
    ensures
        r == is_float_literal(s@),
{
    let u = if s.len() > 0 && (s[0] == '+' || s[0] == '-') {
        vstd::slice::slice_subrange(s, 1, s.len())
    } else {
        s
    };
    assert(u@ == unsigned_part(s@));
    let inf = ['i', 'n', 'f'];
    let infinity = ['i', 'n', 'f', 'i', 'n', 'i', 't', 'y'];
    let nan = ['n', 'a', 'n'];
    assert(inf@ == seq!['i', 'n', 'f']);
    assert(infinity@ == seq!['i', 'n', 'f', 'i', 'n', 'i', 't', 'y']);
    assert(nan@ == seq!['n', 'a', 'n']);
    if matches_ignore_case(u, &inf) || matches_ignore_case(u, &infinity) || matches_ignore_case(
        u,
        &nan,
    ) {
        return true;
    }
    let mut k: usize = 0;
    while k < u.len() && !(u[k] == 'e' || u[k] == 'E')
        invariant
            k <= u@.len(),
            forall|j: int| 0 <= j < k ==> !(u@[j] == 'e' || u@[j] == 'E'),
        decreases u@.len() - k,
    {
        k = k + 1;
    }
    proof {
        let p = |i: int| u@[i] == 'e' || u@[i] == 'E';
        lemma_first_index(u@.len() as int, p);
        match first_index(u@.len() as int, p) {
            Some(f) => {
                if f < k {
                    assert(!p(f));
                } else if f > k {
                    assert(!p(k as int));
                }
            },
            None => {
                if k < u@.len() {
                    assert(!p(k as int));
                }
            },
        }
        assert(exponent_start(u@) == k);
    }
    let m = vstd::slice::slice_subrange(u, 0, k);
    if !check_decimal(m) {
        return false;
    }
    if k == u.len() {
        return true;
    }
    check_exponent(vstd::slice::slice_subrange(u, k, u.len()))
}

} // verus!
