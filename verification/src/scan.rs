//! Scanning a line of source while tracking string literals and parenthesis depth,
//! and the searches and splits built on that scan.
use vstd::prelude::*;
use vstd::slice::slice_subrange;

use crate::text::{is_ws, trim, trim_chars, lemma_trim, char_is_whitespace};

verus! {

/// Whether the characters before position `i` leave a string literal open
/// (an odd number of `"` among them).
pub open spec fn in_string_before(s: Seq<char>, i: int) -> bool
    decreases i,
{
    if i <= 0 {
        false
    } else if s[i - 1] == '"' {
        !in_string_before(s, i - 1)
    } else {
        in_string_before(s, i - 1)
    }
}

/// Parenthesis depth before position `i`: `(` minus `)` among the characters before it,
/// counting only those outside string literals.
pub open spec fn depth_before(s: Seq<char>, i: int) -> int
    decreases i,
{
    if i <= 0 {
        0
    } else {
        let d = depth_before(s, i - 1);
        let c = s[i - 1];
        if c == '"' || in_string_before(s, i - 1) {
            d
        } else if c == '(' {
            d + 1
        } else if c == ')' {
            d - 1
        } else {
            d
        }
    }
}

/// Position `i` holds a character that is not a quote, outside any string literal,
/// at parenthesis depth zero.
pub open spec fn is_top_level(s: Seq<char>, i: int) -> bool {
    s[i] != '"' && !in_string_before(s, i) && depth_before(s, i) == 0
}

/// The least index below `n` at which `p` holds, if there is one.
#[verifier::opaque]
pub open spec fn first_index(n: int, p: spec_fn(int) -> bool) -> Option<int> {
    if exists|i: int| 0 <= i < n && #[trigger] p(i) {
        Some(choose|i: int| 0 <= i < n && #[trigger] p(i) && forall|j: int| 0 <= j < i ==> !#[trigger] p(j))
    } else {
        None
    }
}

/// The greatest index below `n` at which `p` holds, if there is one.
#[verifier::opaque]
pub open spec fn last_index(n: int, p: spec_fn(int) -> bool) -> Option<int> {
    if exists|i: int| 0 <= i < n && #[trigger] p(i) {
        Some(choose|i: int| 0 <= i < n && #[trigger] p(i) && forall|j: int| i < j < n ==> !#[trigger] p(j))
    } else {
        None
    }
}

proof fn lemma_least_exists(n: int, p: spec_fn(int) -> bool, k: int)
    requires
        0 <= k < n,
        p(k),
    ensures
        exists|i: int| 0 <= i < n && #[trigger] p(i) && forall|j: int| 0 <= j < i ==> !#[trigger] p(j),
    decreases k,
{
    if exists|j: int| 0 <= j < k && #[trigger] p(j) {
        let j = choose|j: int| 0 <= j < k && #[trigger] p(j);
        lemma_least_exists(n, p, j);
    } else {
        assert(forall|j: int| 0 <= j < k ==> !#[trigger] p(j));
    }
}

proof fn lemma_greatest_exists(n: int, p: spec_fn(int) -> bool, k: int)
    requires
        0 <= k < n,
        p(k),
    ensures
        exists|i: int| 0 <= i < n && #[trigger] p(i) && forall|j: int| i < j < n ==> !#[trigger] p(j),
    decreases n - k,
{
    if exists|j: int| k < j < n && #[trigger] p(j) {
        let j = choose|j: int| k < j < n && #[trigger] p(j);
        lemma_greatest_exists(n, p, j);
    } else {
        assert(forall|j: int| k < j < n ==> !#[trigger] p(j));
    }
}

/// `first_index` is the least index at which `p` holds, or `None` when there is none.
pub proof fn lemma_first_index(n: int, p: spec_fn(int) -> bool)
    ensures
        match first_index(n, p) {
            Some(i) => 0 <= i < n && p(i) && forall|j: int| 0 <= j < i ==> !#[trigger] p(j),
            None => forall|i: int| 0 <= i < n ==> !#[trigger] p(i),
        },
{
    reveal(first_index);
    if exists|i: int| 0 <= i < n && #[trigger] p(i) {
        let k = choose|i: int| 0 <= i < n && #[trigger] p(i);
        lemma_least_exists(n, p, k);
    }
}

/// `last_index` is the greatest index at which `p` holds, or `None` when there is none.
pub proof fn lemma_last_index(n: int, p: spec_fn(int) -> bool)
    ensures
        match last_index(n, p) {
            Some(i) => 0 <= i < n && p(i) && forall|j: int| i < j < n ==> !#[trigger] p(j),
            None => forall|i: int| 0 <= i < n ==> !#[trigger] p(i),
        },
{
    reveal(last_index);
    if exists|i: int| 0 <= i < n && #[trigger] p(i) {
        let k = choose|i: int| 0 <= i < n && #[trigger] p(i);
        lemma_greatest_exists(n, p, k);
    }
}

pub proof fn lemma_first_index_is(n: int, p: spec_fn(int) -> bool, i: int)
    requires
        0 <= i < n,
        p(i),
        forall|j: int| 0 <= j < i ==> !#[trigger] p(j),
    ensures
        first_index(n, p) == Some(i),
{
    lemma_first_index(n, p);
    let k = first_index(n, p)->0;
    if k < i {
        assert(!p(k));
    } else if k > i {
        assert(!p(i));
    }
}

pub proof fn lemma_last_index_is(n: int, p: spec_fn(int) -> bool, i: int)
    requires
        0 <= i < n,
        p(i),
        forall|j: int| i < j < n ==> !#[trigger] p(j),
    ensures
        last_index(n, p) == Some(i),
{
    lemma_last_index(n, p);
    let k = last_index(n, p)->0;
    if k < i {
        assert(!p(i));
    } else if k > i {
        assert(!p(k));
    }
}

/// A whitespace character at top level.
pub open spec fn is_top_level_space(s: Seq<char>, i: int) -> bool {
    is_top_level(s, i) && is_ws(s[i])
}

/// A `(` outside string literals (at any depth).
pub open spec fn is_call_open(s: Seq<char>, i: int) -> bool {
    s[i] == '(' && !in_string_before(s, i)
}

/// A `.` at top level.
pub open spec fn is_top_level_dot(s: Seq<char>, i: int) -> bool {
    s[i] == '.' && is_top_level(s, i)
}

/// A `,` at top level.
pub open spec fn is_top_level_comma(s: Seq<char>, i: int) -> bool {
    s[i] == ',' && is_top_level(s, i)
}

/// The first top-level whitespace character.
pub open spec fn top_level_space(s: Seq<char>) -> Option<int> {
    first_index(s.len() as int, |i: int| is_top_level_space(s, i))
}

/// The first `(` outside string literals.
pub open spec fn call_open(s: Seq<char>) -> Option<int> {
    first_index(s.len() as int, |i: int| is_call_open(s, i))
}

/// The last top-level `.`.
pub open spec fn top_level_dot(s: Seq<char>) -> Option<int> {
    last_index(s.len() as int, |i: int| is_top_level_dot(s, i))
}

/// An index as an integer.
pub open spec fn opt_int(r: Option<usize>) -> Option<int> {
    match r {
        Some(i) => Some(i as int),
        None => None,
    }
}

pub proof fn lemma_top_level_space(s: Seq<char>)
    ensures
        match top_level_space(s) {
            Some(i) => 0 <= i < s.len() && is_top_level_space(s, i) && forall|j: int|
                0 <= j < i ==> !#[trigger] is_top_level_space(s, j),
            None => forall|i: int| 0 <= i < s.len() ==> !#[trigger] is_top_level_space(s, i),
        },
{
    let p = |i: int| is_top_level_space(s, i);
    lemma_first_index(s.len() as int, p);
    match first_index(s.len() as int, p) {
        Some(i) => {
            assert forall|j: int| 0 <= j < i implies !#[trigger] is_top_level_space(s, j) by {
                assert(!p(j));
            }
        },
        None => {
            assert forall|i: int| 0 <= i < s.len() implies !#[trigger] is_top_level_space(s, i) by {
                assert(!p(i));
            }
        },
    }
}

pub proof fn lemma_call_open(s: Seq<char>)
    ensures
        match call_open(s) {
            Some(i) => 0 <= i < s.len() && is_call_open(s, i) && forall|j: int|
                0 <= j < i ==> !#[trigger] is_call_open(s, j),
            None => forall|i: int| 0 <= i < s.len() ==> !#[trigger] is_call_open(s, i),
        },
{
    let p = |i: int| is_call_open(s, i);
    lemma_first_index(s.len() as int, p);
    match first_index(s.len() as int, p) {
        Some(i) => {
            assert forall|j: int| 0 <= j < i implies !#[trigger] is_call_open(s, j) by {
                assert(!p(j));
            }
        },
        None => {
            assert forall|i: int| 0 <= i < s.len() implies !#[trigger] is_call_open(s, i) by {
                assert(!p(i));
            }
        },
    }
}

pub proof fn lemma_top_level_dot(s: Seq<char>)
    ensures
        match top_level_dot(s) {
            Some(i) => 0 <= i < s.len() && is_top_level_dot(s, i) && forall|j: int|
                i < j < s.len() ==> !#[trigger] is_top_level_dot(s, j),
            None => forall|i: int| 0 <= i < s.len() ==> !#[trigger] is_top_level_dot(s, i),
        },
{
    let p = |i: int| is_top_level_dot(s, i);
    lemma_last_index(s.len() as int, p);
    match last_index(s.len() as int, p) {
        Some(i) => {
            assert forall|j: int| i < j < s.len() implies !#[trigger] is_top_level_dot(s, j) by {
                assert(!p(j));
            }
        },
        None => {
            assert forall|i: int| 0 <= i < s.len() implies !#[trigger] is_top_level_dot(s, i) by {
                assert(!p(i));
            }
        },
    }
}

/// Finds the first whitespace character that stands outside string literals and
/// outside parentheses.
pub fn find_top_level_space(contents: &[char]) -> (r: Option<usize>)
    ensures
        opt_int(r) == top_level_space(contents@),
{
    let ghost s = contents@;
    let n = contents.len();
    let mut string = false;
    let mut depth: i128 = 0;
    let mut i: usize = 0;
    while i < n
        invariant
            n == s.len(),
            s == contents@,
            i <= n,
            string == in_string_before(s, i as int),
            depth == depth_before(s, i as int),
            -(i as int) <= depth <= i,
            forall|j: int| 0 <= j < i ==> !#[trigger] is_top_level_space(s, j),
        decreases n - i,
    {
        let c = contents[i];
        if c == '"' {
            string = !string;
        } else if !string {
            if c == '(' {
                depth = depth + 1;
            } else if c == ')' {
                depth = depth - 1;
            } else if char_is_whitespace(c) && depth == 0 {
                proof {
                    lemma_first_index_is(n as int, |k: int| is_top_level_space(s, k), i as int);
                }
                return Some(i);
            }
        }
        i = i + 1;
    }
    proof {
        lemma_first_index(n as int, |k: int| is_top_level_space(s, k));
    }
    None
}

/// Finds the first `(` that stands outside string literals.
pub fn find_call_open(contents: &[char]) -> (r: Option<usize>)
    ensures
        opt_int(r) == call_open(contents@),
{
    let ghost s = contents@;
    let n = contents.len();
    let mut string = false;
    let mut i: usize = 0;
    while i < n
        invariant
            n == s.len(),
            s == contents@,
            i <= n,
            string == in_string_before(s, i as int),
            forall|j: int| 0 <= j < i ==> !#[trigger] is_call_open(s, j),
        decreases n - i,
    {
        let c = contents[i];
        if c == '"' {
            string = !string;
        } else if !string && c == '(' {
            proof {
                lemma_first_index_is(n as int, |k: int| is_call_open(s, k), i as int);
            }
            return Some(i);
        }
        i = i + 1;
    }
    proof {
        lemma_first_index(n as int, |k: int| is_call_open(s, k));
    }
    None
}

/// Finds the last `.` that stands outside string literals and outside parentheses.
pub fn find_top_level_dot(contents: &[char]) -> (r: Option<usize>)
    ensures
        opt_int(r) == top_level_dot(contents@),
{
    let ghost s = contents@;
    let n = contents.len();
    let mut string = false;
    let mut depth: i128 = 0;
    let mut found: Option<usize> = None;
    let mut i: usize = 0;
    while i < n
        invariant
            n == s.len(),
            s == contents@,
            i <= n,
            string == in_string_before(s, i as int),
            depth == depth_before(s, i as int),
            -(i as int) <= depth <= i,
            match found {
                Some(k) => k < i && is_top_level_dot(s, k as int) && forall|j: int|
                    k < j < i ==> !#[trigger] is_top_level_dot(s, j),
                None => forall|j: int| 0 <= j < i ==> !#[trigger] is_top_level_dot(s, j),
            },
        decreases n - i,
    {
        let c = contents[i];
        if c == '"' {
            string = !string;
        } else if !string {
            if c == '(' {
                depth = depth + 1;
            } else if c == ')' {
                depth = depth - 1;
            } else if c == '.' && depth == 0 {
                found = Some(i);
            }
        }
        i = i + 1;
    }
    proof {
        match found {
            Some(k) => {
                lemma_last_index_is(n as int, |j: int| is_top_level_dot(s, j), k as int);
            },
            None => {
                lemma_last_index(n as int, |j: int| is_top_level_dot(s, j));
            },
        }
    }
    found
}

/// The pieces of `s` between the positions at which `sep` holds, scanning the first `n`
/// characters: the pieces completed so far and where the current piece starts.
pub open spec fn split_scan(s: Seq<char>, sep: spec_fn(int) -> bool, n: int) -> (Seq<Seq<char>>, int)
    decreases n,
{
    if n <= 0 {
        (Seq::empty(), 0)
    } else {
        let (out, start) = split_scan(s, sep, n - 1);
        if sep(n - 1) {
            (out.push(s.subrange(start, n - 1)), n)
        } else {
            (out, start)
        }
    }
}

/// `s` cut at every position at which `sep` holds (the separators themselves dropped).
pub open spec fn split_where(s: Seq<char>, sep: spec_fn(int) -> bool) -> Seq<Seq<char>> {
    let (out, start) = split_scan(s, sep, s.len() as int);
    out.push(s.subrange(start, s.len() as int))
}

pub proof fn lemma_split_scan(s: Seq<char>, sep: spec_fn(int) -> bool, n: int)
    requires
        0 <= n <= s.len(),
    ensures
        0 <= split_scan(s, sep, n).1 <= n,
        forall|k: int|
            0 <= k < split_scan(s, sep, n).0.len() ==> (#[trigger] split_scan(s, sep, n).0[k]).len()
                <= s.len(),
    decreases n,
{
    if n > 0 {
        lemma_split_scan(s, sep, n - 1);
    }
}

/// Every piece of a split is no longer than what was split, and there is one piece more
/// than there are separators.
pub proof fn lemma_split_where(s: Seq<char>, sep: spec_fn(int) -> bool)
    ensures
        split_where(s, sep).len() >= 1,
        forall|k: int|
            0 <= k < split_where(s, sep).len() ==> (#[trigger] split_where(s, sep)[k]).len()
                <= s.len(),
{
    lemma_split_scan(s, sep, s.len() as int);
}

/// The comma-separated arguments of `s`: cut at top-level commas, each piece trimmed.
pub open spec fn spec_split_arguments(s: Seq<char>) -> Seq<Seq<char>> {
    split_where(s, |i: int| is_top_level_comma(s, i)).map_values(|p: Seq<char>| trim(p))
}

pub proof fn lemma_split_arguments(s: Seq<char>)
    ensures
        spec_split_arguments(s).len() >= 1,
        forall|k: int|
            0 <= k < spec_split_arguments(s).len() ==> (#[trigger] spec_split_arguments(s)[k]).len()
                <= s.len(),
{
    let raw = split_where(s, |i: int| is_top_level_comma(s, i));
    lemma_split_where(s, |i: int| is_top_level_comma(s, i));
    assert forall|k: int| 0 <= k < spec_split_arguments(s).len() implies (
    #[trigger] spec_split_arguments(s)[k]).len() <= s.len() by {
        lemma_trim(raw[k]);
    }
}

/// Mapping over a sequence with one more element at the end.
pub proof fn lemma_map_push<A, B>(s: Seq<A>, x: A, f: spec_fn(A) -> B)
    ensures
        s.push(x).map_values(f) == s.map_values(f).push(f(x)),
{
    assert(s.push(x).map_values(f) =~= s.map_values(f).push(f(x)));
}

/// Splits at the commas that stand outside string literals and parentheses, and trims
/// each piece.
pub fn split_arguments(contents: &[char]) -> (r: Vec<&[char]>)
    ensures
        r@.map_values(|p: &[char]| p@) == spec_split_arguments(contents@),
{
    let ghost s = contents@;
    let ghost sep = |i: int| is_top_level_comma(s, i);
    let n = contents.len();
    let mut out: Vec<&[char]> = Vec::new();
    let mut string = false;
    let mut depth: i128 = 0;
    let mut start: usize = 0;
    let mut i: usize = 0;
    while i < n
        invariant
            n == s.len(),
            s == contents@,
            i <= n,
            string == in_string_before(s, i as int),
            depth == depth_before(s, i as int),
            -(i as int) <= depth <= i,
            sep == (|k: int| is_top_level_comma(s, k)),
            start as int == split_scan(s, sep, i as int).1,
            out@.map_values(|p: &[char]| p@) == split_scan(s, sep, i as int).0.map_values(
                |p: Seq<char>| trim(p),
            ),
        decreases n - i,
    {
        proof {
            lemma_split_scan(s, sep, i as int);
        }
        let c = contents[i];
        assert(sep(i as int) == (c == ',' && !string && depth == 0));
        let ghost old_out = out@;
        if c == '"' {
            string = !string;
        } else if !string {
            if c == '(' {
                depth = depth + 1;
            } else if c == ')' {
                depth = depth - 1;
            } else if c == ',' && depth == 0 {
                let piece = trim_chars(slice_subrange(contents, start, i));
                proof {
                    let prev = split_scan(s, sep, i as int);
                    assert(split_scan(s, sep, i + 1).0 == prev.0.push(
                        s.subrange(start as int, i as int),
                    ));
                    lemma_map_push(out@, piece, |p: &[char]| p@);
                    lemma_map_push(
                        prev.0,
                        s.subrange(start as int, i as int),
                        |p: Seq<char>| trim(p),
                    );
                }
                out.push(piece);
                start = i + 1;
            }
        }
        i = i + 1;
    }
    proof {
        lemma_split_scan(s, sep, n as int);
    }
    let piece = trim_chars(slice_subrange(contents, start, n));
    proof {
        lemma_map_push(out@, piece, |p: &[char]| p@);
        lemma_map_push(
            split_scan(s, sep, n as int).0,
            s.subrange(start as int, n as int),
            |p: Seq<char>| trim(p),
        );
    }
    out.push(piece);
    out
}

} // verus!

verus! {

/// The number of positions below `n` at which `sep` holds.
pub open spec fn count_where(sep: spec_fn(int) -> bool, n: int) -> nat
    decreases n,
{
    if n <= 0 {
        0
    } else {
        count_where(sep, n - 1) + if sep(n - 1) {
            1nat
        } else {
            0nat
        }
    }
}

pub proof fn lemma_split_scan_count(s: Seq<char>, sep: spec_fn(int) -> bool, n: int)
    ensures
        split_scan(s, sep, n).0.len() == count_where(sep, n),
    decreases n,
{
    if n > 0 {
        lemma_split_scan_count(s, sep, n - 1);
    }
}

/// The pieces, each followed by `c`, run together.
pub open spec fn join_terminated(ps: Seq<Seq<char>>, c: char) -> Seq<char>
    decreases ps.len(),
{
    if ps.len() == 0 {
        Seq::empty()
    } else {
        join_terminated(ps.drop_last(), c) + ps.last() + seq![c]
    }
}

/// The position just after the last position below `n` at which `sep` holds, or 0.
pub open spec fn after_last(sep: spec_fn(int) -> bool, n: int) -> int {
    match last_index(n, sep) {
        Some(k) => k + 1,
        None => 0,
    }
}

/// When every separator is the character `c`, the completed pieces of a split, each
/// followed by `c`, give back the text up to and including its last separator.
pub proof fn lemma_split_scan_join(s: Seq<char>, sep: spec_fn(int) -> bool, n: int, c: char)
    requires
        0 <= n <= s.len(),
        forall|i: int| 0 <= i < s.len() && #[trigger] sep(i) ==> s[i] == c,
    ensures
        split_scan(s, sep, n).1 == after_last(sep, n),
        join_terminated(split_scan(s, sep, n).0, c) == s.subrange(0, split_scan(s, sep, n).1),
    decreases n,
{
    lemma_last_index(n, sep);
    if n == 0 {
        assert(s.subrange(0, 0) =~= Seq::<char>::empty());
    } else {
        lemma_split_scan_join(s, sep, n - 1, c);
        lemma_split_scan(s, sep, n - 1);
        lemma_last_index(n - 1, sep);
        let (out, start) = split_scan(s, sep, n - 1);
        if sep(n - 1) {
            lemma_last_index_is(n, sep, n - 1);
            let piece = s.subrange(start, n - 1);
            assert(out.push(piece).drop_last() =~= out);
            assert(s.subrange(0, start) + piece + seq![c] =~= s.subrange(0, n));
        } else {
            match last_index(n - 1, sep) {
                Some(k) => {
                    lemma_last_index_is(n, sep, k);
                },
                None => {},
            }
        }
    }
}

/// Splitting arguments gives one piece more than there are top-level commas.
pub proof fn law_split_arguments_count(s: Seq<char>)
    ensures
        spec_split_arguments(s).len() == count_where(|i: int| is_top_level_comma(s, i), s.len() as int) + 1,
{
    lemma_split_scan_count(s, |i: int| is_top_level_comma(s, i), s.len() as int);
}

} // verus!

verus! {

/// `s` cut at its line breaks (`str::split("\n")`).
pub open spec fn spec_split_lines(s: Seq<char>) -> Seq<Seq<char>> {
    split_where(s, |i: int| s[i] == '\n')
}

/// Cuts the text at its line breaks.
pub fn split_lines(contents: &[char]) -> (r: Vec<&[char]>)
    ensures
        r@.map_values(|p: &[char]| p@) == spec_split_lines(contents@),
{
    let ghost s = contents@;
    let ghost sep = |i: int| s[i] == '\n';
    let n = contents.len();
    let mut out: Vec<&[char]> = Vec::new();
    let mut start: usize = 0;
    let mut i: usize = 0;
    while i < n
        invariant
            n == s.len(),
            s == contents@,
            i <= n,
            sep == (|k: int| s[k] == '\n'),
            start as int == split_scan(s, sep, i as int).1,
            out@.map_values(|p: &[char]| p@) == split_scan(s, sep, i as int).0,
        decreases n - i,
    {
        proof {
            lemma_split_scan(s, sep, i as int);
        }
        if contents[i] == '\n' {
            let piece = slice_subrange(contents, start, i);
            proof {
                lemma_map_push(out@, piece, |p: &[char]| p@);
            }
            out.push(piece);
            start = i + 1;
        }
        i = i + 1;
    }
    proof {
        lemma_split_scan(s, sep, n as int);
    }
    let piece = slice_subrange(contents, start, n);
    proof {
        lemma_map_push(out@, piece, |p: &[char]| p@);
    }
    out.push(piece);
    out
}

/// The lines of a text as `str::lines` gives them: cut at line breaks, without an empty
/// last line after a final line break, and with the `\r` of a `\r\n` line ending removed.
pub open spec fn spec_lines(s: Seq<char>) -> Seq<Seq<char>> {
    let raw = spec_split_lines(s);
    let n = if raw.last().len() == 0 {
        raw.len() - 1
    } else {
        raw.len() as int
    };
    Seq::new(
        n as nat,
        |k: int|
            if k < raw.len() - 1 && raw[k].len() > 0 && raw[k].last() == '\r' {
                raw[k].drop_last()
            } else {
                raw[k]
            },
    )
}

/// The lines of a text; see [`spec_lines`].
pub fn lines_of(contents: &[char]) -> (r: Vec<&[char]>)
    ensures
        r@.map_values(|p: &[char]| p@) == spec_lines(contents@),
{
    let raw = split_lines(contents);
    let ghost rv = raw@.map_values(|p: &[char]| p@);
    proof {
        lemma_split_where(contents@, |i: int| contents@[i] == '\n');
    }
    let n = if raw[raw.len() - 1].len() == 0 {
        raw.len() - 1
    } else {
        raw.len()
    };
    let mut out: Vec<&[char]> = Vec::new();
    let mut k: usize = 0;
    while k < n
        invariant
            n <= raw@.len(),
            rv == raw@.map_values(|p: &[char]| p@),
            rv == spec_split_lines(contents@),
            n == (if rv.last().len() == 0 { rv.len() - 1 } else { rv.len() as int }),
            k <= n,
            out@.len() == k,
            forall|j: int| 0 <= j < k ==> (#[trigger] out@[j])@ == spec_lines(contents@)[j],
        decreases n - k,
    {
        let piece = raw[k];
        assert(piece@ == rv[k as int]);
        let len = piece.len();
        if k + 1 < raw.len() && len > 0 && piece[len - 1] == '\r' {
            out.push(vstd::slice::slice_subrange(piece, 0, len - 1));
        } else {
            out.push(piece);
        }
        k = k + 1;
    }
    assert(out@.map_values(|p: &[char]| p@) =~= spec_lines(contents@));
    out
}

} // verus!
