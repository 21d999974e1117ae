//! The "psycho" parser: turns the source of a program into blocks of keyword calls.
//!
//! A source file is first normalised by [`prep`] (statements on their own lines, tags on
//! their own lines, runs of whitespace collapsed), then cut into lines; the lines between
//! an opening tag `<name>` and the matching closing tag `</name>` form a block, and each
//! non-blank line of a block is parsed as a call: `foo bar, baz`, `foo(bar)` or `bar.foo()`.
use vstd::prelude::*;
use vstd::slice::slice_subrange;

use crate::text::{
    is_ws, trim, trim_chars, lemma_trim, string_of, chars_of, char_is_whitespace, is_alphanumeric,
    char_alphanumeric, push_char, lemma_trim_empty_iff_blank, is_blank,
};
use crate::scan::{
    top_level_space, call_open, top_level_dot, opt_int, lemma_top_level_space, lemma_call_open,
    lemma_top_level_dot, find_top_level_space, find_call_open, find_top_level_dot,
    split_arguments, spec_split_arguments, lemma_split_arguments, split_where, split_scan,
    lemma_split_scan, lemma_map_push, split_lines, spec_split_lines,
};

verus! {

/// A block of the program: its tag name and the calls written inside it.
#[derive(Debug)]
pub struct PsychoBlock {
    pub block_type: String,
    pub contents: Vec<PsychoCall>,
}

/// A call of a keyword with its argument expressions.
#[derive(Debug)]
pub struct PsychoCall {
    pub keyword: String,
    pub expressions: Vec<PsychoExpression>,
}

/// An argument: either plain text or a nested call.
#[derive(Debug)]
pub enum PsychoExpression {
    Expression(String),
    Call(PsychoCall),
}

/// The mathematical value of a [`PsychoExpression`].
pub enum SpecExpr {
    Expression(Seq<char>),
    Call(SpecCall),
}

/// The mathematical value of a [`PsychoCall`].
pub struct SpecCall {
    pub keyword: Seq<char>,
    pub expressions: Seq<SpecExpr>,
}

/// The mathematical value of a [`PsychoBlock`].
pub struct SpecBlock {
    pub block_type: Seq<char>,
    pub contents: Seq<SpecCall>,
}

pub open spec fn view_expr(e: PsychoExpression) -> SpecExpr
    decreases e,
{
    match e {
        PsychoExpression::Expression(s) => SpecExpr::Expression(s@),
        PsychoExpression::Call(c) => SpecExpr::Call(view_call(c)),
    }
}

pub open spec fn view_call(c: PsychoCall) -> SpecCall
    decreases c,
{
    SpecCall {
        keyword: c.keyword@,
        expressions: Seq::new(
            c.expressions@.len(),
            |i: int|
                if 0 <= i < c.expressions@.len() {
                    view_expr(c.expressions@[i])
                } else {
                    SpecExpr::Expression(Seq::empty())
                },
        ),
    }
}

pub open spec fn view_exprs(v: Seq<PsychoExpression>) -> Seq<SpecExpr> {
    v.map_values(|e: PsychoExpression| view_expr(e))
}

pub open spec fn view_calls(v: Seq<PsychoCall>) -> Seq<SpecCall> {
    v.map_values(|c: PsychoCall| view_call(c))
}

pub open spec fn view_block(b: PsychoBlock) -> SpecBlock {
    SpecBlock { block_type: b.block_type@, contents: view_calls(b.contents@) }
}

pub open spec fn view_blocks(v: Seq<PsychoBlock>) -> Seq<SpecBlock> {
    v.map_values(|b: PsychoBlock| view_block(b))
}

pub open spec fn view_opt_call(r: Option<PsychoCall>) -> Option<SpecCall> {
    match r {
        Some(c) => Some(view_call(c)),
        None => None,
    }
}

proof fn lemma_view_call_exprs(c: PsychoCall)
    ensures
        view_call(c).expressions == view_exprs(c.expressions@),
{
    assert(view_call(c).expressions =~= view_exprs(c.expressions@));
}

/// Parses a call in one of the forms `bar.foo(..)` (the receiver `bar` becomes the first
/// argument of the call after the last top-level dot), `foo bar, baz` (a keyword, then
/// comma-separated arguments after the first top-level whitespace) or `foo(bar, baz)`.
pub open spec fn spec_parse_call(s: Seq<char>) -> Option<SpecCall>
    decreases s.len(), 0int,
{
    let t = trim(s);
    proof {
        lemma_trim(s);
    }
    let via_dot = match top_level_dot(t) {
        Some(i) => {
            proof {
                lemma_top_level_dot(t);
            }
            match spec_parse_call(t.subrange(i + 1, t.len() as int)) {
                Some(call) => Some(
                    SpecCall {
                        keyword: call.keyword,
                        expressions: seq![spec_parse_expression(t.subrange(0, i))].add(
                            call.expressions,
                        ),
                    },
                ),
                None => None,
            }
        },
        None => None,
    };
    if via_dot is Some {
        via_dot
    } else {
        match top_level_space(t) {
            Some(i) => {
                proof {
                    lemma_top_level_space(t);
                    lemma_trim(t.subrange(i, t.len() as int));
                }
                Some(
                    SpecCall {
                        keyword: trim(t.subrange(0, i)),
                        expressions: spec_parse_arguments(trim(t.subrange(i, t.len() as int))),
                    },
                )
            },
            None => match call_open(t) {
                Some(i) => {
                    proof {
                        lemma_call_open(t);
                    }
                    if t.len() > 0 && t.last() == ')' {
                        Some(
                            SpecCall {
                                keyword: trim(t.subrange(0, i)),
                                expressions: spec_parse_arguments(t.subrange(i + 1, t.len() - 1)),
                            },
                        )
                    } else {
                        None
                    }
                },
                None => None,
            },
        }
    }
}

/// Parses an argument: a call if the trimmed text has call structure and parses as a
/// call, the trimmed text itself otherwise.
pub open spec fn spec_parse_expression(s: Seq<char>) -> SpecExpr
    decreases s.len(), 1int,
{
    let t = trim(s);
    proof {
        lemma_trim(s);
    }
    if (top_level_dot(t) is Some || call_open(t) is Some || top_level_space(t) is Some)
        && spec_parse_call(t) is Some {
        SpecExpr::Call(spec_parse_call(t)->0)
    } else {
        SpecExpr::Expression(t)
    }
}

/// Parses a comma-separated argument list: nothing for blank text, otherwise one
/// expression per top-level comma-separated piece.
pub open spec fn spec_parse_arguments(s: Seq<char>) -> Seq<SpecExpr>
    decreases s.len(), 2int,
{
    let t = trim(s);
    proof {
        lemma_trim(s);
    }
    if t.len() == 0 {
        Seq::empty()
    } else {
        let pieces = spec_split_arguments(t);
        proof {
            lemma_split_arguments(t);
        }
        Seq::new(
            pieces.len(),
            |k: int|
                if 0 <= k < pieces.len() {
                    spec_parse_expression(pieces[k])
                } else {
                    SpecExpr::Expression(Seq::empty())
                },
        )
    }
}

/// Parses a call; see [`spec_parse_call`] for the three accepted forms.
pub fn parse_call(contents: &[char]) -> (r: Option<PsychoCall>)
    ensures
        view_opt_call(r) == spec_parse_call(contents@),
    decreases contents@.len(), 0int,
{
    let t = trim_chars(contents);
    proof {
        lemma_trim(contents@);
        lemma_top_level_dot(t@);
        lemma_top_level_space(t@);
        lemma_call_open(t@);
    }
    if let Some(i) = find_top_level_dot(t) {
        assert(top_level_dot(t@) == Some(i as int));
        let tn = t.len();
        assert(i < tn) by {
            lemma_top_level_dot(t@);
        }
        let left = slice_subrange(t, 0, i);
        let right = slice_subrange(t, i + 1, t.len());
        if let Some(mut call) = parse_call(right) {
            let e = parse_expression(left);
            proof {
                lemma_view_call_exprs(call);
            }
            let ghost before = call.expressions@;
            call.expressions.insert(0, e);
            proof {
                lemma_view_call_exprs(call);
                assert(view_exprs(call.expressions@) =~= seq![view_expr(e)].add(
                    view_exprs(before),
                ));
            }
            return Some(call);
        }
    }
    if let Some(i) = find_top_level_space(t) {
        let keyword = trim_chars(slice_subrange(t, 0, i));
        let rest = trim_chars(slice_subrange(t, i, t.len()));
        proof {
            lemma_trim(t@.subrange(i as int, t@.len() as int));
        }
        let expressions = parse_arguments(rest);
        let call = PsychoCall { keyword: string_of(keyword), expressions };
        proof {
            lemma_view_call_exprs(call);
        }
        return Some(call);
    }
    if let Some(i) = find_call_open(t) {
        if t.len() > 0 && t[t.len() - 1] == ')' {
            let keyword = trim_chars(slice_subrange(t, 0, i));
            let inner = slice_subrange(t, i + 1, t.len() - 1);
            let expressions = parse_arguments(inner);
            let call = PsychoCall { keyword: string_of(keyword), expressions };
            proof {
                lemma_view_call_exprs(call);
            }
            return Some(call);
        }
    }
    None
}

/// Parses an argument expression; see [`spec_parse_expression`].
pub fn parse_expression(contents: &[char]) -> (r: PsychoExpression)
    ensures
        view_expr(r) == spec_parse_expression(contents@),
    decreases contents@.len(), 1int,
{
    let t = trim_chars(contents);
    proof {
        lemma_trim(contents@);
        assert(trim(t@) == t@);
    }
    if find_top_level_dot(t).is_some() || find_call_open(t).is_some() || find_top_level_space(
        t,
    ).is_some() {
        if let Some(call) = parse_call(t) {
            return PsychoExpression::Call(call);
        }
    }
    PsychoExpression::Expression(string_of(t))
}

/// Parses a comma-separated argument list; see [`spec_parse_arguments`].
pub fn parse_arguments(contents: &[char]) -> (r: Vec<PsychoExpression>)
    ensures
        view_exprs(r@) == spec_parse_arguments(contents@),
    decreases contents@.len(), 2int,
{
    let t = trim_chars(contents);
    proof {
        lemma_trim(contents@);
    }
    if t.len() == 0 {
        let r: Vec<PsychoExpression> = Vec::new();
        assert(view_exprs(r@) =~= Seq::<SpecExpr>::empty());
        return r;
    }
    let parts = split_arguments(t);
    let ghost pieces = spec_split_arguments(t@);
    proof {
        lemma_split_arguments(t@);
        assert(pieces.len() == parts@.len());
    }
    let mut out: Vec<PsychoExpression> = Vec::new();
    let mut k: usize = 0;
    while k < parts.len()
        invariant
            k <= parts@.len() == pieces.len(),
            pieces == spec_split_arguments(t@),
            parts@.map_values(|p: &[char]| p@) == pieces,
            t@.len() <= contents@.len(),
            forall|j: int| 0 <= j < pieces.len() ==> (#[trigger] pieces[j]).len() <= t@.len(),
            out@.len() == k,
            forall|j: int|
                0 <= j < k ==> view_expr(#[trigger] out@[j]) == spec_parse_expression(pieces[j]),
        decreases parts@.len() - k,
    {
        let piece = parts[k];
        assert(piece@ == pieces[k as int]);
        let e = parse_expression(piece);
        out.push(e);
        k = k + 1;
    }
    assert(view_exprs(out@) =~= spec_parse_arguments(contents@));
    out
}

} // verus!

verus! {

/// The state of [`prep`] after some prefix of the source: the text produced so far,
/// whether a string literal is open, and whether whitespace has been skipped since the
/// last character produced outside a string.
pub struct PrepState {
    pub out: Seq<char>,
    pub in_string: bool,
    pub space: bool,
}

/// Whether `out` ends with a newline.
pub open spec fn ends_with_newline(out: Seq<char>) -> bool {
    out.len() > 0 && out.last() == '\n'
}

/// What [`prep`] does with one more source character.
pub open spec fn prep_step(st: PrepState, c: char) -> PrepState {
    if c == '"' {
        let out = if !st.in_string && st.out.len() > 0 && char_alphanumeric(st.out.last()) {
            st.out.push(' ')
        } else {
            st.out
        };
        PrepState { out: out.push('"'), in_string: !st.in_string, space: st.space }
    } else if st.in_string {
        let out = if c == '\n' {
            st.out.push('\\').push('\n')
        } else {
            st.out.push(c)
        };
        PrepState { out, in_string: st.in_string, space: st.space }
    } else if is_ws(c) {
        PrepState { out: st.out, in_string: st.in_string, space: true }
    } else {
        let out = if st.space && !ends_with_newline(st.out) && c != '<' {
            st.out.push(' ')
        } else {
            st.out
        };
        let out = if c == ';' {
            out.push('\n')
        } else if c == '>' {
            out.push('>').push('\n')
        } else {
            out.push(c)
        };
        PrepState { out, in_string: st.in_string, space: false }
    }
}

/// The state of [`prep`] after the first `n` characters of `src`.
pub open spec fn prep_scan(src: Seq<char>, n: int) -> PrepState
    decreases n,
{
    if n <= 0 {
        PrepState { out: Seq::empty(), in_string: false, space: false }
    } else {
        prep_step(prep_scan(src, n - 1), src[n - 1])
    }
}

/// The normalised source: outside string literals, runs of whitespace become one space
/// (none at the start of a line or before `<`), `;` becomes a line break and `>` is
/// followed by one; inside string literals, a line break is written as a backslash and a
/// line break; a space is put before an opening `"` that follows a letter or digit.
pub open spec fn spec_prep(src: Seq<char>) -> Seq<char> {
    prep_scan(src, src.len() as int).out
}

/// Normalises a source file so that each statement and each tag stands on its own line.
pub fn prep(src: &str) -> (r: String)
    ensures
        r@ == spec_prep(src@),
{
    let chars = chars_of(src);
    let n = chars.len();
    let mut out = String::new();
    let mut last: Option<char> = None;
    let mut string = false;
    let mut space = false;
    let mut i: usize = 0;
    while i < n
        invariant
            n == chars@.len(),
            chars@ == src@,
            i <= n,
            prep_scan(chars@, i as int) == (PrepState { out: out@, in_string: string, space }),
            last == (if out@.len() > 0 {
                Some(out@.last())
            } else {
                None::<char>
            }),
        decreases n - i,
    {
        let c = chars[i];
        if c == '"' {
            if !string {
                if let Some(l) = last {
                    if is_alphanumeric(l) {
                        push_char(&mut out, ' ');
                    }
                }
            }
            string = !string;
            push_char(&mut out, c);
            last = Some(c);
        } else if string {
            if c == '\n' {
                push_char(&mut out, '\\');
                push_char(&mut out, '\n');
            } else {
                push_char(&mut out, c);
            }
            last = Some(c);
        } else if char_is_whitespace(c) {
            space = true;
        } else {
            let ends_newline = match last {
                Some(l) => l == '\n',
                None => false,
            };
            if space && !ends_newline && c != '<' {
                push_char(&mut out, ' ');
            }
            space = false;
            if c == ';' {
                push_char(&mut out, '\n');
                last = Some('\n');
            } else {
                push_char(&mut out, c);
                last = Some(c);
                if c == '>' {
                    push_char(&mut out, '\n');
                    last = Some('\n');
                }
            }
        }
        i = i + 1;
    }
    assert(chars@.len() == src@.len());
    out
}

} // verus!

verus! {

/// Whether two character slices hold the same characters.
pub fn chars_eq(a: &[char], b: &[char]) -> (r: bool)
    ensures
        r == (a@ == b@),
{
    if a.len() != b.len() {
        return false;
    }
    let mut i: usize = 0;
    while i < a.len()
        invariant
            a@.len() == b@.len(),
            i <= a@.len(),
            forall|j: int| 0 <= j < i ==> a@[j] == b@[j],
        decreases a@.len() - i,
    {
        if a[i] != b[i] {
            return false;
        }
        i = i + 1;
    }
    assert(a@ =~= b@);
    true
}

/// A line parsed as a call: nothing for a blank line.
pub open spec fn spec_line_parse(line: Seq<char>) -> Option<SpecCall> {
    let t = trim(line);
    if t.len() == 0 {
        None
    } else {
        spec_parse_call(t)
    }
}

/// Parses one line of a block; blank lines give nothing.
pub fn psycho_line_parse(contents: &[char]) -> (r: Option<PsychoCall>)
    ensures
        view_opt_call(r) == spec_line_parse(contents@),
{
    let t = trim_chars(contents);
    if t.len() == 0 {
        return None;
    }
    parse_call(t)
}

/// The calls of the lines that parse, in order.
pub open spec fn lines_calls(lines: Seq<Seq<char>>) -> Seq<SpecCall>
    decreases lines.len(),
{
    if lines.len() == 0 {
        Seq::empty()
    } else {
        let rest = lines_calls(lines.drop_last());
        match spec_line_parse(lines.last()) {
            Some(c) => rest.push(c),
            None => rest,
        }
    }
}

/// `<name>` on a line of its own (the line is not a closing tag).
pub open spec fn is_open_tag_line(l: Seq<char>) -> bool {
    l.len() > 0 && l[0] == '<' && l.last() == '>' && !(l.len() >= 2 && l[1] == '/')
}

/// `</name>` on a line of its own.
pub open spec fn is_close_tag_line(l: Seq<char>) -> bool {
    l.len() >= 2 && l[0] == '<' && l[1] == '/' && l.last() == '>'
}

/// The state of the block scan after some lines: the blocks found so far, the most
/// recently opened tag and the line on which it was opened.
pub struct BlockScan {
    pub out: Seq<SpecBlock>,
    pub tag: Option<Seq<char>>,
    pub start: int,
}

/// The block scan after the first `n` lines. An opening tag line replaces the open tag;
/// a closing tag line whose name equals the open tag's name closes a block holding the
/// calls of the lines between the two tags. The open tag stays open after that.
pub open spec fn block_scan(lines: Seq<Seq<char>>, n: int) -> BlockScan
    decreases n,
{
    if n <= 0 {
        BlockScan { out: Seq::empty(), tag: None, start: 0 }
    } else {
        let prev = block_scan(lines, n - 1);
        let line = lines[n - 1];
        let tag = if is_open_tag_line(line) {
            Some(line.subrange(1, line.len() - 1))
        } else {
            prev.tag
        };
        let start = if is_open_tag_line(line) {
            n - 1
        } else {
            prev.start
        };
        let out = if is_close_tag_line(line) && tag is Some && line.subrange(2, line.len() - 1)
            == tag->0 {
            prev.out.push(
                SpecBlock {
                    block_type: tag->0,
                    contents: lines_calls(lines.subrange(start + 1, n - 1)),
                },
            )
        } else {
            prev.out
        };
        BlockScan { out, tag, start }
    }
}

pub proof fn lemma_block_scan_start(lines: Seq<Seq<char>>, n: int)
    requires
        0 <= n <= lines.len(),
    ensures
        block_scan(lines, n).tag is Some ==> 0 <= block_scan(lines, n).start < n,
        block_scan(lines, n).tag is Some && n > 0 && !is_open_tag_line(lines[n - 1])
            ==> block_scan(lines, n).start < n - 1,
    decreases n,
{
    if n > 0 {
        lemma_block_scan_start(lines, n - 1);
    }
}

/// The blocks of a (normalised) source text.
pub open spec fn spec_block_parse(contents: Seq<char>) -> Seq<SpecBlock> {
    let lines = spec_split_lines(contents);
    block_scan(lines, lines.len() as int).out
}

/// The lines strictly between line `start` and line `end`.
pub fn get_lines_between_tags<'a>(lines: &'a [&'a [char]], start: usize, end: usize) -> (r: &'a [&'a [char]])
    requires
        start < end <= lines@.len(),
    ensures
        r@ == lines@.subrange(start + 1, end as int),
{
    slice_subrange(lines, start + 1, end)
}

/// Finds the blocks of a normalised source text; see [`block_scan`].
pub fn psycho_block_parse(contents: String) -> (r: Vec<PsychoBlock>)
    ensures
        view_blocks(r@) == spec_block_parse(contents@),
{
    let chars = chars_of(contents.as_str());
    let lines = split_lines(chars.as_slice());
    let ghost ls = lines@.map_values(|p: &[char]| p@);
    let mut out: Vec<PsychoBlock> = Vec::new();
    let mut block_tag: Option<&[char]> = None;
    let mut start_tag_pos: Option<usize> = None;
    let mut i: usize = 0;
    while i < lines.len()
        invariant
            ls == lines@.map_values(|p: &[char]| p@),
            ls == spec_split_lines(contents@),
            i <= lines@.len(),
            view_blocks(out@) == block_scan(ls, i as int).out,
            match block_tag {
                Some(t) => block_scan(ls, i as int).tag == Some(t@) && start_tag_pos == Some(
                    block_scan(ls, i as int).start as usize,
                ),
                None => block_scan(ls, i as int).tag is None && start_tag_pos is None,
            },
        decreases lines@.len() - i,
    {
        proof {
            lemma_block_scan_start(ls, i as int + 1);
            lemma_block_scan_start(ls, i as int);
        }
        let line = lines[i];
        assert(line@ == ls[i as int]);
        let len = line.len();
        if len > 0 && line[0] == '<' && line[len - 1] == '>' && !(len >= 2 && line[1] == '/') {
            block_tag = Some(slice_subrange(line, 1, len - 1));
            start_tag_pos = Some(i);
        }
        if len >= 2 && line[0] == '<' && line[1] == '/' && line[len - 1] == '>' {
            if let Some(tag) = block_tag {
                let end_tag = slice_subrange(line, 2, len - 1);
                if chars_eq(end_tag, tag) {
                    let start = start_tag_pos.unwrap();
                    let between = get_lines_between_tags(lines.as_slice(), start, i);
                    let ghost bs = between@.map_values(|p: &[char]| p@);
                    assert(bs =~= ls.subrange(start + 1, i as int));
                    let mut calls: Vec<PsychoCall> = Vec::new();
                    let mut k: usize = 0;
                    while k < between.len()
                        invariant
                            k <= between@.len(),
                            bs == between@.map_values(|p: &[char]| p@),
                            view_calls(calls@) == lines_calls(bs.take(k as int)),
                        decreases between@.len() - k,
                    {
                        let l = between[k];
                        let parsed = psycho_line_parse(l);
                        proof {
                            assert(bs.take(k + 1).drop_last() =~= bs.take(k as int));
                            assert(bs.take(k + 1).last() == l@);
                        }
                        if let Some(c) = parsed {
                            proof {
                                lemma_map_push(calls@, c, |c: PsychoCall| view_call(c));
                            }
                            calls.push(c);
                        }
                        k = k + 1;
                    }
                    assert(bs.take(between@.len() as int) =~= bs);
                    let block = PsychoBlock { block_type: string_of(tag), contents: calls };
                    proof {
                        lemma_map_push(out@, block, |b: PsychoBlock| view_block(b));
                    }
                    out.push(block);
                }
            }
        }
        i = i + 1;
    }
    assert(ls.len() == lines@.len());
    out
}

/// The blocks of all files, in order: each file normalised by [`spec_prep`] and then
/// cut into blocks by [`spec_block_parse`].
pub open spec fn spec_attempt_psycho_parse(files: Seq<Seq<char>>) -> Seq<SpecBlock>
    decreases files.len(),
{
    if files.len() == 0 {
        Seq::empty()
    } else {
        spec_attempt_psycho_parse(files.drop_last()) + spec_block_parse(spec_prep(files.last()))
    }
}

/// Parses the source files of a program into blocks of calls.
pub fn attempt_psycho_parse(file_contents: Vec<String>) -> (r: Vec<PsychoBlock>)
    ensures
        view_blocks(r@) == spec_attempt_psycho_parse(file_contents@.map_values(|s: String| s@)),
{
    let ghost files = file_contents@.map_values(|s: String| s@);
    let mut out: Vec<PsychoBlock> = Vec::new();
    let mut i: usize = 0;
    while i < file_contents.len()
        invariant
            i <= file_contents@.len(),
            files == file_contents@.map_values(|s: String| s@),
            view_blocks(out@) == spec_attempt_psycho_parse(files.take(i as int)),
        decreases file_contents@.len() - i,
    {
        let prepared = prep(file_contents[i].as_str());
        let mut blocks = psycho_block_parse(prepared);
        let ghost before = out@;
        let ghost added = blocks@;
        out.append(&mut blocks);
        proof {
            assert(files.take(i + 1).drop_last() =~= files.take(i as int));
            assert(files.take(i + 1).last() == file_contents@[i as int]@);
            assert(out@ == before + added);
            assert(view_blocks(out@) =~= view_blocks(before) + view_blocks(added));
        }
        i = i + 1;
    }
    assert(files.take(file_contents@.len() as int) =~= files);
    out
}

} // verus!

verus! {

/// Parsing several files is parsing each file on its own: the blocks of the files
/// `a` followed by the files `b` are the blocks of `a` followed by the blocks of `b`.
pub proof fn law_attempt_psycho_parse_concat(a: Seq<Seq<char>>, b: Seq<Seq<char>>)
    ensures
        spec_attempt_psycho_parse(a + b) == spec_attempt_psycho_parse(a)
            + spec_attempt_psycho_parse(b),
    decreases b.len(),
{
    if b.len() == 0 {
        assert(a + b =~= a);
        assert(spec_attempt_psycho_parse(a) + spec_attempt_psycho_parse(b) =~= spec_attempt_psycho_parse(a));
    } else {
        law_attempt_psycho_parse_concat(a, b.drop_last());
        assert((a + b).drop_last() =~= a + b.drop_last());
        assert((a + b).last() == b.last());
        let x = spec_attempt_psycho_parse(a);
        let y = spec_attempt_psycho_parse(b.drop_last());
        let z = spec_block_parse(spec_prep(b.last()));
        assert((x + y) + z =~= x + (y + z));
    }
}

/// A keyword of a parsed call never starts or ends with whitespace.
pub proof fn law_parse_call_keyword_trimmed(s: Seq<char>)
    ensures
        spec_parse_call(s) matches Some(c) ==> trim(c.keyword) == c.keyword,
    decreases s.len(),
{
    let t = trim(s);
    lemma_trim(s);
    lemma_top_level_dot(t);
    match top_level_dot(t) {
        Some(i) => {
            law_parse_call_keyword_trimmed(t.subrange(i + 1, t.len() as int));
        },
        None => {},
    }
    match top_level_space(t) {
        Some(i) => {
            lemma_trim(t.subrange(0, i));
        },
        None => {},
    }
    match call_open(t) {
        Some(i) => {
            lemma_call_open(t);
            lemma_trim(t.subrange(0, i));
        },
        None => {},
    }
}

/// A plain-text argument is the trimmed text it was parsed from.
pub proof fn law_parse_expression_text_is_trimmed(s: Seq<char>)
    ensures
        spec_parse_expression(s) matches SpecExpr::Expression(t) ==> t == trim(s) && trim(t) == t,
{
    lemma_trim(s);
}

/// A blank line is never parsed into a call.
pub proof fn law_blank_line_has_no_call(line: Seq<char>)
    requires
        is_blank(line),
    ensures
        spec_line_parse(line) is None,
{
    lemma_trim_empty_iff_blank(line);
}

/// Without a closing tag line no block is found: blocks are produced only by lines of
/// the form `</name>`.
pub proof fn law_no_closing_tag_no_block(lines: Seq<Seq<char>>, n: int)
    requires
        0 <= n <= lines.len(),
        forall|k: int| 0 <= k < n ==> !is_close_tag_line(#[trigger] lines[k]),
    ensures
        block_scan(lines, n).out.len() == 0,
    decreases n,
{
    if n > 0 {
        law_no_closing_tag_no_block(lines, n - 1);
    }
}

/// Each block found is closed by a line `</name>` whose name is the block's type.
pub proof fn law_block_closed_by_its_tag(lines: Seq<Seq<char>>, n: int, j: int)
    requires
        0 <= n <= lines.len(),
        0 <= j < block_scan(lines, n).out.len(),
    ensures
        exists|k: int|
            0 <= k < n && is_close_tag_line(#[trigger] lines[k]) && lines[k].subrange(
                2,
                lines[k].len() - 1,
            ) == block_scan(lines, n).out[j].block_type,
    decreases n,
{
    let prev = block_scan(lines, n - 1);
    if j < prev.out.len() {
        law_block_closed_by_its_tag(lines, n - 1, j);
        let k = choose|k: int|
            0 <= k < n - 1 && is_close_tag_line(#[trigger] lines[k]) && lines[k].subrange(
                2,
                lines[k].len() - 1,
            ) == prev.out[j].block_type;
        assert(block_scan(lines, n).out[j] == prev.out[j]);
        assert(0 <= k < n && is_close_tag_line(lines[k]));
    } else {
        assert(is_close_tag_line(lines[n - 1]));
    }
}

} // verus!

verus! {

/// What holds of the output of `prep` on a source without string literals.
pub open spec fn plain_output(out: Seq<char>) -> bool {
    &&& forall|k: int| 0 <= k < out.len() ==> #[trigger] out[k] != ';'
    &&& forall|k: int| 0 <= k < out.len() && is_ws(#[trigger] out[k]) ==> out[k] == ' ' || out[k] == '\n'
    &&& forall|k: int| 0 <= k < out.len() - 1 && #[trigger] out[k] == '>' ==> out[k + 1] == '\n'
    &&& out.len() > 0 ==> out.last() != '>'
}

proof fn lemma_prep_scan_plain(src: Seq<char>, n: int)
    requires
        0 <= n <= src.len(),
        forall|i: int| 0 <= i < src.len() ==> #[trigger] src[i] != '"',
    ensures
        !prep_scan(src, n).in_string,
        plain_output(prep_scan(src, n).out),
    decreases n,
{
    if n > 0 {
        lemma_prep_scan_plain(src, n - 1);
        let st = prep_scan(src, n - 1);
        let c = src[n - 1];
        let o = st.out;
        if !is_ws(c) {
            let o1 = if st.space && !ends_with_newline(o) && c != '<' {
                o.push(' ')
            } else {
                o
            };
            assert(plain_output(o1));
            let o2 = prep_scan(src, n).out;
            if c == ';' {
                assert(o2 == o1.push('\n'));
            } else if c == '>' {
                assert(o2 == o1.push('>').push('\n'));
            } else {
                assert(o2 == o1.push(c));
            }
            assert(plain_output(o2));
        }
    }
}

/// On a source without string literals, `prep` leaves no `;`, no whitespace other than
/// spaces and line breaks, and a line break after every `>`.
pub proof fn law_prep_without_strings(src: Seq<char>)
    requires
        forall|i: int| 0 <= i < src.len() ==> #[trigger] src[i] != '"',
    ensures
        plain_output(spec_prep(src)),
{
    lemma_prep_scan_plain(src, src.len() as int);
}

} // verus!
