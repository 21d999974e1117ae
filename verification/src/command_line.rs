//! Statements of a block: how a block's lines are joined into statements, and how a
//! statement is matched with its keyword and read.
use vstd::prelude::*;
use vstd::slice::slice_subrange;

use crate::text::{trim, trim_chars, chars_of, string_of, push_str, push_char, chars_eq_str};
use crate::scan::{spec_lines, lines_of, first_index, lemma_first_index, lemma_first_index_is, lemma_map_push};
use crate::blocks::BlockType;
use crate::var_handler::{ValueModel, VarMap};
use crate::define_lines::{Keyword, KeywordKind, KeywordModel, Param, ParamModel, ParseResult, ResultModel,
    ParseFailure, FailureModel, keyword_of, keyword_table, spec_keyword_parse, keyword_parse_readable, view_params};

verus! {

/// The whitespace that `str::split_ascii_whitespace` cuts at.
pub open spec fn is_ascii_ws(c: char) -> bool {
    c == ' ' || c == '\t' || c == '\n' || c == '\x0C' || c == '\r'
}

/// The first word of a statement, between ASCII whitespace.
pub open spec fn first_ascii_word(s: Seq<char>) -> Option<Seq<char>> {
    match first_index(s.len() as int, |i: int| !is_ascii_ws(s[i])) {
        None => None,
        Some(a) => match first_index(s.len() - a, |j: int| is_ascii_ws(s[a + j])) {
            Some(e) => Some(s.subrange(a, a + e)),
            None => Some(s.subrange(a, s.len() as int)),
        },
    }
}

fn ascii_ws(c: char) -> (r: bool)
    ensures
        r == is_ascii_ws(c),
{
    c == ' ' || c == '\t' || c == '\n' || c == '\x0C' || c == '\r'
}

/// Finds the first word of a statement; see [`first_ascii_word`].
fn first_word(s: &[char]) -> (r: Option<&[char]>)
    ensures
        match first_ascii_word(s@) {
            Some(w) => r matches Some(x) && x@ == w,
            None => r is None,
        },
{
    let n = s.len();
    let ghost p = |i: int| !is_ascii_ws(s@[i]);
    let mut a: usize = 0;
    while a < n && ascii_ws(s[a])
        invariant
            a <= n == s@.len(),
            p == (|i: int| !is_ascii_ws(s@[i])),
            forall|j: int| 0 <= j < a ==> !#[trigger] p(j),
        decreases n - a,
    {
        a = a + 1;
    }
    if a == n {
        proof {
            lemma_first_index(n as int, p);
        }
        return None;
    }
    proof {
        lemma_first_index_is(n as int, p, a as int);
    }
    let ghost q = |j: int| is_ascii_ws(s@[a + j]);
    let mut e: usize = a;
    while e < n
        invariant
            a <= e <= n == s@.len(),
            q == (|j: int| is_ascii_ws(s@[a + j])),
            forall|j: int| 0 <= j < e - a ==> !#[trigger] q(j),
            p == (|i: int| !is_ascii_ws(s@[i])),
            first_index(n as int, p) == Some(a as int),
        decreases n - e,
    {
        if ascii_ws(s[e]) {
            proof {
                lemma_first_index_is(n - a, q, e - a);
            }
            return Some(slice_subrange(s, a, e));
        }
        e = e + 1;
    }
    proof {
        lemma_first_index(n - a, q);
    }
    Some(slice_subrange(s, a, n))
}

/// The name of a kind of block, as the messages give it.
pub open spec fn block_type_name(bt: BlockType) -> Seq<char> {
    match bt {
        BlockType::Execute => "Execute"@,
        BlockType::ExecutionPolicy => "ExecutionPolicy"@,
        BlockType::Define => "Define"@,
        BlockType::Unknown => "Unknown"@,
    }
}

fn block_type_text(bt: BlockType) -> (r: &'static str)
    ensures
        r@ == block_type_name(bt),
{
    match bt {
        BlockType::Execute => "Execute",
        BlockType::ExecutionPolicy => "ExecutionPolicy",
        BlockType::Define => "Define",
        BlockType::Unknown => "Unknown",
    }
}

/// The keyword a word names, the first in [`keyword_table`] order.
pub open spec fn word_kind(w: Seq<char>) -> Option<KeywordKind> {
    if w == keyword_of(KeywordKind::Print).definition {
        Some(KeywordKind::Print)
    } else if w == keyword_of(KeywordKind::Println).definition {
        Some(KeywordKind::Println)
    } else if w == keyword_of(KeywordKind::Let).definition {
        Some(KeywordKind::Let)
    } else if w == keyword_of(KeywordKind::SetValue).definition {
        Some(KeywordKind::SetValue)
    } else {
        None
    }
}

/// The statement read by a keyword, or why it could not be.
pub open spec fn with_keyword(k: KeywordKind, r: ResultModel) -> Result<(KeywordModel, Seq<ParamModel>), FailureModel> {
    match r {
        ResultModel::StandardOut(ps) => Ok((keyword_of(k), ps)),
        ResultModel::ParseError(e) => Err(e),
    }
}

pub open spec fn message_failure(m: Seq<char>) -> Result<(KeywordModel, Seq<ParamModel>), FailureModel> {
    Err(FailureModel::Message(m))
}

/// Reads a statement of a block of kind `bt`. A statement whose first word is a variable
/// gives that variable a new value, where that keyword is allowed; otherwise the first
/// word must be a keyword allowed in the block.
pub open spec fn spec_attempt_parse(line: Seq<char>, bt: BlockType, vars: Map<Seq<char>, ValueModel>) -> Result<(KeywordModel, Seq<ParamModel>), FailureModel> {
    match first_ascii_word(line) {
        None => message_failure("I dont know but smt broke"@),
        Some(w) => if vars.contains_key(w) && keyword_of(KeywordKind::SetValue).allowed_in.contains(bt) {
            with_keyword(KeywordKind::SetValue, spec_keyword_parse(KeywordKind::SetValue, line, vars))
        } else {
            match word_kind(w) {
                Some(k) => if keyword_of(k).allowed_in.contains(bt) {
                    with_keyword(k, spec_keyword_parse(k, line, vars))
                } else {
                    message_failure("Keyword "@ + keyword_of(k).definition + " not allowed inside "@
                        + block_type_name(bt) + " block"@)
                },
                None => message_failure("Keyword "@ + w + " dosnt exist"@),
            }
        },
    }
}

/// A statement can be read: a `print` or `println` statement chosen by its first word
/// starts with that word.
pub open spec fn attempt_parse_readable(line: Seq<char>, bt: BlockType, vars: Map<Seq<char>, ValueModel>) -> bool {
    match first_ascii_word(line) {
        None => true,
        Some(w) => (vars.contains_key(w) && keyword_of(KeywordKind::SetValue).allowed_in.contains(bt))
            || match word_kind(w) {
            Some(k) => keyword_of(k).allowed_in.contains(bt) ==> keyword_parse_readable(k, line),
            None => true,
        },
    }
}

/// A statement read with its keyword.
#[derive(Debug)]
pub struct CommandLine {
    keyword: Keyword,
    params: Vec<Param>,
}

impl View for CommandLine {
    type V = (KeywordModel, Seq<ParamModel>);

    closed spec fn view(&self) -> (KeywordModel, Seq<ParamModel>) {
        (self.keyword@, view_params(self.params@))
    }
}

impl CommandLine {
    pub fn new(keyword: Keyword, params: Vec<Param>) -> (r: Self)
        ensures
            r@ == (keyword@, view_params(params@)),
    {
        CommandLine { keyword, params }
    }

    /// The keyword of the statement.
    pub fn keyword(&self) -> (r: &Keyword)
        ensures
            r@ == self@.0,
    {
        &self.keyword
    }

    /// The parameters of the statement.
    pub fn params(&self) -> (r: &Vec<Param>)
        ensures
            view_params(r@) == self@.1,
    {
        &self.params
    }

    /// Reads a statement of a block of kind `block_type`; see [`spec_attempt_parse`]. The
    /// variables are only read.
    pub fn attempt_parse(line: String, block_type: BlockType, vars: &mut VarMap) -> (r: Result<CommandLine, ParseFailure>)
        requires
            attempt_parse_readable(line@, block_type, old(vars)@),
        ensures
            match spec_attempt_parse(line@, block_type, old(vars)@) {
                Ok(c) => r matches Ok(x) && x@ == c,
                Err(e) => r matches Err(x) && x@ == e,
            },
            final(vars)@ == old(vars)@,
    {
        let chars = chars_of(line.as_str());
        let first = match first_word(chars.as_slice()) {
            Some(w) => w,
            None => return Err(ParseFailure::Message(string_of(chars_of("I dont know but smt broke").as_slice()))),
        };
        let first_string = string_of(first);
        let keywords = Keyword::init();
        if vars.var_exists(&first_string) && keywords[3].allowed(block_type) {
            let keyword = &keywords[3];
            return match keyword.parse(chars.as_slice(), vars) {
                ParseResult::StandardOut(v) => Ok(CommandLine::new(keyword.duplicate(), v)),
                ParseResult::ParseError(e) => Err(e),
            };
        }
        let mut i: usize = 0;
        while i < 4
            invariant
                i <= 4,
                keywords@.len() == 4,
                forall|j: int| 0 <= j < 4 ==> #[trigger] keywords@[j]@ == keyword_table()[j],
                forall|j: int| 0 <= j < i ==> keyword_table()[j].definition != first@,
                chars@ == line@,
                first_ascii_word(line@) == Some(first@),
                attempt_parse_readable(line@, block_type, vars@),
                !(vars@.contains_key(first@) && keyword_of(KeywordKind::SetValue).allowed_in.contains(block_type)),
            decreases 4 - i,
        {
            let keyword = &keywords[i];
            assert(keyword@ == keyword_table()[i as int]);
            if chars_eq_str(first, keyword.definition.as_str()) {
                assert(word_kind(first@) == Some(keyword.kind));
                if keyword.allowed(block_type) {
                    return match keyword.parse(chars.as_slice(), vars) {
                        ParseResult::StandardOut(v) => Ok(CommandLine::new(keyword.duplicate(), v)),
                        ParseResult::ParseError(e) => Err(e),
                    };
                }
                let mut message = String::new();
                push_str(&mut message, "Keyword ");
                push_str(&mut message, keyword.definition.as_str());
                push_str(&mut message, " not allowed inside ");
                push_str(&mut message, block_type_text(block_type));
                push_str(&mut message, " block");
                return Err(ParseFailure::Message(message));
            }
            i = i + 1;
        }
        assert(word_kind(first@) is None);
        let mut message = String::new();
        push_str(&mut message, "Keyword ");
        push_str(&mut message, first_string.as_str());
        push_str(&mut message, " dosnt exist");
        Err(ParseFailure::Message(message))
    }
}

/// The text without the `;` at its end.
pub open spec fn strip_semicolons(s: Seq<char>) -> Seq<char>
    decreases s.len(),
{
    if s.len() > 0 && s.last() == ';' {
        strip_semicolons(s.drop_last())
    } else {
        s
    }
}

/// Reads one line of a block into the statements: the line is trimmed and blank lines
/// are passed over; its content (without the `;` at its end, trimmed) is added to the
/// statement being gathered, after a space; a line that ends with `;` completes it.
pub open spec fn gather_step(st: (Seq<Seq<char>>, Seq<char>), line: Seq<char>) -> (Seq<Seq<char>>, Seq<char>) {
    let t = trim(line);
    if t.len() == 0 {
        st
    } else {
        let c = trim(strip_semicolons(t));
        let buf = if c.len() > 0 {
            if st.1.len() > 0 {
                st.1 + seq![' '] + c
            } else {
                c
            }
        } else {
            st.1
        };
        if t.last() == ';' {
            (st.0.push(buf), Seq::empty())
        } else {
            (st.0, buf)
        }
    }
}

pub open spec fn gather_scan(ls: Seq<Seq<char>>, n: int) -> (Seq<Seq<char>>, Seq<char>)
    decreases n,
{
    if n <= 0 {
        (Seq::empty(), Seq::empty())
    } else {
        gather_step(gather_scan(ls, n - 1), ls[n - 1])
    }
}

/// The statements of a block's text, gathered line by line by [`gather_step`]; what is
/// gathered after the last `;` is dropped.
pub open spec fn spec_complete_lines(inside: Seq<char>) -> Seq<Seq<char>> {
    let ls = spec_lines(inside);
    gather_scan(ls, ls.len() as int).0
}

/// The text without the `;` at its end.
fn strip_semicolons_chars(s: &[char]) -> (r: &[char])
    ensures
        r@ == strip_semicolons(s@),
{
    let mut n = s.len();
    assert(s@.subrange(0, s@.len() as int) == s@);
    while n > 0 && s[n - 1] == ';'
        invariant
            n <= s@.len(),
            strip_semicolons(s@) == strip_semicolons(s@.subrange(0, n as int)),
        decreases n,
    {
        assert(s@.subrange(0, n as int).drop_last() == s@.subrange(0, n - 1));
        n = n - 1;
    }
    assert(s@.subrange(0, s@.len() as int) == s@);
    slice_subrange(s, 0, n)
}

/// Gathers the statements of a block's text; see [`spec_complete_lines`].
pub fn complete_lines(inside: &str) -> (r: Vec<String>)
    ensures
        r@.map_values(|l: String| l@) == spec_complete_lines(inside@),
{
    let chars = chars_of(inside);
    let ls = lines_of(chars.as_slice());
    let ghost lv = ls@.map_values(|p: &[char]| p@);
    let mut out: Vec<String> = Vec::new();
    let mut buf = String::new();
    let mut i: usize = 0;
    while i < ls.len()
        invariant
            i <= ls@.len(),
            lv == ls@.map_values(|p: &[char]| p@),
            lv == spec_lines(inside@),
            (out@.map_values(|l: String| l@), buf@) == gather_scan(lv, i as int),
        decreases ls@.len() - i,
    {
        let line = ls[i];
        assert(line@ == lv[i as int]);
        let t = trim_chars(line);
        let ghost st = gather_scan(lv, i as int);
        if t.len() > 0 {
            let c = trim_chars(strip_semicolons_chars(t));
            if c.len() > 0 {
                if buf.as_str().unicode_len() > 0 {
                    push_char(&mut buf, ' ');
                }
                let cs = string_of(c);
                push_str(&mut buf, cs.as_str());
                assert(buf@ == (if st.1.len() > 0 { st.1 + seq![' '] + c@ } else { c@ }));
            }
            assert(t@.last() == t[t.len() - 1]);
            if t[t.len() - 1] == ';' {
                let mut done = String::new();
                core::mem::swap(&mut done, &mut buf);
                proof {
                    lemma_map_push(out@, done, |l: String| l@);
                }
                out.push(done);
            }
        }
        i = i + 1;
    }
    out
}

/// The contents of the non-blank lines: each trimmed, without the `;` at its end,
/// trimmed again.
pub open spec fn line_contents(ls: Seq<Seq<char>>, n: int) -> Seq<Seq<char>>
    decreases n,
{
    if n <= 0 {
        Seq::empty()
    } else {
        let rest = line_contents(ls, n - 1);
        let t = trim(ls[n - 1]);
        if t.len() == 0 {
            rest
        } else {
            rest.push(trim(strip_semicolons(t)))
        }
    }
}

/// Every non-blank line among the first `n` ends with `;`.
pub open spec fn every_line_ends(ls: Seq<Seq<char>>, n: int) -> bool {
    forall|i: int| 0 <= i < n && trim(ls[i]).len() > 0 ==> (#[trigger] trim(ls[i])).last() == ';'
}

proof fn lemma_gather_ended_lines(ls: Seq<Seq<char>>, n: int)
    requires
        0 <= n <= ls.len(),
        every_line_ends(ls, n),
    ensures
        gather_scan(ls, n) == (line_contents(ls, n), Seq::<char>::empty()),
    decreases n,
{
    if n > 0 {
        lemma_gather_ended_lines(ls, n - 1);
        let t = trim(ls[n - 1]);
        if t.len() > 0 {
            assert(t.last() == ';');
            let c = trim(strip_semicolons(t));
            if c.len() == 0 {
                assert(c =~= Seq::<char>::empty());
            }
        }
    }
}

/// When every line of a block ends with `;`, each non-blank line is one statement: its
/// content without the `;`, trimmed.
pub proof fn law_one_statement_per_ended_line(inside: Seq<char>)
    requires
        every_line_ends(spec_lines(inside), spec_lines(inside).len() as int),
    ensures
        spec_complete_lines(inside) == line_contents(spec_lines(inside), spec_lines(inside).len() as int),
{
    lemma_gather_ended_lines(spec_lines(inside), spec_lines(inside).len() as int);
}

} // verus!
