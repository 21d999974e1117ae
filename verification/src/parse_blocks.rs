//! Blocks of a program: `<execute>` and `<define>` blocks, read line by line, keeping
//! only the blocks of one kind and reading their lines into expressions.
use vstd::prelude::*;

use crate::text::{is_blank, trim, trim_chars, chars_of, string_of, push_str, lemma_trim_empty_iff_blank};
use crate::scan::{spec_lines, lines_of, first_index, lemma_first_index, lemma_first_index_is, lemma_map_push};
use crate::psycho_parser::chars_eq;
use crate::line_parser::{Expression, ExpressionModel, spec_parse_lines, lines_readable, parse_char_lines,
    view_char_lines};
use crate::variable::{VariableMap, VariableModel};

verus! {

/// A block read from a program, with the expressions of its lines.
#[derive(Debug)]
pub enum Block {
    Execute(Vec<Expression>),
    Define(Vec<Expression>),
    /// No block.
    Empty,
}

/// The mathematical value of a [`Block`].
pub enum BlockModel {
    Execute(Seq<ExpressionModel>),
    Define(Seq<ExpressionModel>),
    Empty,
}

impl View for Block {
    type V = BlockModel;

    open spec fn view(&self) -> BlockModel {
        match self {
            Block::Execute(v) => BlockModel::Execute(v@.map_values(|e: Expression| e@)),
            Block::Define(v) => BlockModel::Define(v@.map_values(|e: Expression| e@)),
            Block::Empty => BlockModel::Empty,
        }
    }
}

/// The kind of a block.
#[derive(Debug, Clone, Copy, PartialEq, Eq, Structural)]
pub enum BlockKind {
    Execute,
    Define,
}

/// The kind a tag names, or the message for a tag that names none.
pub open spec fn spec_from_tag(tag: Seq<char>) -> Result<BlockKind, Seq<char>> {
    if tag == "execute"@ {
        Ok(BlockKind::Execute)
    } else if tag == "define"@ {
        Ok(BlockKind::Define)
    } else {
        Err("Unknown block type: "@ + tag)
    }
}

impl BlockKind {
    /// The kind a tag names: `execute` or `define`; any other is an error.
    pub fn from_tag(tag: &str) -> (r: Result<Self, String>)
        ensures
            match spec_from_tag(tag@) {
                Ok(k) => r == Ok::<BlockKind, String>(k),
                Err(m) => r matches Err(e) && e@ == m,
            },
    {
        let chars = chars_of(tag);
        if crate::text::chars_eq_str(chars.as_slice(), "execute") {
            Ok(BlockKind::Execute)
        } else if crate::text::chars_eq_str(chars.as_slice(), "define") {
            Ok(BlockKind::Define)
        } else {
            let mut message = String::new();
            push_str(&mut message, "Unknown block type: ");
            push_str(&mut message, tag);
            Err(message)
        }
    }
}

/// The block of the given kind holding the expressions read from its lines.
pub open spec fn block_of(kind: BlockKind, contents: Seq<Seq<char>>, vars: Seq<VariableModel>) -> BlockModel {
    match kind {
        BlockKind::Execute => BlockModel::Execute(spec_parse_lines(contents, vars)),
        BlockKind::Define => BlockModel::Define(spec_parse_lines(contents, vars)),
    }
}

/// The text of a start tag, `<tag>`.
pub open spec fn start_tag_text(tag: Seq<char>) -> Seq<char> {
    seq!['<'] + tag + seq!['>']
}

/// The text of an end tag, `</tag>`.
pub open spec fn end_tag_text(tag: Seq<char>) -> Seq<char> {
    seq!['<', '/'] + tag + seq!['>']
}

/// `pat` occurs in `text` at position `i`.
pub open spec fn occurs_at(text: Seq<char>, pat: Seq<char>, i: int) -> bool {
    0 <= i && i + pat.len() <= text.len() && text.subrange(i, i + pat.len()) == pat
}

/// `pat` occurs in `text`.
pub open spec fn occurs_in(text: Seq<char>, pat: Seq<char>) -> bool {
    exists|i: int| #[trigger] occurs_at(text, pat, i)
}

pub open spec fn starts_with(text: Seq<char>, pat: Seq<char>) -> bool {
    pat.len() <= text.len() && text.subrange(0, pat.len() as int) == pat
}

pub open spec fn ends_with(text: Seq<char>, pat: Seq<char>) -> bool {
    pat.len() <= text.len() && text.subrange(text.len() - pat.len(), text.len() as int) == pat
}

/// The name between the first `<` and the first `>` after it.
pub open spec fn spec_get_tag(text: Seq<char>) -> Option<Seq<char>> {
    match first_index(text.len() as int, |i: int| text[i] == '<') {
        None => None,
        Some(i) => match first_index(text.len() - (i + 1), |j: int| text[i + 1 + j] == '>') {
            None => None,
            Some(j) => Some(text.subrange(i + 1, i + 1 + j)),
        },
    }
}

/// The text holds the end tag `</tag>` somewhere.
pub open spec fn spec_get_end_tag(text: Seq<char>, tag: Seq<char>) -> bool {
    occurs_in(text, end_tag_text(tag))
}

/// The text is `<tag>`, then something, then `</tag>`.
pub open spec fn between_tags_ok(text: Seq<char>, tag: Seq<char>) -> bool {
    let st = start_tag_text(tag);
    let et = end_tag_text(tag);
    st.len() + et.len() <= text.len() && starts_with(text, st) && ends_with(text, et)
}

/// What stands between `<tag>` at the start and `</tag>` at the end.
pub open spec fn spec_between_tags(text: Seq<char>, tag: Seq<char>) -> Seq<char> {
    text.subrange(start_tag_text(tag).len() as int, text.len() - end_tag_text(tag).len())
}

/// The characters of `<tag>` or `</tag>`.
fn tag_text(tag: &[char], end: bool) -> (r: Vec<char>)
    ensures
        r@ == if end { end_tag_text(tag@) } else { start_tag_text(tag@) },
{
    let mut r: Vec<char> = Vec::new();
    r.push('<');
    if end {
        r.push('/');
    }
    let mut i: usize = 0;
    let ghost before = r@;
    while i < tag.len()
        invariant
            i <= tag@.len(),
            r@ == before + tag@.subrange(0, i as int),
        decreases tag@.len() - i,
    {
        r.push(tag[i]);
        i = i + 1;
    }
    r.push('>');
    assert(tag@.subrange(0, tag@.len() as int) == tag@);
    r
}

/// Whether `pat` occurs in `text` at position `i`.
fn occurs_here(text: &[char], pat: &[char], i: usize) -> (r: bool)
    ensures
        r == occurs_at(text@, pat@, i as int),
{
    if pat.len() > text.len() || i > text.len() - pat.len() {
        return false;
    }
    let piece = vstd::slice::slice_subrange(text, i, i + pat.len());
    chars_eq(piece, pat)
}

/// Whether `pat` occurs in `text`.
fn occurs(text: &[char], pat: &[char]) -> (r: bool)
    ensures
        r == occurs_in(text@, pat@),
{
    if pat.len() > text.len() {
        assert forall|j: int| !#[trigger] occurs_at(text@, pat@, j) by {}
        return false;
    }
    let last = text.len() - pat.len();
    let mut i: usize = 0;
    while i < last
        invariant
            i <= last,
            last == text@.len() - pat@.len(),
            forall|j: int| 0 <= j < i ==> !#[trigger] occurs_at(text@, pat@, j),
        decreases last - i,
    {
        if occurs_here(text, pat, i) {
            return true;
        }
        i = i + 1;
    }
    if occurs_here(text, pat, last) {
        return true;
    }
    assert forall|j: int| !#[trigger] occurs_at(text@, pat@, j) by {
        if 0 <= j && j < last {
        }
    }
    false
}

/// Whether `text` starts with `pat`.
fn starts_with_chars(text: &[char], pat: &[char]) -> (r: bool)
    ensures
        r == starts_with(text@, pat@),
{
    pat.len() <= text.len() && occurs_here(text, pat, 0)
}

/// Whether `text` ends with `pat`.
fn ends_with_chars(text: &[char], pat: &[char]) -> (r: bool)
    ensures
        r == ends_with(text@, pat@),
{
    pat.len() <= text.len() && occurs_here(text, pat, text.len() - pat.len())
}

/// The first position at or after `from` that holds `c`.
fn find_from(text: &[char], c: char, from: usize) -> (r: Option<usize>)
    requires
        from <= text@.len(),
    ensures
        match r {
            Some(k) => from <= k < text@.len() && first_index(text@.len() - from, |j: int| text@[from + j] == c)
                == Some(k - from),
            None => first_index(text@.len() - from, |j: int| text@[from + j] == c) is None,
        },
{
    let ghost p = |j: int| text@[from + j] == c;
    let mut i: usize = from;
    while i < text.len()
        invariant
            from <= i <= text@.len(),
            p == (|j: int| text@[from + j] == c),
            forall|j: int| 0 <= j < i - from ==> !#[trigger] p(j),
        decreases text@.len() - i,
    {
        if text[i] == c {
            proof {
                lemma_first_index_is(text@.len() - from, p, i - from);
            }
            return Some(i);
        }
        i = i + 1;
    }
    proof {
        lemma_first_index(text@.len() - from, p);
    }
    None
}

/// The name of the first tag of a line; see [`spec_get_tag`].
pub fn get_tag(text: &str) -> (r: Option<&str>)
    ensures
        match spec_get_tag(text@) {
            Some(t) => r matches Some(x) && x@ == t,
            None => r is None,
        },
{
    let chars = chars_of(text);
    assert((|j: int| chars@[0 + j] == '<') =~= (|i: int| text@[i] == '<'));
    assert(chars@.len() - 0 == text@.len());
    let start = match find_from(chars.as_slice(), '<', 0) {
        Some(i) => i,
        None => return None,
    };
    assert((|j: int| chars@[0 + j] == '<') =~= (|i: int| text@[i] == '<'));
    assert(start < chars.len());
    let end = match find_from(chars.as_slice(), '>', start + 1) {
        Some(j) => j,
        None => return None,
    };
    Some(text.substring_char(start + 1, end))
}

/// Whether the text holds the end tag `</tag>`.
pub fn get_end_tag(text: &str, tag: &str) -> (r: bool)
    ensures
        r == spec_get_end_tag(text@, tag@),
{
    let chars = chars_of(text);
    let tag_chars = chars_of(tag);
    let pat = tag_text(tag_chars.as_slice(), true);
    occurs(chars.as_slice(), pat.as_slice())
}

/// What stands between `<st>` at the start of the text and `</st>` at its end.
pub fn get_between_tags<'a>(text: &'a str, st: &str) -> (r: &'a str)
    requires
        between_tags_ok(text@, st@),
    ensures
        r@ == spec_between_tags(text@, st@),
{
    let n = text.unicode_len();
    let k = st.unicode_len();
    text.substring_char(k + 2, n - (k + 3))
}

/// What has been read of a program so far: the blocks read, the tag of the block being
/// read and its kind, the tag of a block of another kind being passed over, the lines of
/// the block being read, the error that stopped the reading, and whether every block so
/// far could be read without reading a lone double quote as a value.
pub struct BlocksState {
    pub out: Seq<BlockModel>,
    pub open: Option<Seq<char>>,
    pub skipped: Option<Seq<char>>,
    pub kind: Option<BlockKind>,
    pub contents: Seq<Seq<char>>,
    pub err: Option<Seq<char>>,
    pub ok: bool,
}

/// Closes the block being read, whose lines are `contents`.
pub open spec fn close_block(st: BlocksState, contents: Seq<Seq<char>>, vars: Seq<VariableModel>) -> BlocksState {
    match st.kind {
        None => BlocksState { err: Some("Missing block type"@), ..st },
        Some(k) => BlocksState {
            out: st.out.push(block_of(k, contents, vars)),
            open: None,
            kind: None,
            contents: Seq::empty(),
            ok: st.ok && lines_readable(contents, vars),
            ..st
        },
    }
}

/// Reads a block that opens and closes on one line.
pub open spec fn one_line_block(st: BlocksState, k: BlockKind, line: Seq<char>, tag: Seq<char>, vars: Seq<VariableModel>) -> BlocksState {
    let inside = seq![spec_between_tags(line, tag)];
    BlocksState {
        out: st.out.push(block_of(k, inside, vars)),
        ok: st.ok && between_tags_ok(line, tag) && lines_readable(inside, vars),
        ..st
    }
}

/// Reads one line of a program. Blank lines are passed over. Inside a block of another
/// kind, lines are passed over up to its end tag. Inside a block being read, a line that
/// holds the end tag closes it (what comes before an end tag at the very end of the line
/// is the block's last line); other lines are the block's. Outside blocks, a line must
/// start a block by a tag naming a kind; a block of the kind sought is read, on that
/// line alone when the end tag is on it too.
pub open spec fn blocks_step(st: BlocksState, line: Seq<char>, vars: Seq<VariableModel>, filter: BlockKind) -> BlocksState {
    if st.err is Some || trim(line).len() == 0 {
        st
    } else if st.skipped is Some {
        if spec_get_end_tag(line, st.skipped->0) {
            BlocksState { skipped: None, ..st }
        } else {
            st
        }
    } else if st.open is Some {
        let ac = st.open->0;
        let et = end_tag_text(ac);
        if ends_with(line, et) {
            let extra = line.subrange(0, line.len() - et.len());
            let cs = if extra.len() > 0 {
                st.contents.push(extra)
            } else {
                st.contents
            };
            close_block(st, cs, vars)
        } else if spec_get_end_tag(line, ac) {
            close_block(st, st.contents, vars)
        } else {
            BlocksState { contents: st.contents.push(line), ..st }
        }
    } else {
        match spec_get_tag(line) {
            None => BlocksState { err: Some("Expected a block tag, found: "@ + line), ..st },
            Some(tag) => match spec_from_tag(tag) {
                Err(m) => BlocksState { err: Some(m), ..st },
                Ok(k) => {
                    let stt = start_tag_text(tag);
                    if k != filter {
                        if !spec_get_end_tag(line, tag) {
                            BlocksState { skipped: Some(tag), ..st }
                        } else {
                            st
                        }
                    } else if starts_with(line, stt) && line.len() > stt.len() {
                        let extra = line.subrange(stt.len() as int, line.len() as int);
                        if spec_get_end_tag(extra, tag) {
                            one_line_block(st, k, line, tag, vars)
                        } else {
                            BlocksState { contents: st.contents.push(extra), open: Some(tag), kind: Some(k), ..st }
                        }
                    } else if spec_get_end_tag(line, tag) {
                        one_line_block(st, k, line, tag, vars)
                    } else {
                        BlocksState { open: Some(tag), kind: Some(k), ..st }
                    }
                },
            },
        }
    }
}

/// The state after reading the first `n` lines.
pub open spec fn blocks_scan(ls: Seq<Seq<char>>, n: int, vars: Seq<VariableModel>, filter: BlockKind) -> BlocksState
    decreases n,
{
    if n <= 0 {
        BlocksState {
            out: Seq::empty(),
            open: None,
            skipped: None,
            kind: None,
            contents: Seq::empty(),
            err: None,
            ok: true,
        }
    } else {
        blocks_step(blocks_scan(ls, n - 1, vars, filter), ls[n - 1], vars, filter)
    }
}

/// The message for a block left open.
pub open spec fn unclosed_message(tag: Seq<char>) -> Seq<char> {
    "Unclosed <"@ + tag + "> block"@
}

/// The blocks of kind `filter` in a program, read line by line by [`blocks_step`]: the
/// error that stopped the reading, or a block left open at the end, is an error.
pub open spec fn spec_parse_blocks(text: Seq<char>, vars: Seq<VariableModel>, filter: BlockKind) -> Result<Seq<BlockModel>, Seq<char>> {
    let ls = spec_lines(text);
    let st = blocks_scan(ls, ls.len() as int, vars, filter);
    match st.err {
        Some(e) => Err(e),
        None => match st.open {
            Some(t) => Err(unclosed_message(t)),
            None => match st.skipped {
                Some(t) => Err(unclosed_message(t)),
                None => Ok(st.out),
            },
        },
    }
}

/// The program can be read: no block of the kind sought reads a lone double quote as a
/// value, and each block on one line starts with its tag and ends with its end tag.
pub open spec fn blocks_readable(text: Seq<char>, vars: Seq<VariableModel>, filter: BlockKind) -> bool {
    let ls = spec_lines(text);
    blocks_scan(ls, ls.len() as int, vars, filter).ok
}

proof fn lemma_blocks_ok(ls: Seq<Seq<char>>, i: int, n: int, vars: Seq<VariableModel>, filter: BlockKind)
    requires
        0 <= i <= n,
        blocks_scan(ls, n, vars, filter).ok,
    ensures
        blocks_scan(ls, i, vars, filter).ok,
    decreases n - i,
{
    if i < n {
        lemma_blocks_ok(ls, i, n - 1, vars, filter);
    }
}

pub open spec fn view_blocks(v: Seq<Block>) -> Seq<BlockModel> {
    v.map_values(|b: Block| b@)
}

/// The block of the given kind with the expressions of the given lines.
fn into_block(kind: BlockKind, contents: &Vec<Vec<char>>, vars: &VariableMap) -> (r: Block)
    requires
        lines_readable(view_char_lines(contents@), vars@),
    ensures
        r@ == block_of(kind, view_char_lines(contents@), vars@),
{
    let expressions = parse_char_lines(contents, vars);
    match kind {
        BlockKind::Execute => Block::Execute(expressions),
        BlockKind::Define => Block::Define(expressions),
    }
}

/// A program being read: the blocks read so far and the state of the reading.
struct BlocksReader {
    out: Vec<Block>,
    open: Option<String>,
    skipped: Option<String>,
    kind: Option<BlockKind>,
    contents: Vec<Vec<char>>,
}

spec fn view_opt_string(o: Option<String>) -> Option<Seq<char>> {
    match o {
        Some(t) => Some(t@),
        None => None,
    }
}

/// The state of a reading that has met no error.
spec fn reader_state(rd: BlocksReader) -> BlocksState {
    BlocksState {
        out: view_blocks(rd.out@),
        open: view_opt_string(rd.open),
        skipped: view_opt_string(rd.skipped),
        kind: rd.kind,
        contents: view_char_lines(rd.contents@),
        err: None,
        ok: true,
    }
}

/// A copy of the characters.
fn to_vec(s: &[char]) -> (r: Vec<char>)
    ensures
        r@ == s@,
{
    let mut piece: Vec<char> = Vec::new();
    let mut j: usize = 0;
    while j < s.len()
        invariant
            j <= s@.len(),
            piece@ == s@.subrange(0, j as int),
        decreases s@.len() - j,
    {
        piece.push(s[j]);
        j = j + 1;
    }
    assert(s@.subrange(0, s@.len() as int) == s@);
    piece
}

/// Closes the block being read; see [`close_block`].
fn close_current(rd: &mut BlocksReader, vars: &VariableMap) -> (res: Result<(), String>)
    requires
        close_block(reader_state(*old(rd)), view_char_lines(old(rd).contents@), vars@).ok,
    ensures
        match close_block(reader_state(*old(rd)), view_char_lines(old(rd).contents@), vars@).err {
            Some(e) => res matches Err(m) && m@ == e,
            None => res is Ok && reader_state(*final(rd)) == close_block(reader_state(*old(rd)),
                view_char_lines(old(rd).contents@), vars@),
        },
{
    let k = match rd.kind {
        Some(k) => k,
        None => return Err(string_of(chars_of("Missing block type").as_slice())),
    };
    let mut done: Vec<Vec<char>> = Vec::new();
    core::mem::swap(&mut done, &mut rd.contents);
    let block = into_block(k, &done, vars);
    proof {
        lemma_map_push(rd.out@, block, |b: Block| b@);
    }
    rd.out.push(block);
    rd.kind = None;
    rd.open = None;
    assert(view_char_lines(rd.contents@) =~= Seq::<Seq<char>>::empty());
    Ok(())
}

/// Reads a line inside a block being read.
fn read_in_block(rd: &mut BlocksReader, line: &[char], vars: &VariableMap) -> (res: Result<(), String>)
    requires
        old(rd).open is Some,
        old(rd).skipped is None,
        trim(line@).len() != 0,
        blocks_step(reader_state(*old(rd)), line@, vars@, BlockKind::Execute).ok,
    ensures
        match blocks_step(reader_state(*old(rd)), line@, vars@, BlockKind::Execute).err {
            Some(e) => res matches Err(m) && m@ == e,
            None => res is Ok && reader_state(*final(rd)) == blocks_step(reader_state(*old(rd)), line@,
                vars@, BlockKind::Execute),
        },
{
    let ac = rd.open.as_ref().unwrap();
    let ac_chars = chars_of(ac.as_str());
    let et = tag_text(ac_chars.as_slice(), true);
    if ends_with_chars(line, et.as_slice()) {
        let extra = vstd::slice::slice_subrange(line, 0, line.len() - et.len());
        if extra.len() > 0 {
            let piece = to_vec(extra);
            proof {
                lemma_map_push(rd.contents@, piece, |l: Vec<char>| l@);
            }
            rd.contents.push(piece);
        }
        return close_current(rd, vars);
    }
    let line_string = string_of(line);
    if get_end_tag(line_string.as_str(), ac.as_str()) {
        return close_current(rd, vars);
    }
    let piece = to_vec(line);
    proof {
        lemma_map_push(rd.contents@, piece, |l: Vec<char>| l@);
    }
    rd.contents.push(piece);
    Ok(())
}

/// The block of kind `k` on one line, between its tags.
fn one_line(k: BlockKind, text: &str, tag: &str, vars: &VariableMap) -> (r: Block)
    requires
        between_tags_ok(text@, tag@),
        lines_readable(seq![spec_between_tags(text@, tag@)], vars@),
    ensures
        r@ == block_of(k, seq![spec_between_tags(text@, tag@)], vars@),
{
    let inside = get_between_tags(text, tag);
    let mut one: Vec<Vec<char>> = Vec::new();
    one.push(chars_of(inside));
    assert(view_char_lines(one@) =~= seq![spec_between_tags(text@, tag@)]);
    into_block(k, &one, vars)
}

/// Reads a line outside any block.
fn read_outside(rd: &mut BlocksReader, line: &[char], vars: &VariableMap, filter_kind: BlockKind) -> (res: Result<(), String>)
    requires
        old(rd).open is None,
        old(rd).skipped is None,
        trim(line@).len() != 0,
        blocks_step(reader_state(*old(rd)), line@, vars@, filter_kind).ok,
    ensures
        match blocks_step(reader_state(*old(rd)), line@, vars@, filter_kind).err {
            Some(e) => res matches Err(m) && m@ == e,
            None => res is Ok && reader_state(*final(rd)) == blocks_step(reader_state(*old(rd)), line@,
                vars@, filter_kind),
        },
{
    let line_string = string_of(line);
    let text = line_string.as_str();
    let start_tag = match get_tag(text) {
        Some(t) => t,
        None => {
            let mut message = String::new();
            push_str(&mut message, "Expected a block tag, found: ");
            push_str(&mut message, text);
            return Err(message);
        },
    };
    let k = match BlockKind::from_tag(start_tag) {
        Ok(k) => k,
        Err(m) => return Err(m),
    };
    if k != filter_kind {
        if !get_end_tag(text, start_tag) {
            rd.skipped = Some(string_of(chars_of(start_tag).as_slice()));
        }
        return Ok(());
    }
    let tag_chars = chars_of(start_tag);
    let stt = tag_text(tag_chars.as_slice(), false);
    if starts_with_chars(line, stt.as_slice()) && line.len() > stt.len() {
        let extra = vstd::slice::slice_subrange(line, stt.len(), line.len());
        let extra_string = string_of(extra);
        if get_end_tag(extra_string.as_str(), start_tag) {
            let block = one_line(k, text, start_tag, vars);
            proof {
                lemma_map_push(rd.out@, block, |b: Block| b@);
            }
            rd.out.push(block);
            return Ok(());
        }
        let piece = to_vec(extra);
        proof {
            lemma_map_push(rd.contents@, piece, |l: Vec<char>| l@);
        }
        rd.contents.push(piece);
        rd.open = Some(string_of(tag_chars.as_slice()));
        rd.kind = Some(k);
        return Ok(());
    }
    if get_end_tag(text, start_tag) {
        let block = one_line(k, text, start_tag, vars);
        proof {
            lemma_map_push(rd.out@, block, |b: Block| b@);
        }
        rd.out.push(block);
        return Ok(());
    }
    rd.open = Some(string_of(tag_chars.as_slice()));
    rd.kind = Some(k);
    Ok(())
}

/// Reads one line; see [`blocks_step`].
fn read_line(rd: &mut BlocksReader, line: &[char], vars: &VariableMap, filter_kind: BlockKind) -> (res: Result<(), String>)
    requires
        blocks_step(reader_state(*old(rd)), line@, vars@, filter_kind).ok,
    ensures
        match blocks_step(reader_state(*old(rd)), line@, vars@, filter_kind).err {
            Some(e) => res matches Err(m) && m@ == e,
            None => res is Ok && reader_state(*final(rd)) == blocks_step(reader_state(*old(rd)), line@,
                vars@, filter_kind),
        },
{
    if trim_chars(line).len() == 0 {
        return Ok(());
    }
    if rd.skipped.is_some() {
        let line_string = string_of(line);
        let found = get_end_tag(line_string.as_str(), rd.skipped.as_ref().unwrap().as_str());
        if found {
            rd.skipped = None;
        }
        return Ok(());
    }
    if rd.open.is_some() {
        assert(blocks_step(reader_state(*rd), line@, vars@, filter_kind) == blocks_step(reader_state(*rd),
            line@, vars@, BlockKind::Execute));
        return read_in_block(rd, line, vars);
    }
    read_outside(rd, line, vars, filter_kind)
}

/// Reads the blocks of kind `filter_kind` of a program; see [`spec_parse_blocks`]. The
/// variables are only read.
pub fn parse_blocks(lines: &String, vars: &mut VariableMap, filter_kind: BlockKind) -> (r: Result<Vec<Block>, String>)
    requires
        blocks_readable(lines@, old(vars)@, filter_kind),
    ensures
        match spec_parse_blocks(lines@, old(vars)@, filter_kind) {
            Ok(bs) => r matches Ok(v) && view_blocks(v@) == bs,
            Err(e) => r matches Err(m) && m@ == e,
        },
        final(vars)@ == old(vars)@,
{
    let chars = chars_of(lines.as_str());
    let ls = lines_of(chars.as_slice());
    let ghost lv = ls@.map_values(|p: &[char]| p@);
    let ghost vm = vars@;
    let mut rd = BlocksReader {
        out: Vec::new(),
        open: None,
        skipped: None,
        kind: None,
        contents: Vec::new(),
    };
    assert(view_blocks(rd.out@) =~= Seq::<BlockModel>::empty());
    assert(view_char_lines(rd.contents@) =~= Seq::<Seq<char>>::empty());
    let mut i: usize = 0;
    while i < ls.len()
        invariant
            i <= ls@.len(),
            lv == ls@.map_values(|p: &[char]| p@),
            lv == spec_lines(lines@),
            vm == vars@,
            blocks_scan(lv, lv.len() as int, vm, filter_kind).ok,
            blocks_scan(lv, i as int, vm, filter_kind) == reader_state(rd),
        decreases ls@.len() - i,
    {
        let line = ls[i];
        assert(line@ == lv[i as int]);
        proof {
            lemma_blocks_ok(lv, i + 1, lv.len() as int, vm, filter_kind);
        }
        match read_line(&mut rd, line, vars, filter_kind) {
            Ok(()) => {},
            Err(m) => {
                proof {
                    lemma_blocks_err(lv, i + 1, lv.len() as int, vm, filter_kind);
                }
                return Err(m);
            },
        }
        i = i + 1;
    }
    match rd.open {
        Some(tag) => {
            let mut message = String::new();
            push_str(&mut message, "Unclosed <");
            push_str(&mut message, tag.as_str());
            push_str(&mut message, "> block");
            return Err(message);
        },
        None => {},
    }
    match rd.skipped {
        Some(tag) => {
            let mut message = String::new();
            push_str(&mut message, "Unclosed <");
            push_str(&mut message, tag.as_str());
            push_str(&mut message, "> block");
            return Err(message);
        },
        None => {},
    }
    Ok(rd.out)
}

/// Once an error has stopped the reading, later lines change nothing.
proof fn lemma_blocks_err(ls: Seq<Seq<char>>, i: int, n: int, vars: Seq<VariableModel>, filter: BlockKind)
    requires
        0 <= i <= n,
        blocks_scan(ls, i, vars, filter).err is Some,
    ensures
        blocks_scan(ls, n, vars, filter) == blocks_scan(ls, i, vars, filter),
    decreases n - i,
{
    if i < n {
        lemma_blocks_err(ls, i, n - 1, vars, filter);
    }
}

/// The block is of the given kind.
pub open spec fn block_has_kind(b: BlockModel, kind: BlockKind) -> bool {
    match kind {
        BlockKind::Execute => b is Execute,
        BlockKind::Define => b is Define,
    }
}

proof fn lemma_scan_keeps_kind(ls: Seq<Seq<char>>, n: int, vars: Seq<VariableModel>, filter: BlockKind)
    requires
        0 <= n <= ls.len(),
    ensures
        ({
            let st = blocks_scan(ls, n, vars, filter);
            &&& st.kind is Some ==> st.kind == Some(filter)
            &&& forall|i: int| 0 <= i < st.out.len() ==> block_has_kind(#[trigger] st.out[i], filter)
        }),
    decreases n,
{
    if n > 0 {
        lemma_scan_keeps_kind(ls, n - 1, vars, filter);
    }
}

/// Only blocks of the kind sought are read: every block that reading a program for the
/// kind `filter` gives is of that kind.
pub proof fn law_blocks_have_filtered_kind(text: Seq<char>, vars: Seq<VariableModel>, filter: BlockKind)
    ensures
        spec_parse_blocks(text, vars, filter) matches Ok(bs) ==> forall|i: int|
            0 <= i < bs.len() ==> block_has_kind(#[trigger] bs[i], filter),
{
    let ls = spec_lines(text);
    lemma_scan_keeps_kind(ls, ls.len() as int, vars, filter);
}

} // verus!
