//! Code blocks of a program: `<execute>`, `<execution_policy>` and `<define>` blocks,
//! each opened by its tag on a line and closed by the matching end tag.
use vstd::prelude::*;

use crate::text::{trim, trim_chars, chars_of, string_of, push_str, push_char, usize_to_text, decimal};
use crate::scan::{spec_lines, lines_of};
use crate::execution_policy::{ExecutionPolicy, PolicyModel, spec_change_policy};
use crate::runtime_error::{RuntimeError, ErrorType};

verus! {

/// Name for what `str::to_lowercase` gives for a text.
pub uninterp spec fn lowercase(s: Seq<char>) -> Seq<char>;

/// Calls `str::to_lowercase`.
#[verifier::external_body]
fn to_lowercase(s: &str) -> (r: String)
    ensures
        r@ == lowercase(s@),
{
    s.to_lowercase()
}

/// The kind of a code block.
#[derive(Debug, Clone, Copy, PartialEq, Eq, Structural)]
pub enum BlockType {
    Execute,
    ExecutionPolicy,
    Define,
    Unknown,
}

/// The kind named by a tag `<name>`, compared without regard to case. (The execution
/// policy kind is named `executionolicy`.)
pub open spec fn spec_block_type(tag: Seq<char>) -> BlockType {
    let name = lowercase(tag.subrange(1, tag.len() - 1));
    if name == "execute"@ {
        BlockType::Execute
    } else if name == "executionolicy"@ {
        BlockType::ExecutionPolicy
    } else if name == "define"@ {
        BlockType::Define
    } else {
        BlockType::Unknown
    }
}

/// The text can be cut between its first and its last character by byte position 1
/// and the byte length minus 1: both are one-byte characters, and there are two or more.
pub open spec fn tag_ends_are_ascii(s: Seq<char>) -> bool {
    s.len() >= 2 && (s[0] as u32) < 0x80 && (s.last() as u32) < 0x80
}

impl BlockType {
    /// The kind of block that the tag `s` opens; see [`spec_block_type`].
    pub fn parse(s: &str) -> (r: Self)
        requires
            tag_ends_are_ascii(s@),
        ensures
            r == spec_block_type(s@),
    {
        let n = s.unicode_len();
        let inner = s.substring_char(1, n - 1);
        let name = to_lowercase(inner);
        let chars = chars_of(name.as_str());
        if crate::text::chars_eq_str(chars.as_slice(), "execute") {
            BlockType::Execute
        } else if crate::text::chars_eq_str(chars.as_slice(), "executionolicy") {
            BlockType::ExecutionPolicy
        } else if crate::text::chars_eq_str(chars.as_slice(), "define") {
            BlockType::Define
        } else {
            BlockType::Unknown
        }
    }
}

/// A block of code: its kind and the text inside it.
#[derive(Debug)]
pub struct CodeBlock {
    block_type: BlockType,
    inside: String,
}

/// The mathematical value of a [`CodeBlock`].
pub struct CodeBlockModel {
    pub block_type: BlockType,
    pub inside: Seq<char>,
}

impl View for CodeBlock {
    type V = CodeBlockModel;

    closed spec fn view(&self) -> CodeBlockModel {
        CodeBlockModel { block_type: self.block_type, inside: self.inside@ }
    }
}

impl CodeBlock {
    pub fn new(inside: String, block_type: BlockType) -> (r: Self)
        ensures
            r@ == (CodeBlockModel { block_type, inside: inside@ }),
    {
        CodeBlock { inside, block_type }
    }

    pub fn get_inside(&self) -> (r: String)
        ensures
            r@ == self@.inside,
    {
        self.inside.clone()
    }

    pub fn get_block_type(&self) -> (r: BlockType)
        ensures
            r == self@.block_type,
    {
        self.block_type
    }
}

/// What a block does with its text instead of becoming a code block.
#[derive(Debug, Clone, Copy, PartialEq, Eq, Structural)]
pub enum SpecialHandler {
    /// The text sets the execution policy.
    ChangePolicy,
}

/// A kind of block the program may hold: the tag that opens it and, for a block that
/// is not kept as code, what handles its text.
#[derive(Debug)]
pub struct Block {
    definition: String,
    pub ep_special_handler: Option<SpecialHandler>,
}

/// The tags of the blocks, in the order in which they are tried.
pub open spec fn block_definitions() -> Seq<Seq<char>> {
    seq!["<execute>"@, "<execution_policy>"@, "<define>"@]
}

/// The end tag of a block: its tag with `/` after the `<`.
pub open spec fn end_quota(definition: Seq<char>) -> Seq<char> {
    definition.subrange(0, 1) + seq!['/'] + definition.subrange(1, definition.len() as int)
}

impl Block {
    #[verifier::type_invariant]
    spec fn well_formed(&self) -> bool {
        self.definition@.len() > 0 && self.definition@[0] == '<'
    }

    /// The tag that opens the block.
    pub closed spec fn definition_of(&self) -> Seq<char> {
        self.definition@
    }

    /// What handles the text of the block, if it is not kept as code.
    pub closed spec fn handler_of(&self) -> Option<SpecialHandler> {
        self.ep_special_handler
    }

    /// The kinds of blocks: `<execute>`, `<execution_policy>` (handled by the policy) and
    /// `<define>`.
    pub fn init() -> (r: Vec<Self>)
        ensures
            r@.len() == 3,
            forall|i: int| 0 <= i < 3 ==> (#[trigger] r@[i]).definition_of() == block_definitions()[i],
            r@[0].handler_of() is None,
            r@[1].handler_of() == Some(SpecialHandler::ChangePolicy),
            r@[2].handler_of() is None,
    {
        proof {
            reveal_strlit("<execute>");
            reveal_strlit("<execution_policy>");
            reveal_strlit("<define>");
        }
        let mut out = Vec::new();
        out.push(Block { definition: "<execute>".to_owned(), ep_special_handler: None });
        out.push(
            Block {
                definition: "<execution_policy>".to_owned(),
                ep_special_handler: Some(SpecialHandler::ChangePolicy),
            },
        );
        out.push(Block { definition: "<define>".to_owned(), ep_special_handler: None });
        out
    }

    pub fn match_block(&self, quota: String) -> (r: bool)
        ensures
            r == (self.definition_of() == quota@),
    {
        self.definition == quota
    }

    pub fn get_end_quota(&self) -> (r: String)
        ensures
            r@ == end_quota(self.definition_of()),
    {
        proof {
            use_type_invariant(self);
        }
        let chars = chars_of(self.definition.as_str());
        let mut b = String::new();
        push_char(&mut b, chars[0]);
        push_char(&mut b, '/');
        let rest = string_of(vstd::slice::slice_subrange(chars.as_slice(), 1, chars.len()));
        push_str(&mut b, rest.as_str());
        assert(b@ =~= end_quota(self.definition_of()));
        b
    }
}

} // verus!

verus! {

/// Lines joined with line breaks between them.
pub open spec fn join_lines(ls: Seq<Seq<char>>) -> Seq<char>
    decreases ls.len(),
{
    if ls.len() == 0 {
        Seq::empty()
    } else if ls.len() == 1 {
        ls[0]
    } else {
        join_lines(ls.drop_last()) + seq!['\n'] + ls.last()
    }
}

/// The code blocks found so far, the policy, and the error that stopped the search.
pub struct ParseScan {
    pub blocks: Seq<CodeBlockModel>,
    pub policy: PolicyModel,
    pub err: Option<(Seq<char>, ErrorType)>,
}

/// The first line after line `i` that is the end tag `q` once trimmed.
pub open spec fn find_end(lines: Seq<Seq<char>>, i: int, q: Seq<char>) -> Option<int> {
    crate::scan::first_index(lines.len() as int, |j: int| i < j && trim(lines[j]) == q)
}

/// What the search does with line `i`. A line that is a block tag once trimmed opens a
/// block that ends at the first later line that is its end tag; the lines between are
/// the block's text. The text of an execution policy block is read into the policy; any
/// other block becomes a code block of the kind its tag line names. A tag without an end
/// tag is a code block parse error, handled by the policy.
pub open spec fn parse_step(lines: Seq<Seq<char>>, i: int, st: ParseScan) -> ParseScan {
    let line = lines[i];
    let t = trim(line);
    if !block_definitions().contains(t) {
        st
    } else {
        let q = end_quota(t);
        match find_end(lines, i, q) {
            Some(j) => {
                let inside = join_lines(lines.subrange(i + 1, j));
                if t == "<execution_policy>"@ {
                    let (p, e) = spec_change_policy(st.policy, inside);
                    match e {
                        None => ParseScan { policy: p, ..st },
                        Some(m) => ParseScan {
                            policy: p,
                            err: Some(
                                (
                                    "Failed to parse "@ + line + " block starting at line "@
                                        + decimal((i + 1) as nat) + ": "@ + m,
                                    ErrorType::AlwaysError,
                                ),
                            ),
                            ..st
                        },
                    }
                } else {
                    let bt = spec_block_type(line);
                    if bt == BlockType::Unknown {
                        ParseScan {
                            err: Some(("Unknown BlockType: "@ + line, ErrorType::AlwaysError)),
                            ..st
                        }
                    } else {
                        ParseScan {
                            blocks: st.blocks.push(CodeBlockModel { block_type: bt, inside }),
                            ..st
                        }
                    }
                }
            },
            None => if st.policy.halt_on_parse_error {
                ParseScan {
                    err: Some(
                        (
                            "Missing end quota at line "@ + decimal((i + 1) as nat) + " for "@ + line
                                + ": "@ + q,
                            ErrorType::OnCodeBlockParseError,
                        ),
                    ),
                    ..st
                }
            } else {
                st
            },
        }
    }
}

/// The search after the first `n` lines, starting from the policy `p`; it stops at the
/// first error.
pub open spec fn parse_scan(lines: Seq<Seq<char>>, n: int, p: PolicyModel) -> ParseScan
    decreases n,
{
    if n <= 0 {
        ParseScan { blocks: Seq::empty(), policy: p, err: None }
    } else {
        let st = parse_scan(lines, n - 1, p);
        if st.err is Some {
            st
        } else {
            parse_step(lines, n - 1, st)
        }
    }
}

/// The search over all lines of `raw`.
pub open spec fn spec_attempt_parse(raw: Seq<char>, p: PolicyModel) -> ParseScan {
    parse_scan(spec_lines(raw), spec_lines(raw).len() as int, p)
}

/// Every tag line whose kind is read (a code block tag with its end tag, reached by the
/// search) begins and ends with a one-byte character.
pub open spec fn tag_lines_readable(raw: Seq<char>, p: PolicyModel) -> bool {
    let lines = spec_lines(raw);
    forall|i: int|
        0 <= i < lines.len() && (#[trigger] parse_scan(lines, i, p)).err is None && (trim(lines[i])
            == "<execute>"@ || trim(lines[i]) == "<define>"@) && find_end(lines, i, end_quota(
            trim(lines[i]),
        )) is Some ==> tag_ends_are_ascii(lines[i])
}

pub open spec fn view_code_blocks(v: Seq<CodeBlock>) -> Seq<CodeBlockModel> {
    v.map_values(|b: CodeBlock| b@)
}

fn join(ls: &[&[char]]) -> (r: String)
    ensures
        r@ == join_lines(ls@.map_values(|p: &[char]| p@)),
{
    let ghost v = ls@.map_values(|p: &[char]| p@);
    let mut out = String::new();
    let mut k: usize = 0;
    while k < ls.len()
        invariant
            v == ls@.map_values(|p: &[char]| p@),
            k <= ls@.len(),
            out@ == join_lines(v.take(k as int)),
        decreases ls@.len() - k,
    {
        if k > 0 {
            push_char(&mut out, '\n');
        }
        let piece = string_of(ls[k]);
        push_str(&mut out, piece.as_str());
        proof {
            assert(v.take(k + 1).drop_last() =~= v.take(k as int));
            if k == 0 {
                assert(out@ =~= v.take(1)[0]);
            }
        }
        k = k + 1;
    }
    assert(v.take(ls@.len() as int) =~= v);
    out
}

/// Finds the code blocks of a program text, reading execution policy blocks into the
/// policy; see [`parse_step`].
pub fn attempt_parse(raw: String, policy: &mut ExecutionPolicy) -> (r: Result<Vec<CodeBlock>, RuntimeError>)
    requires
        tag_lines_readable(raw@, old(policy)@),
    ensures
        final(policy)@ == spec_attempt_parse(raw@, old(policy)@).policy,
        match spec_attempt_parse(raw@, old(policy)@).err {
            None => r matches Ok(v) && view_code_blocks(v@) == spec_attempt_parse(raw@, old(policy)@).blocks,
            Some((m, k)) => r matches Err(e) && e.message_of() == m && e.kind_of() == k,
        },
{
    let blocks = Block::init();
    let chars = chars_of(raw.as_str());
    let lines = lines_of(chars.as_slice());
    let ghost ls = lines@.map_values(|p: &[char]| p@);
    let ghost p0 = policy@;
    let mut code_blocks: Vec<CodeBlock> = Vec::new();
    assert(view_code_blocks(code_blocks@) =~= Seq::<CodeBlockModel>::empty());
    let mut i: usize = 0;
    while i < lines.len()
        invariant
            ls == lines@.map_values(|p: &[char]| p@),
            ls == spec_lines(raw@),
            i <= lines@.len(),
            tag_lines_readable(raw@, p0),
            p0 == old(policy)@,
            parse_scan(ls, i as int, p0) == (ParseScan {
                blocks: view_code_blocks(code_blocks@),
                policy: policy@,
                err: None,
            }),
            blocks@.len() == 3,
            forall|k: int| 0 <= k < 3 ==> (#[trigger] blocks@[k]).definition_of() == block_definitions()[k],
            blocks@[0].handler_of() is None,
            blocks@[1].handler_of() == Some(SpecialHandler::ChangePolicy),
            blocks@[2].handler_of() is None,
        decreases lines@.len() - i,
    {
        let line = lines[i];
        assert(line@ == ls[i as int]);
        let t = trim_chars(line);
        let t_text = string_of(t);
        let mut found: Option<usize> = None;
        let mut b: usize = 0;
        while b < 3
            invariant
                b <= 3,
                blocks@.len() == 3,
                t_text@ == t@,
                match found {
                    Some(k) => k < 3 && blocks@[k as int].definition_of() == t@,
                    None => forall|k: int| 0 <= k < b ==> (#[trigger] blocks@[k]).definition_of() != t@,
                },
            decreases 3 - b,
        {
            if found.is_none() && blocks[b].match_block(t_text.clone()) {
                found = Some(b);
            }
            b = b + 1;
        }
        let ghost st = parse_scan(ls, i as int, p0);
        if let Some(k) = found {
            let block = &blocks[k];
            assert(block_definitions().contains(t@)) by {
                assert(block_definitions()[k as int] == t@);
            }
            let end = block.get_end_quota();
            let end_chars = chars_of(end.as_str());
            let mut j: usize = i + 1;
            let ghost pe = |jj: int| (i as int) < jj && trim(ls[jj]) == end_quota(t@);
            while j < lines.len() && !crate::psycho_parser::chars_eq(trim_chars(lines[j]), end_chars.as_slice())
                invariant
                    i < j <= lines@.len(),
                    ls == lines@.map_values(|p: &[char]| p@),
                    end_chars@ == end_quota(t@),
                    pe == (|jj: int| (i as int) < jj && trim(ls[jj]) == end_quota(t@)),
                    forall|jj: int| 0 <= jj < j ==> !#[trigger] pe(jj),
                decreases lines@.len() - j,
            {
                j = j + 1;
            }
            proof {
                crate::scan::lemma_first_index(ls.len() as int, pe);
            }
            if j < lines.len() {
                proof {
                    crate::scan::lemma_first_index_is(ls.len() as int, pe, j as int);
                    assert(find_end(ls, i as int, end_quota(t@)) == Some(j as int));
                }
                let between = vstd::slice::slice_subrange(lines.as_slice(), i + 1, j);
                assert(between@.map_values(|p: &[char]| p@) =~= ls.subrange(i + 1, j as int));
                let inside = join(between);
                if k == 1 {
                    assert(t@ == "<execution_policy>"@);
                    match policy.change_policy(inside) {
                        Ok(()) => {},
                        Err(error) => {
                            let mut m = String::new();
                            push_str(&mut m, "Failed to parse ");
                            let start_quota = string_of(line);
                            push_str(&mut m, start_quota.as_str());
                            push_str(&mut m, " block starting at line ");
                            let number = usize_to_text(i + 1);
                            push_str(&mut m, number.as_str());
                            push_str(&mut m, ": ");
                            push_str(&mut m, error.as_str());
                            let ghost mv = m@;
                            let e = RuntimeError::new(m, ErrorType::AlwaysError);
                            proof {
                                let nst = parse_step(ls, i as int, st);
                                assert(nst.err == Some((mv, ErrorType::AlwaysError)));
                                lemma_parse_scan_stops(ls, i as int + 1, ls.len() as int, p0);
                            }
                            return Err(e);
                        },
                    }
                } else {
                    proof {
                        reveal_strlit("<execute>");
                        reveal_strlit("<execution_policy>");
                        reveal_strlit("<define>");
                        assert(t@ == block_definitions()[k as int]);
                        assert(block_definitions()[1] != block_definitions()[0]);
                        assert(block_definitions()[1] != block_definitions()[2]);
                    }
                    assert(t@ == "<execute>"@ || t@ == "<define>"@);
                    let start_quota = string_of(line);
                    let code_block_type = BlockType::parse(start_quota.as_str());
                    if code_block_type == BlockType::Unknown {
                        let mut m = String::new();
                        push_str(&mut m, "Unknown BlockType: ");
                        push_str(&mut m, start_quota.as_str());
                        let e = RuntimeError::new(m, ErrorType::AlwaysError);
                        proof {
                            lemma_parse_scan_stops(ls, i as int + 1, ls.len() as int, p0);
                        }
                        return Err(e);
                    }
                    let cb = CodeBlock::new(inside, code_block_type);
                    proof {
                        crate::scan::lemma_map_push(code_blocks@, cb, |b: CodeBlock| b@);
                    }
                    code_blocks.push(cb);
                }
            } else {
                proof {
                    assert(find_end(ls, i as int, end_quota(t@)) is None);
                }
                let mut m = String::new();
                push_str(&mut m, "Missing end quota at line ");
                let number = usize_to_text(i + 1);
                push_str(&mut m, number.as_str());
                push_str(&mut m, " for ");
                let start_quota = string_of(line);
                push_str(&mut m, start_quota.as_str());
                push_str(&mut m, ": ");
                push_str(&mut m, end.as_str());
                let e = RuntimeError::new(m, ErrorType::OnCodeBlockParseError);
                match policy.handle_error(e) {
                    Ok(_) => {},
                    Err(e) => {
                        proof {
                            lemma_parse_scan_stops(ls, i as int + 1, ls.len() as int, p0);
                        }
                        return Err(e);
                    },
                }
            }
        } else {
            assert(!block_definitions().contains(t@)) by {
                if block_definitions().contains(t@) {
                    let k = choose|k: int| 0 <= k < 3 && block_definitions()[k] == t@;
                    assert(blocks@[k].definition_of() != t@);
                }
            }
        }
        i = i + 1;
    }
    Ok(code_blocks)
}

/// Once the search stops on an error, later lines change nothing.
proof fn lemma_parse_scan_stops(lines: Seq<Seq<char>>, n: int, m: int, p: PolicyModel)
    requires
        0 <= n <= m,
        parse_scan(lines, n, p).err is Some,
    ensures
        parse_scan(lines, m, p) == parse_scan(lines, n, p),
    decreases m - n,
{
    if m > n {
        lemma_parse_scan_stops(lines, n, m - 1, p);
    }
}

} // verus!
