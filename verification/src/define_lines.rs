//! The keywords of a statement (`print`, `println`, `let`, and giving a variable a new
//! value) and how each reads the rest of its statement.
use vstd::prelude::*;
use vstd::slice::slice_subrange;

use crate::text::{trim, trim_chars, chars_of, string_of, chars_eq_str, push_str};
use crate::variable::{first_equals, find_equals_sign};
use crate::alu::{Expression, ExprModel, CalcError, CalcErrorModel, spec_calculator_parse, attempt_calculator_parse};
use crate::logic::{LogicExpression, LExprModel, LogicError, LErrorModel, spec_logic_parse, attempt_logic_parse};
use crate::var_handler::{Value, ValueModel, Var, VarMap, spec_parse_type, parse_type};
use crate::blocks::BlockType;
use crate::runtime_error::{RuntimeError, ErrorType};
use crate::execution_policy::ExecutionPolicy;

verus! {

/// Why a statement could not be read: a message, or the error of the calculator or of
/// the logic expression reader.
#[derive(Debug)]
pub enum ParseFailure {
    Message(String),
    Calculator(CalcError),
    Logic(LogicError),
}

/// The mathematical value of a [`ParseFailure`].
pub enum FailureModel {
    Message(Seq<char>),
    Calculator(CalcErrorModel),
    Logic(LErrorModel),
}

impl View for ParseFailure {
    type V = FailureModel;

    open spec fn view(&self) -> FailureModel {
        match self {
            ParseFailure::Message(m) => FailureModel::Message(m@),
            ParseFailure::Calculator(e) => FailureModel::Calculator(e@),
            ParseFailure::Logic(e) => FailureModel::Logic(e@),
        }
    }
}

/// A parameter of a statement, as its keyword read it.
#[derive(Debug)]
pub enum Param {
    Text(String),
    /// A number, by its numeral, to be shown as the number it stands for.
    Number(String),
    Alu(Expression),
    Var(Var),
}

/// The mathematical value of a [`Param`].
pub enum ParamModel {
    Text(Seq<char>),
    Number(Seq<char>),
    Alu(ExprModel),
    Var(ValueModel),
}

impl View for Param {
    type V = ParamModel;

    open spec fn view(&self) -> ParamModel {
        match self {
            Param::Text(t) => ParamModel::Text(t@),
            Param::Number(n) => ParamModel::Number(n@),
            Param::Alu(e) => ParamModel::Alu(e@),
            Param::Var(v) => ParamModel::Var(v@),
        }
    }
}

pub open spec fn view_params(v: Seq<Param>) -> Seq<ParamModel> {
    v.map_values(|p: Param| p@)
}

/// What a keyword read from a statement: its parameters, or why it could not.
#[derive(Debug)]
pub enum ParseResult {
    StandardOut(Vec<Param>),
    ParseError(ParseFailure),
}

/// The mathematical value of a [`ParseResult`].
pub enum ResultModel {
    StandardOut(Seq<ParamModel>),
    ParseError(FailureModel),
}

impl View for ParseResult {
    type V = ResultModel;

    open spec fn view(&self) -> ResultModel {
        match self {
            ParseResult::StandardOut(v) => ResultModel::StandardOut(view_params(v@)),
            ParseResult::ParseError(e) => ResultModel::ParseError(e@),
        }
    }
}

/// The text starts with a double quote and what follows ends with one.
pub open spec fn is_quoted_text(a: Seq<char>) -> bool {
    a.len() >= 2 && a[0] == '"' && a.last() == '"'
}

/// The parameters of a statement that writes `a`: the text between quotes; a variable
/// (`print` takes the variable, `println` how it is shown); else a calculation.
pub open spec fn spec_print_argument(a: Seq<char>, vars: Map<Seq<char>, ValueModel>, line_end: bool) -> ResultModel {
    if is_quoted_text(a) {
        ResultModel::StandardOut(seq![ParamModel::Text(a.subrange(1, a.len() - 1))])
    } else if vars.contains_key(a) {
        if !line_end {
            ResultModel::StandardOut(seq![ParamModel::Var(vars[a])])
        } else {
            match vars[a] {
                ValueModel::Undefined => ResultModel::StandardOut(seq![ParamModel::Text(Seq::empty()), ParamModel::Text("true"@)]),
                ValueModel::String(s) => ResultModel::StandardOut(seq![ParamModel::Text(s)]),
                ValueModel::Bool(b) => ResultModel::StandardOut(seq![ParamModel::Text(if b { "true"@ } else { "false"@ })]),
                ValueModel::Number(n) => ResultModel::StandardOut(seq![ParamModel::Number(n)]),
            }
        }
    } else {
        match spec_calculator_parse(a, vars) {
            ExprModel::Error(e) => ResultModel::ParseError(FailureModel::Calculator(e)),
            x => ResultModel::StandardOut(seq![ParamModel::Alu(x)]),
        }
    }
}

/// A `print` statement: what follows `print`, trimmed; see [`spec_print_argument`].
pub open spec fn spec_parse_print(line: Seq<char>, vars: Map<Seq<char>, ValueModel>) -> ResultModel {
    spec_print_argument(trim(line.subrange(5, line.len() as int)), vars, false)
}

/// A `println` statement: what follows `println`, trimmed; see [`spec_print_argument`].
pub open spec fn spec_parse_println(line: Seq<char>, vars: Map<Seq<char>, ValueModel>) -> ResultModel {
    spec_print_argument(trim(line.subrange(7, line.len() as int)), vars, true)
}

pub open spec fn message(m: Seq<char>) -> ResultModel {
    ResultModel::ParseError(FailureModel::Message(m))
}

/// A `let` statement: `let undefined name`, or `let name = value` with a name and a value
/// of a known type (one `;` at the end is dropped). The parameters are the name, the
/// value and whether it is defined.
pub open spec fn spec_parse_let(line: Seq<char>) -> ResultModel {
    if !(line.len() >= 4 && line.subrange(0, 4) == "let "@) {
        message("expected `let`"@)
    } else {
        let rest = line.subrange(4, line.len() as int);
        let body = if rest.len() > 0 && rest.last() == ';' {
            rest.drop_last()
        } else {
            rest
        };
        if body.len() >= 10 && body.subrange(0, 10) == "undefined "@ {
            ResultModel::StandardOut(seq![
                ParamModel::Text(trim(body.subrange(10, body.len() as int))),
                ParamModel::Text("N/A"@),
                ParamModel::Text(Seq::empty()),
            ])
        } else {
            match first_equals(body) {
                None => message("missing `=`"@),
                Some(i) => {
                    let name = trim(body.subrange(0, i));
                    let value = trim(body.subrange(i + 1, body.len() as int));
                    if name.len() == 0 {
                        message("missing variable name"@)
                    } else if value.len() == 0 {
                        message("missing variable value"@)
                    } else {
                        match spec_parse_type(value, false) {
                            Err(m) => message(m),
                            Ok(_) => ResultModel::StandardOut(seq![
                                ParamModel::Text(name),
                                ParamModel::Text(value),
                                ParamModel::Text("DEFINED"@),
                            ]),
                        }
                    }
                },
            }
        }
    }
}

/// A statement giving a variable a new value, `name = value`: a value of a known type is
/// taken as written; otherwise the right side must read as a logic expression and is
/// taken as a calculation. Without `=` the parameter is the text `Problem`.
pub open spec fn spec_parse_set_value(line: Seq<char>, vars: Map<Seq<char>, ValueModel>) -> ResultModel {
    match first_equals(line) {
        None => ResultModel::StandardOut(seq![ParamModel::Text("Problem"@)]),
        Some(i) => {
            let var = line.subrange(0, i);
            let value = line.subrange(i + 1, line.len() as int);
            if spec_parse_type(value, false) is Ok {
                ResultModel::StandardOut(seq![ParamModel::Text(trim(var)), ParamModel::Text(trim(value))])
            } else {
                match spec_logic_parse(value, vars) {
                    LExprModel::Error(e) => ResultModel::ParseError(FailureModel::Logic(e)),
                    _ => match spec_calculator_parse(value, vars) {
                        ExprModel::Error(e) => ResultModel::ParseError(FailureModel::Calculator(e)),
                        x => ResultModel::StandardOut(seq![ParamModel::Text(trim(var)), ParamModel::Alu(x)]),
                    },
                }
            }
        },
    }
}

/// A one-parameter result.
fn single(p: Param) -> (r: ParseResult)
    ensures
        r@ == ResultModel::StandardOut(seq![p@]),
{
    let mut v: Vec<Param> = Vec::new();
    v.push(p);
    assert(view_params(v@) =~= seq![p@]);
    ParseResult::StandardOut(v)
}

/// A failure with the given message.
fn failure(m: &str) -> (r: ParseResult)
    ensures
        r@ == message(m@),
{
    ParseResult::ParseError(ParseFailure::Message(string_of(chars_of(m).as_slice())))
}

/// Reads the argument of a statement that writes; see [`spec_print_argument`].
fn print_argument(a: &[char], vars: &VarMap, line_end: bool) -> (r: ParseResult)
    ensures
        r@ == spec_print_argument(a@, vars@, line_end),
{
    let n = a.len();
    if n >= 2 && a[0] == '"' && a[n - 1] == '"' {
        return single(Param::Text(string_of(slice_subrange(a, 1, n - 1))));
    }
    let name = string_of(a);
    match vars.get_pure_var(name.clone()) {
        Some(var) => {
            if !line_end {
                return single(Param::Var(var));
            }
            return match var.get_value() {
                Value::Undefined => {
                    let mut v: Vec<Param> = Vec::new();
                    v.push(Param::Text(String::new()));
                    v.push(Param::Text(string_of(chars_of("true").as_slice())));
                    assert(view_params(v@) =~= seq![ParamModel::Text(Seq::empty()), ParamModel::Text("true"@)]);
                    ParseResult::StandardOut(v)
                },
                Value::String(s) => single(Param::Text(s.clone())),
                Value::Bool(b) => {
                    let t = if *b { "true" } else { "false" };
                    single(Param::Text(string_of(chars_of(t).as_slice())))
                },
                Value::Number(n) => single(Param::Number(n.clone())),
            };
        },
        None => {},
    }
    match attempt_calculator_parse(name, vars) {
        Expression::Error(e) => ParseResult::ParseError(ParseFailure::Calculator(e)),
        x => single(Param::Alu(x)),
    }
}

/// Reads a `print` statement; see [`spec_parse_print`].
pub fn parse_print(line: &[char], vars: &VarMap) -> (r: ParseResult)
    requires
        line@.len() >= 5 && line@.subrange(0, 5) == "print"@,
    ensures
        r@ == spec_parse_print(line@, vars@),
{
    let a = trim_chars(slice_subrange(line, 5, line.len()));
    print_argument(a, vars, false)
}

/// Reads a `println` statement; see [`spec_parse_println`].
pub fn parse_println(line: &[char], vars: &VarMap) -> (r: ParseResult)
    requires
        line@.len() >= 7 && line@.subrange(0, 7) == "println"@,
    ensures
        r@ == spec_parse_println(line@, vars@),
{
    let a = trim_chars(slice_subrange(line, 7, line.len()));
    print_argument(a, vars, true)
}

/// Reads a `let` statement; see [`spec_parse_let`].
pub fn parse_let(line: &[char]) -> (r: ParseResult)
    ensures
        r@ == spec_parse_let(line@),
{
    if !(line.len() >= 4 && chars_eq_str(slice_subrange(line, 0, 4), "let ")) {
        return failure("expected `let`");
    }
    let rest = slice_subrange(line, 4, line.len());
    let body = if rest.len() > 0 && rest[rest.len() - 1] == ';' {
        slice_subrange(rest, 0, rest.len() - 1)
    } else {
        rest
    };
    if body.len() >= 10 && chars_eq_str(slice_subrange(body, 0, 10), "undefined ") {
        let name = trim_chars(slice_subrange(body, 10, body.len()));
        let mut v: Vec<Param> = Vec::new();
        v.push(Param::Text(string_of(name)));
        v.push(Param::Text(string_of(chars_of("N/A").as_slice())));
        v.push(Param::Text(String::new()));
        assert(view_params(v@) =~= seq![
            ParamModel::Text(name@),
            ParamModel::Text("N/A"@),
            ParamModel::Text(Seq::empty()),
        ]);
        return ParseResult::StandardOut(v);
    }
    let i = match find_equals_sign(body) {
        Some(i) => i,
        None => return failure("missing `=`"),
    };
    let name = trim_chars(slice_subrange(body, 0, i));
    let value = trim_chars(slice_subrange(body, i + 1, body.len()));
    if name.len() == 0 {
        return failure("missing variable name");
    }
    if value.len() == 0 {
        return failure("missing variable value");
    }
    let value_string = string_of(value);
    match parse_type(value_string.as_str(), false) {
        Err(m) => ParseResult::ParseError(ParseFailure::Message(m)),
        Ok(_) => {
            let mut v: Vec<Param> = Vec::new();
            v.push(Param::Text(string_of(name)));
            v.push(Param::Text(value_string));
            v.push(Param::Text(string_of(chars_of("DEFINED").as_slice())));
            assert(view_params(v@) =~= seq![
                ParamModel::Text(name@),
                ParamModel::Text(value@),
                ParamModel::Text("DEFINED"@),
            ]);
            ParseResult::StandardOut(v)
        },
    }
}

/// Reads a statement that gives a variable a new value; see [`spec_parse_set_value`].
pub fn parse_set_value(line: &[char], vars: &VarMap) -> (r: ParseResult)
    ensures
        r@ == spec_parse_set_value(line@, vars@),
{
    let i = match find_equals_sign(line) {
        Some(i) => i,
        None => return single(Param::Text(string_of(chars_of("Problem").as_slice()))),
    };
    let var = slice_subrange(line, 0, i);
    assert(i < line.len());
    let value = slice_subrange(line, i + 1, line.len());
    let value_string = string_of(value);
    if parse_type(value_string.as_str(), false).is_ok() {
        let mut v: Vec<Param> = Vec::new();
        v.push(Param::Text(string_of(trim_chars(var))));
        v.push(Param::Text(string_of(trim_chars(value))));
        assert(view_params(v@) =~= seq![ParamModel::Text(trim(var@)), ParamModel::Text(trim(value@))]);
        return ParseResult::StandardOut(v);
    }
    match attempt_logic_parse(value_string.clone(), vars) {
        LogicExpression::Error(e) => return ParseResult::ParseError(ParseFailure::Logic(e)),
        _ => {},
    }
    match attempt_calculator_parse(value_string, vars) {
        Expression::Error(e) => ParseResult::ParseError(ParseFailure::Calculator(e)),
        x => {
            let mut v: Vec<Param> = Vec::new();
            v.push(Param::Text(string_of(trim_chars(var))));
            v.push(Param::Alu(x));
            assert(view_params(v@) =~= seq![ParamModel::Text(trim(var@)), ParamModel::Alu(x@)]);
            ParseResult::StandardOut(v)
        },
    }
}

/// The keywords of statements.
#[derive(Debug, Clone, Copy, PartialEq, Eq, Structural)]
pub enum KeywordKind {
    Print,
    Println,
    Let,
    SetValue,
}

/// A keyword: the word that starts its statements, what it is, and the kinds of block it
/// may stand in.
#[derive(Debug)]
pub struct Keyword {
    pub definition: String,
    pub kind: KeywordKind,
    pub allowed_in: Vec<BlockType>,
}

/// The mathematical value of a [`Keyword`].
pub struct KeywordModel {
    pub definition: Seq<char>,
    pub kind: KeywordKind,
    pub allowed_in: Seq<BlockType>,
}

impl View for Keyword {
    type V = KeywordModel;

    open spec fn view(&self) -> KeywordModel {
        KeywordModel { definition: self.definition@, kind: self.kind, allowed_in: self.allowed_in@ }
    }
}

/// The keyword of each kind: `print`, `println` and giving a variable a new value in
/// `<execute>` blocks, `let` in `<define>` blocks.
pub open spec fn keyword_of(kind: KeywordKind) -> KeywordModel {
    match kind {
        KeywordKind::Print => KeywordModel { definition: "print"@, kind, allowed_in: seq![BlockType::Execute] },
        KeywordKind::Println => KeywordModel { definition: "println"@, kind, allowed_in: seq![BlockType::Execute] },
        KeywordKind::Let => KeywordModel { definition: "let"@, kind, allowed_in: seq![BlockType::Define] },
        KeywordKind::SetValue => KeywordModel { definition: "Set Value"@, kind, allowed_in: seq![BlockType::Execute] },
    }
}

/// The keywords, in the order they are looked up.
pub open spec fn keyword_table() -> Seq<KeywordModel> {
    seq![
        keyword_of(KeywordKind::Print),
        keyword_of(KeywordKind::Println),
        keyword_of(KeywordKind::Let),
        keyword_of(KeywordKind::SetValue),
    ]
}

/// What a keyword reads from a statement.
pub open spec fn spec_keyword_parse(kind: KeywordKind, line: Seq<char>, vars: Map<Seq<char>, ValueModel>) -> ResultModel {
    match kind {
        KeywordKind::Print => spec_parse_print(line, vars),
        KeywordKind::Println => spec_parse_println(line, vars),
        KeywordKind::Let => spec_parse_let(line),
        KeywordKind::SetValue => spec_parse_set_value(line, vars),
    }
}

/// A keyword can read the statement: `print` and `println` statements start with their
/// keyword.
pub open spec fn keyword_parse_readable(kind: KeywordKind, line: Seq<char>) -> bool {
    match kind {
        KeywordKind::Print => line.len() >= 5 && line.subrange(0, 5) == "print"@,
        KeywordKind::Println => line.len() >= 7 && line.subrange(0, 7) == "println"@,
        _ => true,
    }
}

impl Keyword {
    /// The keyword of the given kind; see [`keyword_of`].
    pub fn of_kind(kind: KeywordKind) -> (r: Keyword)
        ensures
            r@ == keyword_of(kind),
    {
        let (word, block) = match kind {
            KeywordKind::Print => ("print", BlockType::Execute),
            KeywordKind::Println => ("println", BlockType::Execute),
            KeywordKind::Let => ("let", BlockType::Define),
            KeywordKind::SetValue => ("Set Value", BlockType::Execute),
        };
        let mut allowed_in: Vec<BlockType> = Vec::new();
        allowed_in.push(block);
        assert(allowed_in@ =~= keyword_of(kind).allowed_in);
        Keyword { definition: string_of(chars_of(word).as_slice()), kind, allowed_in }
    }

    /// The keywords; see [`keyword_table`].
    pub fn init() -> (r: Vec<Keyword>)
        ensures
            r@.map_values(|k: Keyword| k@) == keyword_table(),
            r@.len() == 4,
            forall|j: int| 0 <= j < 4 ==> #[trigger] r@[j]@ == keyword_table()[j],
    {
        let mut out: Vec<Keyword> = Vec::new();
        out.push(Keyword::of_kind(KeywordKind::Print));
        out.push(Keyword::of_kind(KeywordKind::Println));
        out.push(Keyword::of_kind(KeywordKind::Let));
        out.push(Keyword::of_kind(KeywordKind::SetValue));
        assert(out@.map_values(|k: Keyword| k@) =~= keyword_table());
        out
    }

    /// A copy of the keyword.
    pub fn duplicate(&self) -> (r: Keyword)
        ensures
            r@ == self@,
    {
        let mut allowed_in: Vec<BlockType> = Vec::new();
        let mut i: usize = 0;
        while i < self.allowed_in.len()
            invariant
                i <= self.allowed_in@.len(),
                allowed_in@ == self.allowed_in@.subrange(0, i as int),
            decreases self.allowed_in@.len() - i,
        {
            allowed_in.push(self.allowed_in[i]);
            i = i + 1;
        }
        assert(self.allowed_in@.subrange(0, self.allowed_in@.len() as int) == self.allowed_in@);
        Keyword { definition: self.definition.clone(), kind: self.kind, allowed_in }
    }

    /// Whether the keyword may stand in a block of the given kind.
    pub fn allowed(&self, block_type: BlockType) -> (r: bool)
        ensures
            r == self@.allowed_in.contains(block_type),
    {
        let mut i: usize = 0;
        while i < self.allowed_in.len()
            invariant
                i <= self.allowed_in@.len(),
                forall|j: int| 0 <= j < i ==> self.allowed_in@[j] != block_type,
            decreases self.allowed_in@.len() - i,
        {
            if self.allowed_in[i] == block_type {
                assert(self.allowed_in@[i as int] == block_type);
                return true;
            }
            i = i + 1;
        }
        false
    }

    /// Reads a statement of this keyword; see [`spec_keyword_parse`].
    pub fn parse(&self, line: &[char], vars: &VarMap) -> (r: ParseResult)
        requires
            keyword_parse_readable(self.kind, line@),
        ensures
            r@ == spec_keyword_parse(self.kind, line@, vars@),
    {
        match self.kind {
            KeywordKind::Print => parse_print(line, vars),
            KeywordKind::Println => parse_println(line, vars),
            KeywordKind::Let => parse_let(line),
            KeywordKind::SetValue => parse_set_value(line, vars),
        }
    }
}

/// What a `print` or `println` statement writes.
#[derive(Debug)]
pub enum PrintAction {
    /// This text.
    Text(String),
    /// The number of this numeral.
    Number(String),
    /// This value.
    Value(Value),
    /// The result of the calculation that is the first parameter.
    Calculate,
}

/// The error for a statement that writes but has nothing it can write.
pub open spec fn unknown_print_error() -> Seq<char> {
    "An Unknown error accord ups"@
}

/// Decides what a `print` or `println` statement writes from its first parameter: a text
/// or a number as it is; a calculation, computed; an undefined variable, the value the
/// policy puts in its place, or the policy's error. A defined variable is an error.
pub fn print_action(args: &Vec<Param>, policy: &ExecutionPolicy) -> (r: Result<PrintAction, RuntimeError>)
    requires
        args@.len() >= 1,
    ensures
        match args@[0]@ {
            ParamModel::Alu(_) => r matches Ok(PrintAction::Calculate),
            ParamModel::Text(t) => r matches Ok(PrintAction::Text(x)) && x@ == t,
            ParamModel::Number(n) => r matches Ok(PrintAction::Number(x)) && x@ == n,
            ParamModel::Var(v) => if v == ValueModel::Undefined {
                match policy@.undefined_as {
                    Some(w) => r matches Ok(PrintAction::Value(x)) && x@ == w,
                    None => r matches Err(e) && e.message_of() == "Cannot print an undefined value"@
                        && e.kind_of() == ErrorType::OnUndefinedValue,
                }
            } else {
                r matches Err(e) && e.message_of() == unknown_print_error() && e.kind_of() == ErrorType::AlwaysError
            },
        },
{
    match &args[0] {
        Param::Alu(_) => Ok(PrintAction::Calculate),
        Param::Text(t) => Ok(PrintAction::Text(t.clone())),
        Param::Number(n) => Ok(PrintAction::Number(n.clone())),
        Param::Var(v) => {
            match v.get_value() {
                Value::Undefined => {
                    let error = RuntimeError::new(
                        string_of(chars_of("Cannot print an undefined value").as_slice()),
                        ErrorType::OnUndefinedValue,
                    );
                    match policy.handle_error(error) {
                        Ok(Some(value)) => Ok(PrintAction::Value(value)),
                        Ok(None) => Err(RuntimeError::new(
                            string_of(chars_of("An Unknown error accord ups").as_slice()),
                            ErrorType::AlwaysError,
                        )),
                        Err(e) => Err(e),
                    }
                },
                _ => Err(RuntimeError::new(
                    string_of(chars_of("An Unknown error accord ups").as_slice()),
                    ErrorType::AlwaysError,
                )),
            }
        },
    }
}

/// Runs a `let` statement: its three text parameters name the variable, give its value
/// and, when empty, make it undefined. Anything else is an error.
pub fn run_let(args: &Vec<Param>, vars: &mut VarMap) -> (r: Result<(), RuntimeError>)
    ensures
        ({
            let s = view_params(args@);
            if s.len() == 3 && s[0] is Text && s[1] is Text && s[2] is Text {
                let (name, value, undefined) = (s[0]->Text_0, s[1]->Text_0, s[2]->Text_0);
                match spec_parse_type(value, undefined.len() == 0) {
                    Ok(v) => r is Ok && final(vars)@ == old(vars)@.insert(name, v),
                    Err(m) => r matches Err(e) && e.message_of() == m && e.kind_of() == ErrorType::AlwaysError
                        && final(vars)@ == old(vars)@,
                }
            } else {
                r matches Err(e) && e.message_of() == "Invalid arguments for let"@ && e.kind_of()
                    == ErrorType::AlwaysError && final(vars)@ == old(vars)@
            }
        }),
{
    if args.len() == 3 {
        match (&args[0], &args[1], &args[2]) {
            (Param::Text(name), Param::Text(value), Param::Text(undefined)) => {
                return match vars.add_new(name.clone(), value.clone(), undefined.as_str().unicode_len() == 0) {
                    Ok(()) => Ok(()),
                    Err(m) => Err(RuntimeError::new(m, ErrorType::AlwaysError)),
                };
            },
            _ => {},
        }
    }
    Err(RuntimeError::new(string_of(chars_of("Invalid arguments for let").as_slice()), ErrorType::AlwaysError))
}

/// Two values are of the same kind.
pub open spec fn same_kind(a: ValueModel, b: ValueModel) -> bool {
    match (a, b) {
        (ValueModel::String(_), ValueModel::String(_)) => true,
        (ValueModel::Number(_), ValueModel::Number(_)) => true,
        (ValueModel::Bool(_), ValueModel::Bool(_)) => true,
        (ValueModel::Undefined, ValueModel::Undefined) => true,
        _ => false,
    }
}

fn same_kind_exec(a: &Value, b: &Value) -> (r: bool)
    ensures
        r == same_kind(a@, b@),
{
    match (a, b) {
        (Value::String(_), Value::String(_)) => true,
        (Value::Number(_), Value::Number(_)) => true,
        (Value::Bool(_), Value::Bool(_)) => true,
        (Value::Undefined, Value::Undefined) => true,
        _ => false,
    }
}

/// The error for a value of another kind than the variable's.
pub open spec fn kind_change_error() -> Seq<char> {
    "Cannot set an different value to an origin var"@
}

/// Gives the variable `var` the value written `new_value`, which must be of the kind of
/// its present value.
pub fn set_value_from_text(var: &String, new_value: &String, vars: &mut VarMap) -> (r: Result<(), RuntimeError>)
    requires
        spec_parse_type(new_value@, false) is Ok ==> old(vars)@.contains_key(var@),
    ensures
        match spec_parse_type(new_value@, false) {
            Ok(v) => if same_kind(v, old(vars)@[var@]) {
                r is Ok && final(vars)@ == old(vars)@.insert(var@, v)
            } else {
                r matches Err(e) && e.message_of() == kind_change_error() && e.kind_of() == ErrorType::AlwaysError
                    && final(vars)@ == old(vars)@
            },
            Err(m) => r matches Err(e) && e.message_of() == m && e.kind_of() == ErrorType::AlwaysError
                && final(vars)@ == old(vars)@,
        },
{
    match parse_type(new_value.as_str(), false) {
        Ok(new_var) => {
            let old_var = vars.get_pure_value(var.clone()).unwrap();
            if same_kind_exec(&new_var, &old_var) {
                vars.replace_value(var.clone(), new_var);
                Ok(())
            } else {
                Err(RuntimeError::new(string_of(chars_of("Cannot set an different value to an origin var").as_slice()), ErrorType::AlwaysError))
            }
        },
        Err(e) => Err(RuntimeError::new(e, ErrorType::AlwaysError)),
    }
}

/// Gives the variable `var` a computed value, written `value_text`: it must be of the kind
/// of the variable's present value, or the variable must be undefined.
pub fn store_computed(var: &String, value_text: &String, vars: &mut VarMap) -> (r: Result<(), RuntimeError>)
    requires
        old(vars)@.contains_key(var@),
    ensures
        match spec_parse_type(value_text@, false) {
            Ok(v) => if same_kind(v, old(vars)@[var@]) || old(vars)@[var@] == ValueModel::Undefined {
                r is Ok && final(vars)@ == old(vars)@.insert(var@, v)
            } else {
                r matches Err(e) && e.message_of() == kind_change_error() && e.kind_of() == ErrorType::AlwaysError
                    && final(vars)@ == old(vars)@
            },
            Err(m) => r matches Err(e) && e.message_of() == m && e.kind_of() == ErrorType::AlwaysError
                && final(vars)@ == old(vars)@,
        },
{
    let old_var = vars.get_pure_value(var.clone()).unwrap();
    match parse_type(value_text.as_str(), false) {
        Ok(v) => {
            let undefined = match old_var {
                Value::Undefined => true,
                _ => false,
            };
            if same_kind_exec(&v, &old_var) || undefined {
                vars.replace_value(var.clone(), v);
                Ok(())
            } else {
                Err(RuntimeError::new(string_of(chars_of("Cannot set an different value to an origin var").as_slice()), ErrorType::AlwaysError))
            }
        },
        Err(e) => Err(RuntimeError::new(e, ErrorType::AlwaysError)),
    }
}

/// A `let` statement that reads runs: its parameters are three texts, and the value
/// they give is one [`run_let`] defines (so running it never fails).
pub proof fn law_read_let_runs(line: Seq<char>)
    ensures
        spec_parse_let(line) matches ResultModel::StandardOut(ps) ==> {
            &&& ps.len() == 3
            &&& ps[0] is Text && ps[1] is Text && ps[2] is Text
            &&& spec_parse_type(ps[1]->Text_0, (ps[2]->Text_0).len() == 0) is Ok
        },
{
}

/// `println` of a variable that holds a truth value writes one text, the one by which that
/// value is shown, and that text reads back as the same value: for every name, table of
/// variables and truth value `b`.
pub proof fn law_println_bool_reads_back(a: Seq<char>, vars: Map<Seq<char>, ValueModel>, b: bool)
    requires
        !is_quoted_text(a),
        vars.contains_key(a),
        vars[a] == ValueModel::Bool(b),
    ensures
        spec_print_argument(a, vars, true) matches ResultModel::StandardOut(ps) && ps.len() == 1 && (
        ps[0] matches ParamModel::Text(t) && t == crate::i_core::spec_display(crate::i_core::CoreModel::Boolean(b))
            && spec_parse_type(t, false) == Ok::<ValueModel, Seq<char>>(ValueModel::Bool(b))),
{
    crate::var_handler::law_shown_bool_reads_back(b);
}

/// `println` of a variable that holds a text writes that text as it is, and `print` of any
/// variable hands on the value it holds: for every name and table of variables.
pub proof fn law_print_variable_shows_its_value(a: Seq<char>, vars: Map<Seq<char>, ValueModel>)
    requires
        !is_quoted_text(a),
        vars.contains_key(a),
    ensures
        spec_print_argument(a, vars, false) == ResultModel::StandardOut(seq![ParamModel::Var(vars[a])]),
        vars[a] matches ValueModel::String(t) ==> spec_print_argument(a, vars, true)
            == ResultModel::StandardOut(seq![ParamModel::Text(crate::i_core::spec_display(crate::i_core::CoreModel::String(t)))]),
{
}

} // verus!
