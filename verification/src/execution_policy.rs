//! The execution policy of a program: how errors of some kinds are handled. A policy is
//! set by the lines of an `<execution_policy>` block, each `Property = Value`.
use vstd::prelude::*;
use vstd::slice::slice_subrange;

use crate::text::{trim, trim_chars, chars_of, string_of, chars_eq_str, push_str, usize_to_text, decimal};
use crate::scan::{first_index, lemma_first_index, lemma_first_index_is, spec_lines, lines_of};
use crate::var_handler::{Value, ValueModel, parse_type, spec_parse_type};
use crate::runtime_error::{RuntimeError, ErrorType};

verus! {

/// What to do when a code block cannot be parsed.
#[derive(Clone, Copy, Debug, PartialEq, Eq, Structural)]
pub enum OnCodeBlockParseError {
    Skip,
    HaltProgram,
}

/// What to do when an undefined value is used: stop, or use the given value instead.
#[derive(Clone, Debug)]
pub enum HandleUndefinedValueAs {
    HaltProgram,
    Value(Value),
}

/// One line of a policy block.
#[derive(Debug)]
pub enum Property {
    OnCodeBlockParseError(OnCodeBlockParseError),
    HandleUndefinedValueAs(HandleUndefinedValueAs),
}

/// The mathematical value of a policy: whether a code block parse error halts the
/// program, and the value that replaces an undefined value (`None`: halt instead).
pub struct PolicyModel {
    pub halt_on_parse_error: bool,
    pub undefined_as: Option<ValueModel>,
}

/// The mathematical value of a [`Property`].
pub enum PropertyModel {
    OnCodeBlockParseError(bool),
    HandleUndefinedValueAs(Option<ValueModel>),
}

pub open spec fn view_undefined_as(h: HandleUndefinedValueAs) -> Option<ValueModel> {
    match h {
        HandleUndefinedValueAs::HaltProgram => None,
        HandleUndefinedValueAs::Value(v) => Some(v@),
    }
}

impl View for Property {
    type V = PropertyModel;

    open spec fn view(&self) -> PropertyModel {
        match self {
            Property::OnCodeBlockParseError(v) => PropertyModel::OnCodeBlockParseError(
                *v == OnCodeBlockParseError::HaltProgram,
            ),
            Property::HandleUndefinedValueAs(h) => PropertyModel::HandleUndefinedValueAs(
                view_undefined_as(*h),
            ),
        }
    }
}

/// The position of the first `=`, if any.
pub open spec fn first_equals(line: Seq<char>) -> Option<int> {
    first_index(line.len() as int, |i: int| line[i] == '=')
}

/// Reads one policy line `Name = Value` (name and value trimmed).
pub open spec fn spec_parse_property(line: Seq<char>) -> Result<PropertyModel, Seq<char>> {
    match first_equals(line) {
        None => Err("Missing '='"@),
        Some(k) => {
            let name = trim(line.subrange(0, k));
            let value = trim(line.subrange(k + 1, line.len() as int));
            if name == "OnCodeBlockParseError"@ {
                if value == "Skip"@ {
                    Ok(PropertyModel::OnCodeBlockParseError(false))
                } else if value == "HaltProgram"@ {
                    Ok(PropertyModel::OnCodeBlockParseError(true))
                } else {
                    Err("Invalid value for OnCodeBlockParseError: "@ + value)
                }
            } else if name == "HandleUndefinedValueAs"@ {
                if value == "HaltProgram"@ {
                    Ok(PropertyModel::HandleUndefinedValueAs(None))
                } else {
                    match spec_parse_type(value, false) {
                        Ok(v) => Ok(PropertyModel::HandleUndefinedValueAs(Some(v))),
                        Err(_) => Err("Invalid value for HandleUndefinedValueAs: "@ + value),
                    }
                }
            } else {
                Err("Unknown property: "@ + name)
            }
        },
    }
}

fn find_equals(line: &[char]) -> (r: Option<usize>)
    ensures
        match r {
            Some(k) => first_equals(line@) == Some(k as int) && k < line@.len(),
            None => first_equals(line@) is None,
        },
{
    let ghost p = |i: int| line@[i] == '=';
    let mut i: usize = 0;
    while i < line.len()
        invariant
            i <= line@.len(),
            p == (|k: int| line@[k] == '='),
            forall|j: int| 0 <= j < i ==> line@[j] != '=',
        decreases line@.len() - i,
    {
        if line[i] == '=' {
            proof {
                lemma_first_index_is(line@.len() as int, p, i as int);
            }
            return Some(i);
        }
        i = i + 1;
    }
    proof {
        lemma_first_index(line@.len() as int, p);
        if first_index(line@.len() as int, p) is Some {
            let f = first_index(line@.len() as int, p)->0;
            assert(line@[f] != '=');
        }
    }
    None
}

fn message(prefix: &str, rest: &[char]) -> (r: String)
    ensures
        r@ == prefix@ + rest@,
{
    let mut m = String::new();
    push_str(&mut m, prefix);
    let tail = string_of(rest);
    push_str(&mut m, tail.as_str());
    m
}

impl Property {
    /// Reads one policy line; see [`spec_parse_property`].
    pub fn parse(line: &[char]) -> (r: Result<Self, String>)
        ensures
            match spec_parse_property(line@) {
                Ok(p) => r matches Ok(x) && x@ == p,
                Err(e) => r matches Err(m) && m@ == e,
            },
    {
        let k = match find_equals(line) {
            Some(k) => k,
            None => {
                return Err("Missing '='".to_owned());
            },
        };
        let n = line.len();
        assert(k < n);
        let name = trim_chars(slice_subrange(line, 0, k));
        let value = trim_chars(slice_subrange(line, k + 1, n));
        if chars_eq_str(name, "OnCodeBlockParseError") {
            if chars_eq_str(value, "Skip") {
                Ok(Property::OnCodeBlockParseError(OnCodeBlockParseError::Skip))
            } else if chars_eq_str(value, "HaltProgram") {
                Ok(Property::OnCodeBlockParseError(OnCodeBlockParseError::HaltProgram))
            } else {
                Err(message("Invalid value for OnCodeBlockParseError: ", value))
            }
        } else if chars_eq_str(name, "HandleUndefinedValueAs") {
            if chars_eq_str(value, "HaltProgram") {
                Ok(Property::HandleUndefinedValueAs(HandleUndefinedValueAs::HaltProgram))
            } else {
                let text = string_of(value);
                match parse_type(text.as_str(), false) {
                    Ok(v) => Ok(Property::HandleUndefinedValueAs(HandleUndefinedValueAs::Value(v))),
                    Err(_) => Err(message("Invalid value for HandleUndefinedValueAs: ", value)),
                }
            }
        } else {
            Err(message("Unknown property: ", name))
        }
    }
}

/// The policy with one property set.
pub open spec fn apply_property(p: PolicyModel, prop: PropertyModel) -> PolicyModel {
    match prop {
        PropertyModel::OnCodeBlockParseError(halt) => PolicyModel { halt_on_parse_error: halt, ..p },
        PropertyModel::HandleUndefinedValueAs(v) => PolicyModel { undefined_as: v, ..p },
    }
}

/// The policy after the first `n` lines of a policy block, and the error that stopped
/// the reading, if any. Blank lines are skipped; the first line that is no property stops
/// the reading, the properties of the lines before it having been set.
pub open spec fn change_scan(p: PolicyModel, lines: Seq<Seq<char>>, n: int) -> (PolicyModel, Option<Seq<char>>)
    decreases n,
{
    if n <= 0 {
        (p, None)
    } else {
        let (q, err) = change_scan(p, lines, n - 1);
        if err is Some {
            (q, err)
        } else {
            let l = trim(lines[n - 1]);
            if l.len() == 0 {
                (q, None)
            } else {
                match spec_parse_property(l) {
                    Ok(prop) => (apply_property(q, prop), None),
                    Err(e) => (
                        q,
                        Some("invalid execution policy on line "@ + decimal(n as nat) + ": "@ + e),
                    ),
                }
            }
        }
    }
}

/// The policy after reading a whole policy block, and the error, if any.
pub open spec fn spec_change_policy(p: PolicyModel, raw: Seq<char>) -> (PolicyModel, Option<Seq<char>>) {
    change_scan(p, spec_lines(raw), spec_lines(raw).len() as int)
}

/// How errors are handled while a program runs.
#[derive(Clone, Debug)]
pub struct ExecutionPolicy {
    on_code_block_parse_error: OnCodeBlockParseError,
    handle_undefined_value_as: HandleUndefinedValueAs,
}

impl View for ExecutionPolicy {
    type V = PolicyModel;

    closed spec fn view(&self) -> PolicyModel {
        PolicyModel {
            halt_on_parse_error: self.on_code_block_parse_error == OnCodeBlockParseError::HaltProgram,
            undefined_as: view_undefined_as(self.handle_undefined_value_as),
        }
    }
}

/// The default policy halts on every error.
pub open spec fn default_policy() -> PolicyModel {
    PolicyModel { halt_on_parse_error: true, undefined_as: None }
}

impl Default for ExecutionPolicy {
    fn default() -> (r: Self)
        ensures
            r@ == default_policy(),
    {
        ExecutionPolicy {
            on_code_block_parse_error: OnCodeBlockParseError::HaltProgram,
            handle_undefined_value_as: HandleUndefinedValueAs::HaltProgram,
        }
    }
}

impl ExecutionPolicy {
    pub fn new() -> (r: Self)
        ensures
            r@ == default_policy(),
    {
        ExecutionPolicy::default()
    }

    pub fn should_halt_on_code_block_parse_error(&self) -> (r: bool)
        ensures
            r == self@.halt_on_parse_error,
    {
        match self.on_code_block_parse_error {
            OnCodeBlockParseError::HaltProgram => true,
            OnCodeBlockParseError::Skip => false,
        }
    }

    /// Handles an error by the policy: an error of kind `AlwaysError` is returned; a
    /// code block parse error is returned when the policy halts on it, and otherwise
    /// excused (`Ok(None)`); an undefined-value error is returned when the policy halts on
    /// it, and otherwise answered with the policy's replacement value.
    pub fn handle_error(&self, error: RuntimeError) -> (r: Result<Option<Value>, RuntimeError>)
        ensures
            match error.kind_of() {
                ErrorType::AlwaysError => r == Err::<Option<Value>, RuntimeError>(error),
                ErrorType::OnCodeBlockParseError => if self@.halt_on_parse_error {
                    r == Err::<Option<Value>, RuntimeError>(error)
                } else {
                    r == Ok::<Option<Value>, RuntimeError>(None)
                },
                ErrorType::OnUndefinedValue => match self@.undefined_as {
                    None => r == Err::<Option<Value>, RuntimeError>(error),
                    Some(v) => r matches Ok(Some(x)) && x@ == v,
                },
            },
    {
        match error.get_error_type() {
            ErrorType::AlwaysError => Err(error),
            ErrorType::OnCodeBlockParseError => {
                if self.should_halt_on_code_block_parse_error() {
                    return Err(error);
                }
                Ok(None)
            },
            ErrorType::OnUndefinedValue => match &self.handle_undefined_value_as {
                HandleUndefinedValueAs::HaltProgram => Err(error),
                HandleUndefinedValueAs::Value(value) => Ok(Some(value.duplicate())),
            },
        }
    }

    /// Reads a policy block line by line, setting each property read; see
    /// [`change_scan`] for blank lines and errors.
    pub fn change_policy(&mut self, raw: String) -> (r: Result<(), String>)
        ensures
            final(self)@ == spec_change_policy(old(self)@, raw@).0,
            match spec_change_policy(old(self)@, raw@).1 {
                None => r is Ok,
                Some(e) => r matches Err(m) && m@ == e,
            },
    {
        let chars = chars_of(raw.as_str());
        let lines = lines_of(chars.as_slice());
        let ghost ls = lines@.map_values(|p: &[char]| p@);
        let mut line_index: usize = 0;
        while line_index < lines.len()
            invariant
                ls == lines@.map_values(|p: &[char]| p@),
                ls == spec_lines(raw@),
                line_index <= lines@.len(),
                change_scan(old(self)@, ls, line_index as int) == (self@, None::<Seq<char>>),
            decreases lines@.len() - line_index,
        {
            let line = trim_chars(lines[line_index]);
            assert(line@ == trim(ls[line_index as int]));
            if line.len() != 0 {
                match Property::parse(line) {
                    Ok(property) => {
                        self.apply(property);
                    },
                    Err(error) => {
                        let mut m = String::new();
                        push_str(&mut m, "invalid execution policy on line ");
                        let number = usize_to_text(line_index + 1);
                        push_str(&mut m, number.as_str());
                        push_str(&mut m, ": ");
                        push_str(&mut m, error.as_str());
                        proof {
                            let n = line_index as int + 1;
                            assert(change_scan(old(self)@, ls, n).1 == Some(m@));
                            lemma_change_scan_stops(old(self)@, ls, n, ls.len() as int);
                        }
                        return Err(m);
                    },
                }
            }
            line_index = line_index + 1;
        }
        Ok(())
    }

    fn apply(&mut self, property: Property)
        ensures
            final(self)@ == apply_property(old(self)@, property@),
    {
        match property {
            Property::OnCodeBlockParseError(v) => {
                self.on_code_block_parse_error = v;
            },
            Property::HandleUndefinedValueAs(v) => {
                self.handle_undefined_value_as = v;
            },
        }
    }
}

/// Once the reading stops on an error, later lines change nothing.
proof fn lemma_change_scan_stops(p: PolicyModel, lines: Seq<Seq<char>>, n: int, m: int)
    requires
        0 <= n <= m,
        change_scan(p, lines, n).1 is Some,
    ensures
        change_scan(p, lines, m) == change_scan(p, lines, n),
    decreases m - n,
{
    if m > n {
        lemma_change_scan_stops(p, lines, n, m - 1);
    }
}

} // verus!

verus! {

/// The value that the last `OnCodeBlockParseError` line among the first `n` lines sets.
pub open spec fn halt_set(lines: Seq<Seq<char>>, n: int) -> Option<bool>
    decreases n,
{
    if n <= 0 {
        None
    } else {
        let l = trim(lines[n - 1]);
        match spec_parse_property(l) {
            Ok(PropertyModel::OnCodeBlockParseError(h)) => if l.len() > 0 {
                Some(h)
            } else {
                halt_set(lines, n - 1)
            },
            _ => halt_set(lines, n - 1),
        }
    }
}

/// The value that the last `HandleUndefinedValueAs` line among the first `n` lines sets.
pub open spec fn undefined_set(lines: Seq<Seq<char>>, n: int) -> Option<Option<ValueModel>>
    decreases n,
{
    if n <= 0 {
        None
    } else {
        let l = trim(lines[n - 1]);
        match spec_parse_property(l) {
            Ok(PropertyModel::HandleUndefinedValueAs(v)) => if l.len() > 0 {
                Some(v)
            } else {
                undefined_set(lines, n - 1)
            },
            _ => undefined_set(lines, n - 1),
        }
    }
}

/// Reading lines without error sets each property to the value of its last line,
/// whatever the policy was before; whether an error occurs does not depend on the policy.
proof fn lemma_change_scan_overlay(p: PolicyModel, p2: PolicyModel, lines: Seq<Seq<char>>, n: int)
    ensures
        change_scan(p, lines, n).1 == change_scan(p2, lines, n).1,
        change_scan(p, lines, n).1 is None ==> change_scan(p, lines, n).0 == (PolicyModel {
            halt_on_parse_error: match halt_set(lines, n) {
                Some(h) => h,
                None => p.halt_on_parse_error,
            },
            undefined_as: match undefined_set(lines, n) {
                Some(v) => v,
                None => p.undefined_as,
            },
        }),
    decreases n,
{
    if n > 0 {
        lemma_change_scan_overlay(p, p2, lines, n - 1);
    }
}

/// Reading the same policy block a second time changes nothing: a block that was read
/// without error leaves the policy as it is when read again.
pub proof fn law_change_policy_idempotent(p: PolicyModel, raw: Seq<char>)
    requires
        spec_change_policy(p, raw).1 is None,
    ensures
        spec_change_policy(spec_change_policy(p, raw).0, raw) == spec_change_policy(p, raw),
{
    let lines = spec_lines(raw);
    let n = lines.len() as int;
    let q = spec_change_policy(p, raw).0;
    lemma_change_scan_overlay(p, q, lines, n);
    lemma_change_scan_overlay(q, p, lines, n);
}

/// The default policy excuses no error: every kind of error is returned by
/// `handle_error`.
pub proof fn law_default_policy_halts()
    ensures
        default_policy().halt_on_parse_error,
        default_policy().undefined_as is None,
{
}

/// A line `name = value` whose name has no `=`: the `=` after the name is the first one.
proof fn lemma_split_at_first_equals(n: Seq<char>, v: Seq<char>)
    requires
        forall|j: int| 0 <= j < n.len() ==> n[j] != '=',
    ensures
        first_equals(n + seq!['='] + v) == Some(n.len() as int),
        (n + seq!['='] + v).subrange(0, n.len() as int) == n,
        (n + seq!['='] + v).subrange(n.len() as int + 1, (n + seq!['='] + v).len() as int) == v,
{
    let line = n + seq!['='] + v;
    lemma_first_index_is(line.len() as int, |i: int| line[i] == '=', n.len() as int);
    assert(line.subrange(0, n.len() as int) =~= n);
    assert(line.subrange(n.len() as int + 1, line.len() as int) =~= v);
}

/// The value of an `OnCodeBlockParseError` line decides whether parse errors stop the
/// program: for every way of writing the line (any whitespace around the name and the
/// value), `HaltProgram` makes every policy halt on code block parse errors and `Skip` makes
/// every policy excuse them; no other value is read.
pub proof fn law_parse_error_policy_words(n: Seq<char>, v: Seq<char>, p: PolicyModel)
    requires
        forall|j: int| 0 <= j < n.len() ==> n[j] != '=',
        trim(n) == "OnCodeBlockParseError"@,
    ensures
        trim(v) == "HaltProgram"@ ==> (spec_parse_property(n + seq!['='] + v) matches Ok(prop)
            && apply_property(p, prop).halt_on_parse_error),
        trim(v) == "Skip"@ ==> (spec_parse_property(n + seq!['='] + v) matches Ok(prop)
            && !apply_property(p, prop).halt_on_parse_error),
        trim(v) != "HaltProgram"@ && trim(v) != "Skip"@ ==> spec_parse_property(n + seq!['='] + v) is Err,
        spec_parse_property(n + seq!['='] + v) matches Ok(prop) ==> apply_property(p, prop)
            == (PolicyModel { halt_on_parse_error: trim(v) == "HaltProgram"@, ..p }),
{
    reveal_strlit("HaltProgram");
    reveal_strlit("Skip");
    reveal_strlit("OnCodeBlockParseError");
    lemma_split_at_first_equals(n, v);
    assert("Skip"@ != "HaltProgram"@);
}

/// The value of a `HandleUndefinedValueAs` line decides what an undefined value becomes:
/// `HaltProgram` makes every policy stop on it, and a value written as `parse_type` reads
/// it (such as `true`, `false` or a quoted text) makes every policy use that value; for
/// every way of writing the line.
pub proof fn law_undefined_policy_words(n: Seq<char>, v: Seq<char>, p: PolicyModel)
    requires
        forall|j: int| 0 <= j < n.len() ==> n[j] != '=',
        trim(n) == "HandleUndefinedValueAs"@,
    ensures
        trim(v) == "HaltProgram"@ ==> (spec_parse_property(n + seq!['='] + v) matches Ok(prop)
            && apply_property(p, prop) == (PolicyModel { undefined_as: None, ..p })),
        trim(v) != "HaltProgram"@ ==> match spec_parse_type(trim(v), false) {
            Ok(x) => spec_parse_property(n + seq!['='] + v) matches Ok(prop)
                && apply_property(p, prop) == (PolicyModel { undefined_as: Some(x), ..p }),
            Err(_) => spec_parse_property(n + seq!['='] + v) is Err,
        },
{
    reveal_strlit("OnCodeBlockParseError");
    reveal_strlit("HandleUndefinedValueAs");
    lemma_split_at_first_equals(n, v);
    assert("HandleUndefinedValueAs"@ != "OnCodeBlockParseError"@) by {
        assert("HandleUndefinedValueAs"@[0] == 'H');
        assert("OnCodeBlockParseError"@[0] == 'O');
    }
}

} // verus!
