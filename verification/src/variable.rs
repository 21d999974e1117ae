//! Typed variables of the block language and how variable lines are read.
use vstd::prelude::*;

use crate::text::{chars_of, chars_eq_str, string_of, words, split_words, is_ws};
use crate::value_parser::{Value, LiteralModel, spec_parse_value, parse_value_chars, is_lone_quote};
use crate::line_parser::{Expression, ExpressionModel};
use crate::library::Output;
use crate::text::{trim, trim_chars};
use crate::scan::{first_index, lemma_first_index, lemma_first_index_is};
use crate::dot_notation::{spec_dot_notation, dot_notation_readable, dot_notation_chars};
use vstd::slice::slice_subrange;

verus! {

/// The type of a variable.
#[derive(Debug, Clone, Copy, PartialEq, Eq, Structural)]
pub enum VariableType {
    String,
    Boolean,
    Number,
    Undefined,
}

/// The type a word names: `bool` or `boolean`, `String`, `number`, `undefined`.
pub open spec fn spec_var_type(s: Seq<char>) -> Option<VariableType> {
    if s == "bool"@ || s == "boolean"@ {
        Some(VariableType::Boolean)
    } else if s == "String"@ {
        Some(VariableType::String)
    } else if s == "number"@ {
        Some(VariableType::Number)
    } else if s == "undefined"@ {
        Some(VariableType::Undefined)
    } else {
        None
    }
}

/// The type named by the characters; see [`spec_var_type`].
pub fn var_type_of(s: &[char]) -> (r: Option<VariableType>)
    ensures
        r == spec_var_type(s@),
{
    if chars_eq_str(s, "bool") || chars_eq_str(s, "boolean") {
        Some(VariableType::Boolean)
    } else if chars_eq_str(s, "String") {
        Some(VariableType::String)
    } else if chars_eq_str(s, "number") {
        Some(VariableType::Number)
    } else if chars_eq_str(s, "undefined") {
        Some(VariableType::Undefined)
    } else {
        None
    }
}

/// The type named by a word; see [`spec_var_type`].
pub fn parse_string_to_var_type(s: &str) -> (r: Option<VariableType>)
    ensures
        r == spec_var_type(s@),
{
    let chars = chars_of(s);
    var_type_of(chars.as_slice())
}

/// The type of a literal value.
pub open spec fn literal_type(v: LiteralModel) -> VariableType {
    match v {
        LiteralModel::Boolean(_) => VariableType::Boolean,
        LiteralModel::String(_) => VariableType::String,
        LiteralModel::Number(_) => VariableType::Number,
        LiteralModel::Undefined => VariableType::Undefined,
    }
}

/// The type of an expression that is a literal value; other expressions have none.
pub open spec fn spec_expression_type(e: ExpressionModel) -> Option<VariableType> {
    match e {
        ExpressionModel::Value(v) => Some(literal_type(v)),
        _ => None,
    }
}

/// The type of an expression that is a literal value; see [`spec_expression_type`].
pub fn expression_type(expression: &Expression) -> (r: Option<VariableType>)
    ensures
        r == spec_expression_type(expression@),
{
    match expression {
        Expression::Value(Value::Boolean(_)) => Some(VariableType::Boolean),
        Expression::Value(Value::String(_)) => Some(VariableType::String),
        Expression::Value(Value::Number(_)) => Some(VariableType::Number),
        Expression::Value(Value::Undefined) => Some(VariableType::Undefined),
        _ => None,
    }
}

/// The type a variable of type `current` has after a value of type `assigned` is given to
/// it, or none when the assignment is refused. An undefined variable takes the type of
/// what it is given; an undefined value leaves the type as it is; otherwise the types must
/// agree.
pub open spec fn assigned_type(current: VariableType, assigned: VariableType) -> Option<VariableType> {
    if current == VariableType::Undefined {
        Some(assigned)
    } else if assigned == VariableType::Undefined || assigned == current {
        Some(current)
    } else {
        None
    }
}

/// A variable: its value, its type and its name.
#[derive(Debug)]
pub struct Variable {
    value: Expression,
    pub var_type: VariableType,
    name: String,
}

/// The mathematical value of a [`Variable`].
pub struct VariableModel {
    pub value: ExpressionModel,
    pub var_type: VariableType,
    pub name: Seq<char>,
}

impl View for Variable {
    type V = VariableModel;

    closed spec fn view(&self) -> VariableModel {
        VariableModel { value: self.value@, var_type: self.var_type, name: self.name@ }
    }
}

impl Variable {
    /// A variable holding `value`, of type `var_type`, named `name`.
    pub fn new(value: Expression, var_type: VariableType, name: String) -> (r: Self)
        ensures
            r@ == (VariableModel { value: value@, var_type, name: name@ }),
    {
        Variable { value, var_type, name }
    }

    /// The variable's type.
    pub fn get_type(&self) -> (r: VariableType)
        ensures
            r == self@.var_type,
    {
        self.var_type
    }

    /// The variable's value.
    pub fn value(&self) -> (r: &Expression)
        ensures
            r@ == self@.value,
    {
        &self.value
    }

    /// A copy of the variable's value.
    pub fn get_value(&mut self) -> (r: Expression)
        ensures
            r@ == old(self)@.value,
            final(self)@ == old(self)@,
    {
        self.value.duplicate()
    }

    /// Gives the variable a new value, which must be a literal value of an agreeing type
    /// (see [`assigned_type`]); a refused value leaves the variable as it was.
    pub fn set_value(&mut self, value: Expression) -> (r: Result<(), ()>)
        ensures
            match spec_expression_type(value@) {
                Some(t) => match assigned_type(old(self)@.var_type, t) {
                    Some(nt) => r is Ok && final(self)@ == (VariableModel {
                        value: value@,
                        var_type: nt,
                        name: old(self)@.name,
                    }),
                    None => r is Err && final(self)@ == old(self)@,
                },
                None => r is Err && final(self)@ == old(self)@,
            },
    {
        let value_type = match expression_type(&value) {
            Some(t) => t,
            None => return Err(()),
        };
        if self.var_type == VariableType::Undefined {
            self.var_type = value_type;
        } else if value_type == VariableType::Undefined || value_type == self.var_type {
        } else {
            return Err(());
        }
        self.value = value;
        Ok(())
    }
}

/// Whether a variable named `name` is among `vars`.
pub open spec fn has_named(vars: Seq<VariableModel>, name: Seq<char>) -> bool {
    exists|i: int| 0 <= i < vars.len() && #[trigger] vars[i].name == name
}

/// The first position of a variable named `name` among `vars`.
pub open spec fn first_named(vars: Seq<VariableModel>, name: Seq<char>) -> Option<int> {
    crate::scan::first_index(vars.len() as int, |i: int| vars[i].name == name)
}

/// `vars` without its first variable named `name`, if there is one.
pub open spec fn without_first_named(vars: Seq<VariableModel>, name: Seq<char>) -> Seq<VariableModel> {
    match first_named(vars, name) {
        Some(i) => vars.remove(i),
        None => vars,
    }
}

/// The variables of a program, in the order they were added.
#[derive(Debug)]
pub struct VariableMap {
    variables: Vec<Variable>,
}

impl View for VariableMap {
    type V = Seq<VariableModel>;

    closed spec fn view(&self) -> Seq<VariableModel> {
        self.variables@.map_values(|v: Variable| v@)
    }
}

impl Default for VariableMap {
    fn default() -> (r: Self)
        ensures
            r@ == Seq::<VariableModel>::empty(),
    {
        Self::new()
    }
}

impl VariableMap {
    pub fn new() -> (r: VariableMap)
        ensures
            r@ == Seq::<VariableModel>::empty(),
    {
        let r = VariableMap { variables: Vec::new() };
        assert(r@ =~= Seq::<VariableModel>::empty());
        r
    }

    /// Appends a variable.
    pub fn add_new(&mut self, new_var: Variable)
        ensures
            final(self)@ == old(self)@.push(new_var@),
    {
        let ghost before = self.variables@;
        self.variables.push(new_var);
        assert(self.variables@.map_values(|v: Variable| v@) =~= before.map_values(|v: Variable| v@).push(new_var@));
    }

    /// The position of the first variable named `name`.
    fn position(&self, name: &[char]) -> (r: Option<usize>)
        ensures
            self@.len() == self.variables@.len(),
            forall|j: int| 0 <= j < self@.len() ==> #[trigger] self@[j] == self.variables@[j]@,
            match r {
                Some(k) => k < self@.len() && self@[k as int].name == name@ && first_named(self@, name@)
                    == Some(k as int),
                None => first_named(self@, name@) is None && !has_named(self@, name@),
            },
    {
        let ghost m = self@;
        let mut i: usize = 0;
        while i < self.variables.len()
            invariant
                i <= self.variables@.len(),
                m == self@,
                m.len() == self.variables@.len(),
                forall|j: int| 0 <= j < i ==> m[j].name != name@,
            decreases self.variables@.len() - i,
        {
            let here = chars_of(self.variables[i].name.as_str());
            assert(m[i as int] == self.variables@[i as int]@);
            if crate::psycho_parser::chars_eq(here.as_slice(), name) {
                proof {
                    crate::scan::lemma_first_index_is(m.len() as int, |j: int| m[j].name == name@, i as int);
                }
                return Some(i);
            }
            i = i + 1;
        }
        proof {
            crate::scan::lemma_first_index(m.len() as int, |j: int| m[j].name == name@);
        }
        None
    }

    /// Defines a variable of type `var_type` holding `expression`, which must be a literal
    /// value of an agreeing type (see [`assigned_type`]); a former variable of that name
    /// gives way to it. A refused value leaves the variables as they were.
    pub fn add_new_variable(&mut self, variable_name: String, expression: Expression, var_type: VariableType) -> (r: Result<Output, ()>)
        ensures
            match spec_expression_type(expression@) {
                Some(t) => match assigned_type(var_type, t) {
                    Some(nt) => r matches Ok(Output::Success) && final(self)@ == without_first_named(old(self)@, variable_name@).push(
                        VariableModel { value: expression@, var_type: nt, name: variable_name@ }),
                    None => r is Err && final(self)@ == old(self)@,
                },
                None => r is Err && final(self)@ == old(self)@,
            },
    {
        let mut variable = Variable {
            value: Expression::Value(Value::Undefined),
            var_type,
            name: variable_name.clone(),
        };
        match variable.set_value(expression) {
            Ok(()) => {},
            Err(()) => return Err(()),
        }
        let name_chars = chars_of(variable_name.as_str());
        let ghost before = self@;
        match self.position(name_chars.as_slice()) {
            Some(i) => {
                let ghost vs = self.variables@;
                let _ = self.variables.remove(i);
                assert(self.variables@.map_values(|v: Variable| v@) =~= vs.map_values(|v: Variable| v@).remove(i as int));
            },
            None => {},
        }
        self.add_new(variable);
        Ok(Output::Success)
    }

    /// The expression that stands for the variable `variable_name`, if it exists.
    pub fn get_var(&self, variable_name: &str) -> (r: Option<Expression>)
        ensures
            has_named(self@, variable_name@) ==> (r matches Some(e) && e@ == ExpressionModel::Variable(variable_name@)),
            !has_named(self@, variable_name@) ==> r is None,
    {
        let chars = chars_of(variable_name);
        match self.position(chars.as_slice()) {
            Some(_) => Some(Expression::Variable(variable_name.to_owned())),
            None => None,
        }
    }

    /// Whether a variable named `name` exists.
    pub fn has_variable(&self, name: &[char]) -> (r: bool)
        ensures
            r == has_named(self@, name@),
    {
        self.position(name).is_some()
    }

    /// Gives the first variable named `name` a new value, as [`Variable::set_value`] does;
    /// fails, changing nothing, when there is no such variable or the value is refused.
    pub fn set_variable_value(&mut self, name: &str, value: Expression) -> (r: Result<(), ()>)
        ensures
            match first_named(old(self)@, name@) {
                None => r is Err && final(self)@ == old(self)@,
                Some(i) => match spec_expression_type(value@) {
                    Some(t) => match assigned_type(old(self)@[i].var_type, t) {
                        Some(nt) => r is Ok && final(self)@ == old(self)@.update(i, VariableModel {
                            value: value@,
                            var_type: nt,
                            name: old(self)@[i].name,
                        }),
                        None => r is Err && final(self)@ == old(self)@,
                    },
                    None => r is Err && final(self)@ == old(self)@,
                },
            },
    {
        let chars = chars_of(name);
        let i = match self.position(chars.as_slice()) {
            Some(i) => i,
            None => return Err(()),
        };
        let value_type = match expression_type(&value) {
            Some(t) => t,
            None => return Err(()),
        };
        let current = self.variables[i].var_type;
        let new_type = if current == VariableType::Undefined {
            value_type
        } else if value_type == VariableType::Undefined || value_type == current {
            current
        } else {
            return Err(());
        };
        let variable = Variable { value, var_type: new_type, name: self.variables[i].name.clone() };
        let ghost before = self.variables@;
        self.variables.set(i, variable);
        assert(self.variables@.map_values(|v: Variable| v@) =~= before.map_values(|v: Variable| v@).update(
            i as int, variable@));
        Ok(())
    }

    /// The first variable named `variable_name`, if there is one.
    pub fn get_pure_var(&self, variable_name: &str) -> (r: Option<&Variable>)
        ensures
            match first_named(self@, variable_name@) {
                Some(i) => r matches Some(v) && v@ == self@[i],
                None => r is None,
            },
    {
        let chars = chars_of(variable_name);
        self.first_variable(chars.as_slice())
    }

    /// The first variable named by the characters, if there is one.
    pub fn first_variable(&self, variable_name: &[char]) -> (r: Option<&Variable>)
        ensures
            match first_named(self@, variable_name@) {
                Some(i) => r matches Some(v) && v@ == self@[i],
                None => r is None,
            },
    {
        match self.position(variable_name) {
            Some(i) => Some(&self.variables[i]),
            None => None,
        }
    }
}

/// What has been read of a variable line so far: the declared type, the name, whether
/// the `=` has been passed, and the value.
pub struct VarLineState {
    pub var_type: Option<VariableType>,
    pub name: Option<Seq<char>>,
    pub past: bool,
    pub value: Option<LiteralModel>,
}

/// Word `i` of a variable line is read as a value (it is no type word at the start, does
/// not give the name, and is no `=` in its place).
pub open spec fn reaches_value(st: VarLineState, i: int, part: Seq<char>) -> bool {
    &&& !(spec_var_type(part) is Some && i == 0)
    &&& !((i == 1 || i == 0) && st.name is None)
    &&& !((i == 2 || i == 1) && part == "="@)
}

/// Reads word `i` of a variable line: a type word first; then the name (first or second
/// word); then `=` (second or third word); then, after the `=`, a value (third or fourth
/// word). Other words are passed over.
pub open spec fn var_line_step(st: VarLineState, i: int, part: Seq<char>) -> VarLineState {
    if spec_var_type(part) is Some && i == 0 {
        VarLineState { var_type: spec_var_type(part), name: st.name, past: st.past, value: st.value }
    } else if (i == 1 || i == 0) && st.name is None {
        VarLineState { var_type: st.var_type, name: Some(part), past: st.past, value: st.value }
    } else if (i == 2 || i == 1) && part == "="@ {
        VarLineState { var_type: st.var_type, name: st.name, past: true, value: st.value }
    } else if spec_parse_value(part) is Some && (i == 3 || i == 2) && st.past {
        VarLineState { var_type: st.var_type, name: st.name, past: st.past, value: spec_parse_value(part) }
    } else {
        st
    }
}

/// The state after reading the first `n` words of a variable line.
pub open spec fn var_line_scan(parts: Seq<Seq<char>>, n: int) -> VarLineState
    decreases n,
{
    if n <= 0 {
        VarLineState { var_type: None, name: None, past: false, value: None }
    } else {
        var_line_step(var_line_scan(parts, n - 1), n - 1, parts[n - 1])
    }
}

/// A variable line can be read: no word that is read as a value is a lone double quote.
pub open spec fn var_line_readable(s: Seq<char>) -> bool {
    let parts = words(s);
    forall|i: int| 0 <= i < parts.len() && #[trigger] reaches_value(var_line_scan(parts, i), i, parts[i])
        ==> !is_lone_quote(parts[i])
}

/// The definition a variable line gives: `[type] name [= value]`, where a missing type is
/// that of the value and a missing value is `undefined`; none when no name was read.
pub open spec fn spec_variable_expression(s: Seq<char>) -> Option<ExpressionModel> {
    let parts = words(s);
    let st = var_line_scan(parts, parts.len() as int);
    let t = match st.var_type {
        Some(t) => t,
        None => match st.value {
            Some(v) => literal_type(v),
            None => VariableType::Undefined,
        },
    };
    let v = match st.value {
        Some(v) => v,
        None => LiteralModel::Undefined,
    };
    match st.name {
        Some(n) => Some(ExpressionModel::VariableDefinition(n, t, Box::new(ExpressionModel::Value(v)))),
        None => None,
    }
}

pub open spec fn view_opt_string(r: Option<String>) -> Option<Seq<char>> {
    match r {
        Some(s) => Some(s@),
        None => None,
    }
}

pub open spec fn view_opt_literal(r: Option<Value>) -> Option<LiteralModel> {
    match r {
        Some(v) => Some(v@),
        None => None,
    }
}

/// Reads a variable line; see [`spec_variable_expression`].
pub fn parse_variable_expression(expression: String) -> (r: Option<Expression>)
    requires
        var_line_readable(expression@),
    ensures
        crate::line_parser::view_opt_expr(r) == spec_variable_expression(expression@),
{
    let chars = chars_of(expression.as_str());
    let parts = split_words(chars.as_slice());
    let ghost pv = parts@.map_values(|w: Vec<char>| w@);
    assert(pv == words(expression@));
    let mut var_type: Option<VariableType> = None;
    let mut var_name: Option<String> = None;
    let mut past = false;
    let mut var_value: Option<Value> = None;
    let mut i: usize = 0;
    while i < parts.len()
        invariant
            i <= parts@.len(),
            pv == parts@.map_values(|w: Vec<char>| w@),
            pv == words(expression@),
            var_line_readable(expression@),
            var_line_scan(pv, i as int) == (VarLineState {
                var_type,
                name: view_opt_string(var_name),
                past,
                value: view_opt_literal(var_value),
            }),
        decreases parts@.len() - i,
    {
        let part = parts[i].as_slice();
        assert(part@ == pv[i as int]);
        let t = var_type_of(part);
        if t.is_some() && i == 0 {
            var_type = t;
        } else if (i == 1 || i == 0) && var_name.is_none() {
            var_name = Some(string_of(part));
        } else if (i == 2 || i == 1) && chars_eq_str(part, "=") {
            past = true;
        } else {
            assert(reaches_value(var_line_scan(pv, i as int), i as int, pv[i as int]));
            let value = parse_value_chars(part);
            if value.is_some() && (i == 3 || i == 2) && past {
                var_value = value;
            }
        }
        i = i + 1;
    }
    let ghost st = var_line_scan(pv, pv.len() as int);
    assert(st.var_type == var_type && st.value == view_opt_literal(var_value) && st.name == view_opt_string(var_name));
    if var_type.is_none() {
        var_type = Some(match &var_value {
            Some(Value::Boolean(_)) => VariableType::Boolean,
            Some(Value::String(_)) => VariableType::String,
            Some(Value::Number(_)) => VariableType::Number,
            Some(Value::Undefined) => VariableType::Undefined,
            None => VariableType::Undefined,
        });
    }
    let value = match var_value {
        Some(v) => v,
        None => Value::Undefined,
    };
    match var_name {
        Some(name) => {
            let inner = Expression::Value(value);
            assert(inner@ == ExpressionModel::Value(value@));
            let r = Expression::VariableDefinition((name, var_type.unwrap(), Box::new(inner)));
            assert(r@ == ExpressionModel::VariableDefinition(name@, var_type.unwrap(), Box::new(inner@)));
            Some(r)
        },
        None => None,
    }
}

/// The first `=` of a text.
pub open spec fn first_equals(s: Seq<char>) -> Option<int> {
    first_index(s.len() as int, |i: int| s[i] == '=')
}

/// Finds the first `=`; see [`first_equals`].
pub fn find_equals_sign(s: &[char]) -> (r: Option<usize>)
    ensures
        match r {
            Some(k) => first_equals(s@) == Some(k as int) && k < s@.len(),
            None => first_equals(s@) is None,
        },
{
    let mut i: usize = 0;
    while i < s.len()
        invariant
            i <= s@.len(),
            forall|j: int| 0 <= j < i ==> s@[j] != '=',
        decreases s@.len() - i,
    {
        if s[i] == '=' {
            proof {
                lemma_first_index_is(s@.len() as int, |j: int| s@[j] == '=', i as int);
            }
            return Some(i);
        }
        i = i + 1;
    }
    proof {
        lemma_first_index(s@.len() as int, |j: int| s@[j] == '=');
    }
    None
}

/// The new value of a reset line's right side: a value; else the value of the variable of
/// that name; else dot notation; else no expression.
pub open spec fn reset_value(value: Seq<char>, vars: Seq<VariableModel>) -> ExpressionModel {
    match spec_parse_value(value) {
        Some(v) => ExpressionModel::Value(v),
        None => match first_named(vars, value) {
            Some(k) => vars[k].value,
            None => match spec_dot_notation(value, ExpressionModel::Empty, vars) {
                Some(e) => e,
                None => ExpressionModel::Empty,
            },
        },
    }
}

/// What a line `name = value` gives when `name` is a variable: the reset of that variable
/// to the right side read by [`reset_value`]. Any other line gives none.
pub open spec fn spec_reset_variable(s: Seq<char>, vars: Seq<VariableModel>) -> Option<ExpressionModel> {
    match first_equals(s) {
        None => None,
        Some(i) => {
            let name = trim(s.subrange(0, i));
            let value = trim(s.subrange(i + 1, s.len() as int));
            if has_named(vars, name) {
                Some(ExpressionModel::ResetVariableValue(name, Box::new(reset_value(value, vars))))
            } else {
                None
            }
        },
    }
}

/// A reset line can be read: when its left side names a variable, its right side is no lone
/// double quote and begins with no lone double quote before a dot.
pub open spec fn reset_readable(s: Seq<char>, vars: Seq<VariableModel>) -> bool {
    match first_equals(s) {
        None => true,
        Some(i) => {
            let value = trim(s.subrange(i + 1, s.len() as int));
            has_named(vars, trim(s.subrange(0, i))) ==> !is_lone_quote(value)
                && dot_notation_readable(value, ExpressionModel::Empty)
        },
    }
}

/// Reads a line that gives a variable a new value; see [`spec_reset_variable`].
pub fn reset_variable_chars(s: &[char], vars: &VariableMap) -> (r: Option<Expression>)
    requires
        reset_readable(s@, vars@),
    ensures
        crate::line_parser::view_opt_expr(r) == spec_reset_variable(s@, vars@),
{
    let i = match find_equals_sign(s) {
        Some(i) => i,
        None => return None,
    };
    let name = trim_chars(slice_subrange(s, 0, i));
    assert(i < s.len());
    let value = trim_chars(slice_subrange(s, i + 1, s.len()));
    if !vars.has_variable(name) {
        return None;
    }
    let r_value = match parse_value_chars(value) {
        Some(v) => Expression::Value(v),
        None => match vars.first_variable(value) {
            Some(var) => {
                let e = var.value.duplicate();
                e
            },
            None => match dot_notation_chars(value, Expression::Empty, vars) {
                Some(e) => e,
                None => Expression::Empty,
            },
        },
    };
    let r = Expression::ResetVariableValue((string_of(name), Box::new(r_value)));
    assert(r@ == ExpressionModel::ResetVariableValue(name@, Box::new(r_value@)));
    Some(r)
}

/// Reads a line that gives a variable a new value; see [`spec_reset_variable`]. The
/// variables are only read.
pub fn parse_reset_variable(expression: String, vars: &mut VariableMap) -> (r: Option<Expression>)
    requires
        reset_readable(expression@, old(vars)@),
    ensures
        crate::line_parser::view_opt_expr(r) == spec_reset_variable(expression@, old(vars)@),
        final(vars)@ == old(vars)@,
{
    let chars = chars_of(expression.as_str());
    reset_variable_chars(chars.as_slice(), vars)
}

/// A declared type is kept: once a variable has a type other than `undefined`, every
/// assignment either leaves that type or is refused, and an assignment of a value of
/// another defined type is refused.
pub proof fn law_declared_type_is_kept(current: VariableType, assigned: VariableType)
    requires
        current != VariableType::Undefined,
    ensures
        assigned_type(current, assigned) is Some ==> assigned_type(current, assigned) == Some(current),
        assigned != VariableType::Undefined && assigned != current ==> assigned_type(current, assigned) is None,
{
}

/// An undefined variable takes the type of the first value given to it.
pub proof fn law_undefined_takes_assigned_type(assigned: VariableType)
    ensures
        assigned_type(VariableType::Undefined, assigned) == Some(assigned),
{
}

/// A variable defined by [`VariableMap::add_new_variable`] can be found: it is the last
/// variable, with the given name, value and the type it was given.
pub proof fn law_defined_variable_is_found(vars: Seq<VariableModel>, name: Seq<char>, value: ExpressionModel, t: VariableType)
    ensures
        ({
            let after = without_first_named(vars, name).push(VariableModel { value, var_type: t, name });
            &&& has_named(after, name)
            &&& after.last() == VariableModel { value, var_type: t, name }
        }),
{
    let after = without_first_named(vars, name).push(VariableModel { value, var_type: t, name });
    assert(after[after.len() - 1].name == name);
}

/// A line `type name` declares the variable with that type and the undefined value.
pub proof fn law_declaration_without_value(t: Seq<char>, name: Seq<char>)
    requires
        spec_var_type(t) is Some,
        words(t + seq![' '] + name) == seq![t, name],
    ensures
        spec_variable_expression(t + seq![' '] + name) == Some(ExpressionModel::VariableDefinition(
            name, spec_var_type(t)->0, Box::new(ExpressionModel::Value(LiteralModel::Undefined)))),
{
    let parts = seq![t, name];
    assert(var_line_scan(parts, 0) == VarLineState { var_type: None, name: None, past: false, value: None });
    assert(var_line_scan(parts, 1) == VarLineState { var_type: spec_var_type(t), name: None, past: false, value: None });
    assert(var_line_scan(parts, 2) == VarLineState { var_type: spec_var_type(t), name: Some(name), past: false, value: None });
}

/// Reads `name = value` the way the early variable reader does: the name is what comes
/// before the first `=`, the value what comes from it on (the `=` included), both
/// trimmed; the definition is given when the value reads as a value.
pub open spec fn spec_parse_variable(s: Seq<char>) -> Option<ExpressionModel> {
    let (name, value) = match first_equals(s) {
        Some(i) => (s.subrange(0, i), s.subrange(i, s.len() as int)),
        None => (s, Seq::empty()),
    };
    match spec_parse_value(trim(value)) {
        Some(v) => Some(ExpressionModel::VariableDefinition(trim(name), literal_type(v), Box::new(
            ExpressionModel::Value(v)))),
        None => None,
    }
}

/// Reads a variable line the way the early variable reader does; see
/// [`spec_parse_variable`].
pub fn parse_variable(expression: String) -> (r: Option<Expression>)
    ensures
        crate::line_parser::view_opt_expr(r) == spec_parse_variable(expression@),
{
    let chars = chars_of(expression.as_str());
    let found = find_equals_sign(chars.as_slice());
    proof {
        lemma_first_index(chars@.len() as int, |j: int| chars@[j] == '=');
    }
    let (name, raw) = match found {
        Some(i) => (slice_subrange(chars.as_slice(), 0, i), slice_subrange(chars.as_slice(), i, chars.len())),
        None => (chars.as_slice(), slice_subrange(chars.as_slice(), 0, 0)),
    };
    assert(raw@.len() > 0 ==> raw@[0] == '=');
    assert((name@, raw@) == (match first_equals(expression@) {
        Some(i) => (expression@.subrange(0, i), expression@.subrange(i, expression@.len() as int)),
        None => (expression@, Seq::<char>::empty()),
    }));
    let value = trim_chars(raw);
    proof {
        crate::text::lemma_trim(raw@);
        if raw@.len() > 0 {
            assert(!is_ws('='));
            assert(crate::text::trim_start(raw@) == raw@);
            assert(value@.len() > 0 ==> value@[0] == '=');
        }
    }
    match parse_value_chars(value) {
        Some(v) => {
            let t = match &v {
                Value::Boolean(_) => VariableType::Boolean,
                Value::String(_) => VariableType::String,
                Value::Number(_) => VariableType::Number,
                Value::Undefined => VariableType::Undefined,
            };
            let inner = Expression::Value(v);
            let r = Expression::VariableDefinition((string_of(trim_chars(name)), t, Box::new(inner)));
            assert(r@ == ExpressionModel::VariableDefinition(trim(name@), t, Box::new(inner@)));
            Some(r)
        },
        None => None,
    }
}

/// The early variable reader never reads a definition: the value part it reads starts
/// with the `=` itself, and no value is written that way.
pub proof fn law_parse_variable_reads_nothing(s: Seq<char>)
    ensures
        spec_parse_variable(s) is None,
{
    lemma_first_index(s.len() as int, |j: int| s[j] == '=');
    let raw = match first_equals(s) {
        Some(i) => s.subrange(i, s.len() as int),
        None => Seq::<char>::empty(),
    };
    let t = trim(raw);
    crate::text::lemma_trim(raw);
    if raw.len() > 0 {
        assert(raw[0] == '=');
        assert(!is_ws('='));
        assert(crate::text::trim_start(raw) == raw);
    }
    assert(t.len() > 0 ==> t[0] == '=');
    reveal_strlit("undefined");
    reveal_strlit("true");
    reveal_strlit("false");
    if t.len() > 0 {
        assert(t != "undefined"@ && t != "true"@ && t != "false"@) by {
            assert("undefined"@[0] == 'u');
            assert("true"@[0] == 't');
            assert("false"@[0] == 'f');
        }
        let u = crate::numeral::unsigned_part(t);
        assert(u == t);
        assert(crate::numeral::ascii_lower(t[0]) != crate::numeral::ascii_lower('i'));
        assert(crate::numeral::ascii_lower(t[0]) != crate::numeral::ascii_lower('n'));
        assert(!crate::numeral::eq_ignore_ascii_case(u, seq!['i', 'n', 'f']));
        assert(!crate::numeral::eq_ignore_ascii_case(u, seq!['i', 'n', 'f', 'i', 'n', 'i', 't', 'y']));
        assert(!crate::numeral::eq_ignore_ascii_case(u, seq!['n', 'a', 'n']));
        lemma_first_index(t.len() as int, |i: int| t[i] == 'e' || t[i] == 'E');
        let k = crate::numeral::exponent_start(t);
        let m = t.subrange(0, k);
        if k > 0 {
            assert(m[0] == '=');
            assert(!crate::numeral::is_decimal(m));
        } else {
            assert(!crate::numeral::is_decimal(m));
        }
        assert(!crate::numeral::is_float_literal(t));
    } else {
        lemma_first_index(t.len() as int, |i: int| t[i] == 'e' || t[i] == 'E');
        assert(t.subrange(0, crate::numeral::exponent_start(t)) =~= Seq::<char>::empty());
        assert(!crate::numeral::is_decimal(t.subrange(0, crate::numeral::exponent_start(t))));
        assert(!crate::numeral::is_float_literal(t));
    }
}

} // verus!
