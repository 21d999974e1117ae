//! Values and the table of variables of a running program.
use vstd::prelude::*;

use crate::text::{trim, chars_of, trim_chars, string_of, chars_eq_str};
use crate::numeral::{is_float_literal, is_float_text};

verus! {

/// A value of the language. A number is held by its numeral, as written in the program.
#[derive(Clone, Debug, PartialEq)]
pub enum Value {
    String(String),
    Number(String),
    Bool(bool),
    Undefined,
}

/// The mathematical value of a [`Value`].
pub enum ValueModel {
    String(Seq<char>),
    Number(Seq<char>),
    Bool(bool),
    Undefined,
}

impl View for Value {
    type V = ValueModel;

    open spec fn view(&self) -> ValueModel {
        match self {
            Value::String(s) => ValueModel::String(s@),
            Value::Number(n) => ValueModel::Number(n@),
            Value::Bool(b) => ValueModel::Bool(*b),
            Value::Undefined => ValueModel::Undefined,
        }
    }
}

impl Value {
    /// A copy of the value.
    pub fn duplicate(&self) -> (r: Value)
        ensures
            r == *self,
    {
        match self {
            Value::String(s) => Value::String(s.clone()),
            Value::Number(n) => Value::Number(n.clone()),
            Value::Bool(b) => Value::Bool(*b),
            Value::Undefined => Value::Undefined,
        }
    }
}

/// A variable: the value it holds.
#[derive(Clone, Debug)]
pub struct Var {
    value: Value,
}

impl View for Var {
    type V = ValueModel;

    closed spec fn view(&self) -> ValueModel {
        self.value@
    }
}

impl Var {
    pub fn get_value(&self) -> (r: &Value)
        ensures
            r@ == self@,
    {
        &self.value
    }
}

/// The variables of a program, each name at most once.
#[derive(Debug)]
pub struct VarMap {
    vars: Vec<(String, Var)>,
}

/// The table that a list of distinct entries stands for.
pub closed spec fn entries_map(e: Seq<(String, Var)>) -> Map<Seq<char>, ValueModel>
    decreases e.len(),
{
    if e.len() == 0 {
        Map::empty()
    } else {
        entries_map(e.drop_last()).insert(e.last().0@, e.last().1@)
    }
}

spec fn distinct_names(e: Seq<(String, Var)>) -> bool {
    forall|i: int, j: int| 0 <= i < j < e.len() ==> (#[trigger] e[i]).0@ != (#[trigger] e[j]).0@
}

proof fn lemma_entries_map_has(e: Seq<(String, Var)>, k: int)
    requires
        distinct_names(e),
        0 <= k < e.len(),
    ensures
        entries_map(e).contains_key(e[k].0@),
        entries_map(e)[e[k].0@] == e[k].1@,
    decreases e.len(),
{
    if k < e.len() - 1 {
        lemma_entries_map_has(e.drop_last(), k);
        assert(e.drop_last()[k] == e[k]);
    }
}

proof fn lemma_entries_map_lacks(e: Seq<(String, Var)>, name: Seq<char>)
    requires
        forall|i: int| 0 <= i < e.len() ==> (#[trigger] e[i]).0@ != name,
    ensures
        !entries_map(e).contains_key(name),
    decreases e.len(),
{
    if e.len() > 0 {
        lemma_entries_map_lacks(e.drop_last(), name);
    }
}

proof fn lemma_entries_map_update(e: Seq<(String, Var)>, k: int, v: Var)
    requires
        distinct_names(e),
        0 <= k < e.len(),
    ensures
        distinct_names(e.update(k, (e[k].0, v))),
        entries_map(e.update(k, (e[k].0, v))) == entries_map(e).insert(e[k].0@, v@),
    decreases e.len(),
{
    let e2 = e.update(k, (e[k].0, v));
    assert(distinct_names(e2)) by {
        assert forall|i: int, j: int| 0 <= i < j < e2.len() implies (#[trigger] e2[i]).0@ != (
        #[trigger] e2[j]).0@ by {
            assert(e2[i].0 == e[i].0);
            assert(e2[j].0 == e[j].0);
        }
    }
    if k == e.len() - 1 {
        assert(e2.drop_last() =~= e.drop_last());
        assert(entries_map(e2) =~= entries_map(e).insert(e[k].0@, v@));
    } else {
        lemma_entries_map_update(e.drop_last(), k, v);
        assert(e2.drop_last() =~= e.drop_last().update(k, (e[k].0, v)));
        assert(e.last().0@ != e[k].0@);
        assert(entries_map(e2) =~= entries_map(e).insert(e[k].0@, v@));
    }
}

impl View for VarMap {
    type V = Map<Seq<char>, ValueModel>;

    closed spec fn view(&self) -> Map<Seq<char>, ValueModel> {
        entries_map(self.vars@)
    }
}

impl VarMap {
    #[verifier::type_invariant]
    spec fn wf(&self) -> bool {
        distinct_names(self.vars@)
    }

    pub fn new() -> (r: Self)
        ensures
            r@ == Map::<Seq<char>, ValueModel>::empty(),
    {
        VarMap { vars: Vec::new() }
    }

    /// A copy of the table.
    pub fn duplicate(&self) -> (r: Self)
        ensures
            r@ == self@,
    {
        proof {
            use_type_invariant(self);
        }
        let mut vars: Vec<(String, Var)> = Vec::new();
        let mut i: usize = 0;
        while i < self.vars.len()
            invariant
                i <= self.vars@.len(),
                distinct_names(self.vars@),
                vars@ == self.vars@.take(i as int),
            decreases self.vars@.len() - i,
        {
            let entry = (self.vars[i].0.clone(), Var { value: self.vars[i].1.value.duplicate() });
            assert(entry == self.vars@[i as int]);
            vars.push(entry);
            i = i + 1;
            assert(vars@ =~= self.vars@.take(i as int));
        }
        assert(vars@ =~= self.vars@);
        VarMap { vars }
    }

    /// Where the variable of that name stands, if there is one.
    fn position(&self, name: &String) -> (r: Option<usize>)
        ensures
            match r {
                Some(k) => k < self.vars@.len() && self.vars@[k as int].0@ == name@,
                None => forall|i: int| 0 <= i < self.vars@.len() ==> (#[trigger] self.vars@[i]).0@ != name@,
            },
    {
        let mut i: usize = 0;
        while i < self.vars.len()
            invariant
                i <= self.vars@.len(),
                forall|j: int| 0 <= j < i ==> (#[trigger] self.vars@[j]).0@ != name@,
            decreases self.vars@.len() - i,
        {
            if self.vars[i].0 == *name {
                return Some(i);
            }
            i = i + 1;
        }
        None
    }

    /// Sets the variable `name` to `value`, adding it if it does not exist.
    fn set(&mut self, name: String, value: Value)
        ensures
            final(self)@ == old(self)@.insert(name@, value@),
    {
        proof {
            use_type_invariant(&*self);
        }
        let var = Var { value };
        match self.position(&name) {
            Some(k) => {
                proof {
                    lemma_entries_map_update(self.vars@, k as int, var);
                }
                let mut vars: Vec<(String, Var)> = Vec::new();
                core::mem::swap(&mut vars, &mut self.vars);
                let ghost before = vars@;
                let key = vars[k].0.clone();
                vars.set(k, (key, var));
                assert(vars@ == before.update(k as int, (before[k as int].0, var)));
                self.vars = vars;
            },
            None => {
                let ghost before = self.vars@;
                let mut vars: Vec<(String, Var)> = Vec::new();
                core::mem::swap(&mut vars, &mut self.vars);
                vars.push((name, var));
                proof {
                    assert(vars@.drop_last() =~= before);
                    assert forall|i: int, j: int| 0 <= i < j < vars@.len() implies (
                    #[trigger] vars@[i]).0@ != (#[trigger] vars@[j]).0@ by {
                        if j == vars@.len() - 1 {
                            assert(vars@[i] == before[i]);
                        } else {
                            assert(vars@[i] == before[i]);
                            assert(vars@[j] == before[j]);
                        }
                    }
                }
                self.vars = vars;
            },
        }
    }

    /// Gives the variable `old_value` the value `new_value`, adding it if needed.
    pub fn replace_value(&mut self, old_value: String, new_value: Value)
        ensures
            final(self)@ == old(self)@.insert(old_value@, new_value@),
    {
        self.set(old_value, new_value)
    }

    /// Defines (or redefines) the variable `name` with the value written as `value`
    /// (the undefined value when `undefined` holds); fails with the message of
    /// [`parse_type`], leaving the table unchanged, when the text is no value.
    pub fn add_new(&mut self, name: String, value: String, undefined: bool) -> (r: Result<(), String>)
        ensures
            match spec_parse_type(value@, undefined) {
                Ok(v) => r is Ok && final(self)@ == old(self)@.insert(name@, v),
                Err(msg) => r matches Err(m) && m@ == msg && final(self)@ == old(self)@,
            },
    {
        match parse_type(value.as_str(), undefined) {
            Ok(v) => {
                self.set(name, v);
                Ok(())
            },
            Err(msg) => Err(msg),
        }
    }

    /// The value of the variable `name`, if it exists.
    pub fn get_pure_value(&self, name: String) -> (r: Option<Value>)
        ensures
            match r {
                Some(v) => self@.contains_key(name@) && v@ == self@[name@],
                None => !self@.contains_key(name@),
            },
    {
        proof {
            use_type_invariant(self);
        }
        match self.position(&name) {
            Some(k) => {
                proof {
                    lemma_entries_map_has(self.vars@, k as int);
                }
                Some(self.vars[k].1.value.duplicate())
            },
            None => {
                proof {
                    lemma_entries_map_lacks(self.vars@, name@);
                }
                None
            },
        }
    }

    /// The variable `name`, if it exists.
    pub fn get_pure_var(&self, name: String) -> (r: Option<Var>)
        ensures
            match r {
                Some(v) => self@.contains_key(name@) && v@ == self@[name@],
                None => !self@.contains_key(name@),
            },
    {
        match self.get_pure_value(name) {
            Some(value) => Some(Var { value }),
            None => None,
        }
    }

    /// Whether the variable `name` exists.
    pub fn var_exists(&self, name: &String) -> (r: bool)
        ensures
            r == self@.contains_key(name@),
    {
        proof {
            use_type_invariant(self);
        }
        match self.position(name) {
            Some(k) => {
                proof {
                    lemma_entries_map_has(self.vars@, k as int);
                }
                true
            },
            None => {
                proof {
                    lemma_entries_map_lacks(self.vars@, name@);
                }
                false
            },
        }
    }
}

impl Default for VarMap {
    fn default() -> (r: Self)
        ensures
            r@ == Map::<Seq<char>, ValueModel>::empty(),
    {
        Self::new()
    }
}

/// The value written as `value` (trimmed): the undefined value when `undefined` holds,
/// otherwise `true`, `false`, a string literal between double quotes, or a numeral that
/// `str::parse::<f64>` accepts.
pub open spec fn spec_parse_type(value: Seq<char>, undefined: bool) -> Result<ValueModel, Seq<char>> {
    let v = trim(value);
    if undefined {
        Ok(ValueModel::Undefined)
    } else if v == "true"@ {
        Ok(ValueModel::Bool(true))
    } else if v == "false"@ {
        Ok(ValueModel::Bool(false))
    } else if v.len() > 0 && v[0] == '"' && v.last() == '"' {
        if v.len() >= 2 {
            Ok(ValueModel::String(v.subrange(1, v.len() - 1)))
        } else {
            Err("Something up with ya String"@)
        }
    } else if is_float_literal(v) {
        Ok(ValueModel::Number(v))
    } else {
        Err("Unknown data Type"@)
    }
}

/// Reads a value; see [`spec_parse_type`].
pub fn parse_type(value: &str, undefined: bool) -> (r: Result<Value, String>)
    ensures
        match spec_parse_type(value@, undefined) {
            Ok(v) => r matches Ok(x) && x@ == v,
            Err(msg) => r matches Err(m) && m@ == msg,
        },
{
    let chars = chars_of(value);
    let v = trim_chars(chars.as_slice());
    if undefined {
        return Ok(Value::Undefined);
    }
    if chars_eq_str(v, "true") {
        return Ok(Value::Bool(true));
    }
    if chars_eq_str(v, "false") {
        return Ok(Value::Bool(false));
    }
    let n = v.len();
    if n > 0 && v[0] == '"' && v[n - 1] == '"' {
        if n >= 2 {
            let inner = vstd::slice::slice_subrange(v, 1, n - 1);
            return Ok(Value::String(string_of(inner)));
        }
        return Err("Something up with ya String".to_owned());
    }
    if is_float_text(v) {
        return Ok(Value::Number(string_of(v)));
    }
    Err("Unknown data Type".to_owned())
}

/// A read gives back what a write wrote, and a write leaves the other variables as they
/// were (the writes being [`VarMap::add_new`] and [`VarMap::replace_value`], the read
/// [`VarMap::get_pure_value`]).
pub proof fn law_read_after_write(m: Map<Seq<char>, ValueModel>, name: Seq<char>, v: ValueModel, other: Seq<char>)
    ensures
        m.insert(name, v).contains_key(name),
        m.insert(name, v)[name] == v,
        other != name ==> m.insert(name, v).contains_key(other) == m.contains_key(other),
        other != name && m.contains_key(other) ==> m.insert(name, v)[other] == m[other],
{
}

/// A word without whitespace at either end is its own trimmed text.
proof fn lemma_trim_unpadded(w: Seq<char>)
    requires
        w.len() > 0,
        !crate::text::is_ws(w[0]),
        !crate::text::is_ws(w.last()),
    ensures
        trim(w) == w,
{
    assert(crate::text::trim_start(w) == w);
}

/// The words `true` and `false` read as the two truth values.
proof fn lemma_bool_words()
    ensures
        spec_parse_type("true"@, false) == Ok::<ValueModel, Seq<char>>(ValueModel::Bool(true)),
        spec_parse_type("false"@, false) == Ok::<ValueModel, Seq<char>>(ValueModel::Bool(false)),
{
    reveal_strlit("true");
    reveal_strlit("false");
    lemma_trim_unpadded("true"@);
    lemma_trim_unpadded("false"@);
    assert("false"@ != "true"@);
}

/// Reading the text that shows a truth value gives that value back: for every `b`, the
/// text by which a core value `b` is shown reads as `Bool(b)`, and the two truth values
/// are read as different values.
pub proof fn law_shown_bool_reads_back(b: bool)
    ensures
        spec_parse_type(crate::i_core::spec_display(crate::i_core::CoreModel::Boolean(b)), false)
            == Ok::<ValueModel, Seq<char>>(ValueModel::Bool(b)),
        spec_parse_type(crate::i_core::spec_display(crate::i_core::CoreModel::Boolean(b)), false)
            != spec_parse_type(crate::i_core::spec_display(crate::i_core::CoreModel::Boolean(!b)), false),
{
    lemma_bool_words();
}

/// The two readers of literal values agree on truth values: every text that the value
/// parser of the block language reads as the truth value `b` is read by `parse_type` as
/// `Bool(b)` too.
pub proof fn law_readers_agree_on_bools(t: Seq<char>, b: bool)
    requires
        crate::value_parser::spec_parse_value(t) == Some(crate::value_parser::LiteralModel::Boolean(b)),
    ensures
        spec_parse_type(t, false) == Ok::<ValueModel, Seq<char>>(ValueModel::Bool(b)),
{
    lemma_bool_words();
}

/// A text between double quotes reads as that text: for every `x`, `"x"` is read as
/// `String(x)`.
pub proof fn law_quoted_text_reads_back(x: Seq<char>)
    ensures
        spec_parse_type(seq!['"'] + x + seq!['"'], false) == Ok::<ValueModel, Seq<char>>(ValueModel::String(x)),
{
    let q = seq!['"'] + x + seq!['"'];
    reveal_strlit("true");
    reveal_strlit("false");
    lemma_trim_unpadded(q);
    assert(q != "true"@ && q != "false"@) by {
        assert(q[0] == '"');
        assert("true"@[0] == 't');
        assert("false"@[0] == 'f');
    }
    assert(q.subrange(1, q.len() - 1) =~= x);
}

} // verus!
