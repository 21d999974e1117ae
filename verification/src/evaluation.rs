//! Running an expression of the block parser, step by step.
//!
//! An expression is a core (a value, a variable, a definition or nothing) inside frames:
//! calls of built-in functions and resets of variables. The core is run first, then each
//! frame from the innermost out, on what the one inside gave. Writing and `inc_one()`
//! compute on numbers in `f64`, which is done outside the library: for them a frame gives
//! an action to carry out.
use vstd::prelude::*;

use crate::text::{chars_of, chars_eq_str, decimal};
use crate::line_parser::{Expression, ExpressionModel};
use crate::library::{Output, extract_value, len, m_type, m_let, m_if, spec_extract_value, byte_len, type_word};
use crate::value_parser::{Value, LiteralModel};
use crate::variable::{
    VariableMap, VariableModel, VariableType, literal_type, first_named, spec_expression_type, assigned_type,
    without_first_named,
};

verus! {

/// What encloses the core of an expression.
pub enum Frame {
    /// A call of the built-in function of that name (plain or chained by a dot).
    Call(String),
    /// A new value for the variable of that name.
    Reset(String),
}

/// The mathematical value of a [`Frame`].
pub enum FrameModel {
    Call(Seq<char>),
    Reset(Seq<char>),
}

impl View for Frame {
    type V = FrameModel;

    open spec fn view(&self) -> FrameModel {
        match self {
            Frame::Call(n) => FrameModel::Call(n@),
            Frame::Reset(n) => FrameModel::Reset(n@),
        }
    }
}

pub open spec fn view_frames(v: Seq<Frame>) -> Seq<FrameModel> {
    v.map_values(|f: Frame| f@)
}

/// The frames of an expression, the outermost first.
pub open spec fn frames_of(e: ExpressionModel) -> Seq<FrameModel>
    decreases e,
{
    match e {
        ExpressionModel::ExecutionExpression(n, inner) => seq![FrameModel::Call(n)] + frames_of(*inner),
        ExpressionModel::ChainingExpression(n, inner) => seq![FrameModel::Call(n)] + frames_of(*inner),
        ExpressionModel::ResetVariableValue(n, inner) => seq![FrameModel::Reset(n)] + frames_of(*inner),
        _ => Seq::empty(),
    }
}

/// The core of an expression.
pub open spec fn core_of(e: ExpressionModel) -> ExpressionModel
    decreases e,
{
    match e {
        ExpressionModel::ExecutionExpression(_, inner) => core_of(*inner),
        ExpressionModel::ChainingExpression(_, inner) => core_of(*inner),
        ExpressionModel::ResetVariableValue(_, inner) => core_of(*inner),
        _ => e,
    }
}

/// Parts an expression into its frames, the outermost first, and its core.
pub fn unwind(ex: Expression) -> (r: (Vec<Frame>, Expression))
    ensures
        view_frames(r.0@) == frames_of(ex@),
        r.1@ == core_of(ex@),
    decreases ex,
{
    let ghost e = ex@;
    let (frame, inner) = match ex {
        Expression::ExecutionExpression((n, inner)) => (Frame::Call(n), inner),
        Expression::ChainingExpression((n, inner)) => (Frame::Call(n), inner),
        Expression::ResetVariableValue((n, inner)) => (Frame::Reset(n), inner),
        other => {
            let v: Vec<Frame> = Vec::new();
            assert(view_frames(v@) =~= Seq::<FrameModel>::empty());
            return (v, other);
        },
    };
    let (mut frames, core) = unwind(*inner);
    let ghost rest = frames@;
    frames.insert(0, frame);
    assert(view_frames(frames@) =~= seq![frame@] + view_frames(rest));
    (frames, core)
}

/// What a step gives: a result, or writing a value (`print`, `println`), or adding one to
/// a number (`inc_one()`) outside the library.
pub enum Action {
    Done(Result<Output, ()>),
    Print(Value),
    Println(Value),
    IncOne(String),
}

/// The mathematical value of an [`Action`].
pub enum ActionModel {
    Fails,
    Succeeds,
    Gives(ExpressionModel),
    Print(LiteralModel),
    Println(LiteralModel),
    IncOne(Seq<char>),
}

impl View for Action {
    type V = ActionModel;

    open spec fn view(&self) -> ActionModel {
        match self {
            Action::Done(Err(())) => ActionModel::Fails,
            Action::Done(Ok(Output::Success)) => ActionModel::Succeeds,
            Action::Done(Ok(Output::Expression(e))) => ActionModel::Gives(e@),
            Action::Print(v) => ActionModel::Print(v@),
            Action::Println(v) => ActionModel::Println(v@),
            Action::IncOne(n) => ActionModel::IncOne(n@),
        }
    }
}

/// The outcome of a result, as an action that is done.
pub open spec fn outcome(r: Result<Output, ()>) -> ActionModel {
    match r {
        Err(()) => ActionModel::Fails,
        Ok(Output::Success) => ActionModel::Succeeds,
        Ok(Output::Expression(e)) => ActionModel::Gives(e@),
    }
}

/// Running a core: a value or a variable gives itself; a definition adds the variable
/// (see [`defined`]); nothing, or a frame, fails.
pub open spec fn run_core(core: ExpressionModel, vars: Seq<VariableModel>) -> (ActionModel, Seq<VariableModel>) {
    match core {
        ExpressionModel::Value(_) => (ActionModel::Gives(core), vars),
        ExpressionModel::Variable(_) => (ActionModel::Gives(core), vars),
        ExpressionModel::VariableDefinition(n, t, v) => match defined(vars, n, t, *v) {
            Some(nv) => (ActionModel::Succeeds, nv),
            None => (ActionModel::Fails, vars),
        },
        _ => (ActionModel::Fails, vars),
    }
}

/// The variables after defining one: its value must have a type that the declared type
/// takes; a variable of the same name before is replaced.
pub open spec fn defined(vars: Seq<VariableModel>, n: Seq<char>, t: VariableType, v: ExpressionModel) -> Option<Seq<VariableModel>> {
    match spec_expression_type(v) {
        Some(vt) => match assigned_type(t, vt) {
            Some(nt) => Some(without_first_named(vars, n).push(VariableModel { value: v, var_type: nt, name: n })),
            None => None,
        },
        None => None,
    }
}

/// The variables after a reset: the variable must exist and take the value's type.
pub open spec fn reset(vars: Seq<VariableModel>, n: Seq<char>, v: ExpressionModel) -> Option<Seq<VariableModel>> {
    match first_named(vars, n) {
        None => None,
        Some(i) => match spec_expression_type(v) {
            Some(t) => match assigned_type(vars[i].var_type, t) {
                Some(nt) => Some(vars.update(i, VariableModel { value: v, var_type: nt, name: vars[i].name })),
                None => None,
            },
            None => None,
        },
    }
}

/// A built-in function applied to an argument: `print` and `println` write the argument's
/// value, `inc_one()` adds one to a number, `len()` gives a text's length in bytes,
/// `type()` the type of a value or of a variable; `let`, `if` and unknown names fail.
pub open spec fn call_action(name: Seq<char>, arg: ExpressionModel, vars: Seq<VariableModel>) -> ActionModel {
    if name == "print"@ {
        match spec_extract_value(arg, vars) {
            Some(v) => ActionModel::Print(v),
            None => ActionModel::Fails,
        }
    } else if name == "println"@ {
        match spec_extract_value(arg, vars) {
            Some(v) => ActionModel::Println(v),
            None => ActionModel::Fails,
        }
    } else if name == "inc_one()"@ {
        match spec_extract_value(arg, vars) {
            Some(LiteralModel::Number(n)) => ActionModel::IncOne(n),
            _ => ActionModel::Fails,
        }
    } else if name == "len()"@ {
        match spec_extract_value(arg, vars) {
            Some(LiteralModel::String(s)) => ActionModel::Gives(
                ExpressionModel::Value(LiteralModel::Number(decimal(byte_len(s)))),
            ),
            _ => ActionModel::Fails,
        }
    } else if name == "type()"@ {
        match arg {
            ExpressionModel::Value(v) => ActionModel::Gives(
                ExpressionModel::Value(LiteralModel::String(type_word(literal_type(v)))),
            ),
            ExpressionModel::Variable(n) => match first_named(vars, n) {
                Some(i) => ActionModel::Gives(
                    ExpressionModel::Value(LiteralModel::String(type_word(vars[i].var_type))),
                ),
                None => ActionModel::Fails,
            },
            _ => ActionModel::Fails,
        }
    } else {
        ActionModel::Fails
    }
}

/// A frame applied to what the expression inside it gave: a failure, or a success where a
/// value is needed, fails; a call gives [`call_action`]; a reset sets the variable.
pub open spec fn frame_action(f: FrameModel, inside: ActionModel, vars: Seq<VariableModel>) -> (ActionModel, Seq<VariableModel>) {
    match inside {
        ActionModel::Gives(arg) => match f {
            FrameModel::Call(name) => (call_action(name, arg, vars), vars),
            FrameModel::Reset(n) => match reset(vars, n, arg) {
                Some(nv) => (ActionModel::Succeeds, nv),
                None => (ActionModel::Fails, vars),
            },
        },
        _ => (ActionModel::Fails, vars),
    }
}

/// Runs the core of an expression; see [`run_core`].
pub fn evaluate_core(core: Expression, vars: &mut VariableMap) -> (r: Result<Output, ()>)
    ensures
        (outcome(r), final(vars)@) == run_core(core@, old(vars)@),
{
    match core {
        Expression::Value(_) => Ok(Output::Expression(core)),
        Expression::Variable(_) => Ok(Output::Expression(core)),
        Expression::VariableDefinition((name, var_type, value)) => vars.add_new_variable(name, *value, var_type),
        _ => Err(()),
    }
}

/// Applies a frame to what the expression inside it gave; see [`frame_action`].
pub fn apply_frame(frame: &Frame, inside: Result<Output, ()>, vars: &mut VariableMap) -> (a: Action)
    ensures
        (a@, final(vars)@) == frame_action(frame@, outcome(inside), old(vars)@),
{
    let arg = match inside {
        Ok(Output::Expression(e)) => e,
        _ => return Action::Done(Err(())),
    };
    match frame {
        Frame::Reset(name) => match vars.set_variable_value(name.as_str(), arg) {
            Ok(()) => Action::Done(Ok(Output::Success)),
            Err(()) => Action::Done(Err(())),
        },
        Frame::Call(name) => {
            let n = chars_of(name.as_str());
            if chars_eq_str(n.as_slice(), "print") {
                match extract_value(arg, vars) {
                    Ok(v) => Action::Print(v),
                    Err(()) => Action::Done(Err(())),
                }
            } else if chars_eq_str(n.as_slice(), "println") {
                match extract_value(arg, vars) {
                    Ok(v) => Action::Println(v),
                    Err(()) => Action::Done(Err(())),
                }
            } else if chars_eq_str(n.as_slice(), "inc_one()") {
                match extract_value(arg, vars) {
                    Ok(Value::Number(x)) => Action::IncOne(x),
                    _ => Action::Done(Err(())),
                }
            } else if chars_eq_str(n.as_slice(), "len()") {
                Action::Done(len(arg, vars))
            } else if chars_eq_str(n.as_slice(), "type()") {
                Action::Done(m_type(arg, vars))
            } else if chars_eq_str(n.as_slice(), "let") {
                Action::Done(m_let(arg, vars))
            } else if chars_eq_str(n.as_slice(), "if") {
                Action::Done(m_if(arg, vars))
            } else {
                Action::Done(Err(()))
            }
        },
    }
}

} // verus!
