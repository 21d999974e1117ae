use blocky_lang::evaluation::{apply_frame, evaluate_core, unwind, Action, Frame};
use blocky_lang::library::Output;
use blocky_lang::line_parser::Expression;
use blocky_lang::value_parser::Value;
use blocky_lang::variable::{VariableMap, VariableType};

fn text(s: &str) -> Expression {
    Expression::Value(Value::String(s.to_string()))
}

fn number(s: &str) -> Expression {
    Expression::Value(Value::Number(s.to_string()))
}

fn gives(r: &Result<Output, ()>) -> Option<&Expression> {
    match r {
        Ok(Output::Expression(e)) => Some(e),
        _ => None,
    }
}

#[test]
fn unwind_lists_frames_outermost_first() {
    let ex = Expression::ExecutionExpression((
        "print".to_string(),
        Box::new(Expression::ChainingExpression(("len()".to_string(), Box::new(text("abc"))))),
    ));
    let (frames, core) = unwind(ex);
    assert_eq!(frames.len(), 2);
    assert!(matches!(&frames[0], Frame::Call(n) if n == "print"));
    assert!(matches!(&frames[1], Frame::Call(n) if n == "len()"));
    assert!(matches!(core, Expression::Value(Value::String(ref s)) if s == "abc"));

    let (frames, core) = unwind(Expression::ResetVariableValue(("x".to_string(), Box::new(Expression::Empty))));
    assert_eq!(frames.len(), 1);
    assert!(matches!(&frames[0], Frame::Reset(n) if n == "x"));
    assert!(matches!(core, Expression::Empty));
}

#[test]
fn calls_give_results_or_actions() {
    let mut vars = VariableMap::new();
    let len = Frame::Call("len()".to_string());
    let r = apply_frame(&len, Ok(Output::Expression(text("abc"))), &mut vars);
    match r {
        Action::Done(done) => assert!(matches!(gives(&done), Some(Expression::Value(Value::Number(n))) if n == "3")),
        _ => panic!("len() is computed by the library"),
    }
    let inc = Frame::Call("inc_one()".to_string());
    assert!(matches!(apply_frame(&inc, Ok(Output::Expression(number("41"))), &mut vars), Action::IncOne(n) if n == "41"));
    assert!(matches!(apply_frame(&inc, Ok(Output::Expression(text("41"))), &mut vars), Action::Done(Err(()))));
    let print = Frame::Call("print".to_string());
    assert!(matches!(
        apply_frame(&print, Ok(Output::Expression(text("hi"))), &mut vars),
        Action::Print(Value::String(s)) if s == "hi"
    ));
    let println = Frame::Call("println".to_string());
    assert!(matches!(
        apply_frame(&println, Ok(Output::Expression(Expression::Value(Value::Boolean(true)))), &mut vars),
        Action::Println(Value::Boolean(true))
    ));
    assert!(matches!(apply_frame(&println, Ok(Output::Success), &mut vars), Action::Done(Err(()))));
    assert!(matches!(apply_frame(&println, Err(()), &mut vars), Action::Done(Err(()))));
    let unknown = Frame::Call("shout".to_string());
    assert!(matches!(apply_frame(&unknown, Ok(Output::Expression(text("a"))), &mut vars), Action::Done(Err(()))));
    let let_call = Frame::Call("let".to_string());
    assert!(matches!(apply_frame(&let_call, Ok(Output::Expression(text("a"))), &mut vars), Action::Done(Err(()))));
}

#[test]
fn definitions_and_resets_change_the_variables() {
    let mut vars = VariableMap::new();
    assert!(evaluate_core(Expression::Empty, &mut vars).is_err());
    let definition = Expression::VariableDefinition(("x".to_string(), VariableType::Number, Box::new(number("1"))));
    assert!(matches!(evaluate_core(definition, &mut vars), Ok(Output::Success)));
    let reset = Frame::Reset("x".to_string());
    assert!(matches!(apply_frame(&reset, Ok(Output::Expression(number("2"))), &mut vars), Action::Done(Ok(Output::Success))));
    assert!(matches!(apply_frame(&reset, Ok(Output::Expression(text("two"))), &mut vars), Action::Done(Err(()))));
    let other = Frame::Reset("y".to_string());
    assert!(matches!(apply_frame(&other, Ok(Output::Expression(number("2"))), &mut vars), Action::Done(Err(()))));
    let core = evaluate_core(Expression::Variable("x".to_string()), &mut vars);
    assert!(matches!(gives(&core), Some(Expression::Variable(n)) if n == "x"));
    let len = Frame::Call("type()".to_string());
    match apply_frame(&len, core, &mut vars) {
        Action::Done(done) => assert!(matches!(gives(&done), Some(Expression::Value(Value::String(t))) if t == "number")),
        _ => panic!("type() is computed by the library"),
    }
}
