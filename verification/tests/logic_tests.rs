use std::cmp::Ordering;

use blocky_lang::execution_policy::ExecutionPolicy;
use blocky_lang::logic::{
    attempt_logic_parse, compare_texts, compare_values, logic_result, logical_left, logical_right, negate, resolve_variable,
    type_error, values_equal, LogicExpression, LogicalOp, Order, OrderOp,
};
use blocky_lang::runtime_error::RuntimeError;
use blocky_lang::var_handler::{Value, VarMap};

// The library takes the order of two numbers as an argument; it is computed here in `f64`,
// and the rest of each step is the library's.
fn number_order(a: &Value, b: &Value) -> Order {
    match (a, b) {
        (Value::Number(x), Value::Number(y)) => match x.parse::<f64>().unwrap().partial_cmp(&y.parse::<f64>().unwrap()) {
            Some(Ordering::Less) => Order::Less,
            Some(Ordering::Equal) => Order::Equal,
            Some(Ordering::Greater) => Order::Greater,
            None => Order::Unordered,
        },
        _ => Order::Unordered,
    }
}

fn pair(l: &LogicExpression, r: &LogicExpression, vars: &VarMap, policy: &ExecutionPolicy) -> Result<(Value, Value), RuntimeError> {
    Ok((evaluate(l, vars, policy)?, evaluate(r, vars, policy)?))
}

fn ordered(l: &LogicExpression, r: &LogicExpression, vars: &VarMap, policy: &ExecutionPolicy, op: OrderOp) -> Result<Value, RuntimeError> {
    let (a, b) = pair(l, r, vars, policy)?;
    let numbers = number_order(&a, &b);
    compare_values(a, b, op, numbers)
}

fn logical(l: &LogicExpression, r: &LogicExpression, vars: &VarMap, policy: &ExecutionPolicy, op: LogicalOp) -> Result<Value, RuntimeError> {
    match logical_left(op, evaluate(l, vars, policy)?)? {
        Some(decided) => Ok(Value::Bool(decided)),
        None => logical_right(op, evaluate(r, vars, policy)?),
    }
}

fn evaluate(expression: &LogicExpression, vars: &VarMap, policy: &ExecutionPolicy) -> Result<Value, RuntimeError> {
    match expression {
        LogicExpression::Error(error) => Err(type_error(format!("{error:?}"))),
        LogicExpression::Value(value) => Ok(value.clone()),
        LogicExpression::Variable(name) => resolve_variable(name, vars, policy),
        LogicExpression::Not(e) => negate(evaluate(e, vars, policy)?),
        LogicExpression::IsEqual(l, r) => {
            let (a, b) = pair(l, r, vars, policy)?;
            Ok(Value::Bool(values_equal(&a, &b, number_order(&a, &b) == Order::Equal)))
        }
        LogicExpression::IsNotEqual(l, r) => {
            let (a, b) = pair(l, r, vars, policy)?;
            Ok(Value::Bool(!values_equal(&a, &b, number_order(&a, &b) == Order::Equal)))
        }
        LogicExpression::IsLessThan(l, r) => ordered(l, r, vars, policy, OrderOp::Less),
        LogicExpression::IsLessThanOrEqual(l, r) => ordered(l, r, vars, policy, OrderOp::LessOrEqual),
        LogicExpression::IsGreaterThan(l, r) => ordered(l, r, vars, policy, OrderOp::Greater),
        LogicExpression::IsGreaterThanOrEqual(l, r) => ordered(l, r, vars, policy, OrderOp::GreaterOrEqual),
        LogicExpression::And(l, r) => logical(l, r, vars, policy, LogicalOp::And),
        LogicExpression::Or(l, r) => logical(l, r, vars, policy, LogicalOp::Or),
    }
}

fn attempt_logic_run(expression: &LogicExpression, vars: &VarMap, policy: &ExecutionPolicy) -> Result<bool, RuntimeError> {
    logic_result(evaluate(expression, vars, policy)?)
}

fn run(input: &str, vars: &VarMap) -> Result<bool, RuntimeError> {
    let expression = attempt_logic_parse(input.to_string(), vars);
    attempt_logic_run(&expression, vars, &ExecutionPolicy::new())
}

fn assert_run(input: &str, vars: &VarMap, expected: bool) {
    match run(input, vars) {
        Ok(value) => assert_eq!(value, expected, "{input}"),
        Err(_) => panic!("expected {input:?} to run successfully"),
    }
}

#[test]
fn parses_comparison_without_spaces() {
    let vars = VarMap::new();
    assert_eq!(
        attempt_logic_parse("2>=1".to_string(), &vars),
        LogicExpression::IsGreaterThanOrEqual(
            Box::new(LogicExpression::Value(Value::Number("2".to_string()))),
            Box::new(LogicExpression::Value(Value::Number("1".to_string()))),
        )
    );
}

#[test]
fn runs_every_comparison_operator() {
    let vars = VarMap::new();
    for input in ["2 == 2", "2 != 3", "2 < 3", "2 <= 2", "3 > 2", "3 >= 3", "\"apple\" < \"pear\""] {
        assert_run(input, &vars, true);
    }
}

#[test]
fn respects_logical_precedence_and_parentheses() {
    let vars = VarMap::new();
    assert_run("true || false && false", &vars, true);
    assert_run("(true || false) && false", &vars, false);
    assert_run("!(2 >= 2) || 3 != 4", &vars, true);
}

#[test]
fn reads_typed_variables() {
    let mut vars = VarMap::new();
    vars.add_new("count".to_string(), "5".to_string(), false).unwrap();
    vars.add_new("enabled".to_string(), "true".to_string(), false).unwrap();
    assert_run("count >= 5 && enabled", &vars, true);
}

#[test]
fn undefined_variable_uses_policy_value() {
    let mut vars = VarMap::new();
    vars.add_new("missing".to_string(), "N/A".to_string(), true).unwrap();
    let mut policy = ExecutionPolicy::new();
    policy.change_policy("HandleUndefinedValueAs = true".to_string()).unwrap();
    let expression = attempt_logic_parse("missing && true".to_string(), &vars);

    assert!(matches!(attempt_logic_run(&expression, &vars, &policy), Ok(true)));
}

#[test]
fn rejects_missing_variables_and_bad_operators() {
    let vars = VarMap::new();
    assert!(matches!(
        attempt_logic_parse("unknown == 1".to_string(), &vars),
        LogicExpression::Error(_)
    ));
    for input in ["true & false", "true | false", "1 = 1", "true &&"] {
        assert!(
            matches!(attempt_logic_parse(input.to_string(), &vars), LogicExpression::Error(_)),
            "expected {input:?} to be rejected"
        );
    }
}

#[test]
fn rejects_non_boolean_logical_operands() {
    let vars = VarMap::new();
    assert!(run("1 && true", &vars).is_err());
    assert!(run("1", &vars).is_err());
    assert!(run("true < false", &vars).is_err());
}

#[test]
fn and_or_short_circuit() {
    let mut vars = VarMap::new();
    vars.add_new("missing".to_string(), "N/A".to_string(), true).unwrap();
    assert_run("false && missing", &vars, false);
    assert_run("true || missing", &vars, true);
}

#[test]
fn operators_bind_by_precedence_and_to_the_left() {
    let vars = VarMap::new();
    let num = |n: &str| Box::new(LogicExpression::Value(Value::Number(n.to_string())));
    let boolean = |b: bool| Box::new(LogicExpression::Value(Value::Bool(b)));
    assert_eq!(
        attempt_logic_parse("1 < 2 == true && !false || false".to_string(), &vars),
        LogicExpression::Or(
            Box::new(LogicExpression::And(
                Box::new(LogicExpression::IsEqual(Box::new(LogicExpression::IsLessThan(num("1"), num("2"))), boolean(true))),
                Box::new(LogicExpression::Not(boolean(false))),
            )),
            boolean(false),
        )
    );
    assert_eq!(
        attempt_logic_parse("true || false || true".to_string(), &vars),
        LogicExpression::Or(Box::new(LogicExpression::Or(boolean(true), boolean(false))), boolean(true))
    );
}

#[test]
fn texts_are_ordered_by_code_point_then_length() {
    assert_eq!(compare_texts("abc", "abd"), Order::Less);
    assert_eq!(compare_texts("b", "abc"), Order::Greater);
    assert_eq!(compare_texts("ab", "abc"), Order::Less);
    assert_eq!(compare_texts("abc", "abc"), Order::Equal);
    assert_eq!(compare_texts("", ""), Order::Equal);
    assert_eq!(compare_texts("Z", "a"), Order::Less);
}

#[test]
fn equality_of_values_by_kind() {
    let s = |t: &str| Value::String(t.to_string());
    let n = |t: &str| Value::Number(t.to_string());
    assert!(values_equal(&s("x"), &s("x"), false));
    assert!(!values_equal(&s("x"), &s("y"), true));
    assert!(values_equal(&n("1"), &n("1.0"), true));
    assert!(!values_equal(&n("1"), &n("1"), false));
    assert!(values_equal(&Value::Bool(true), &Value::Bool(true), false));
    assert!(!values_equal(&Value::Bool(true), &Value::Bool(false), true));
    assert!(values_equal(&Value::Undefined, &Value::Undefined, false));
    assert!(!values_equal(&s("1"), &n("1"), true));
    assert!(!values_equal(&Value::Undefined, &Value::Bool(false), true));
}

#[test]
fn ordering_operands_and_their_errors() {
    let s = |t: &str| Value::String(t.to_string());
    let n = |t: &str| Value::Number(t.to_string());
    assert_eq!(compare_values(n("1"), n("2"), OrderOp::Less, Order::Less).unwrap(), Value::Bool(true));
    assert_eq!(compare_values(n("2"), n("2"), OrderOp::GreaterOrEqual, Order::Equal).unwrap(), Value::Bool(true));
    assert_eq!(compare_values(n("2"), n("2"), OrderOp::Greater, Order::Equal).unwrap(), Value::Bool(false));
    assert_eq!(compare_values(s("a"), s("b"), OrderOp::LessOrEqual, Order::Unordered).unwrap(), Value::Bool(true));
    let unordered = compare_values(n("1"), n("2"), OrderOp::Less, Order::Unordered).unwrap_err();
    assert_eq!(unordered.get_message(), "Cannot compare values with `<`");
    let mixed = compare_values(n("1"), s("a"), OrderOp::Greater, Order::Unordered).unwrap_err();
    assert_eq!(mixed.get_message(), "Operator `>` requires two numbers or two strings, found number and string");
}

#[test]
fn not_and_short_circuit_steps() {
    assert_eq!(negate(Value::Bool(true)).unwrap(), Value::Bool(false));
    assert_eq!(
        negate(Value::Undefined).unwrap_err().get_message(),
        "Operator `!` requires bool operands, found undefined"
    );
    assert_eq!(logical_left(LogicalOp::And, Value::Bool(false)).unwrap(), Some(false));
    assert_eq!(logical_left(LogicalOp::And, Value::Bool(true)).unwrap(), None);
    assert_eq!(logical_left(LogicalOp::Or, Value::Bool(true)).unwrap(), Some(true));
    assert_eq!(logical_left(LogicalOp::Or, Value::Bool(false)).unwrap(), None);
    assert_eq!(
        logical_right(LogicalOp::Or, Value::Number("3".to_string())).unwrap_err().get_message(),
        "Operator `||` requires bool operands, found number"
    );
}
