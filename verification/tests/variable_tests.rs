use blocky_lang::line_parser::Expression;
use blocky_lang::value_parser::Value;
use blocky_lang::variable::{Variable, VariableType};

#[test]
fn undefined_variable_adopts_the_assigned_value_type() {
    let mut variable = Variable::new(
        Expression::Value(Value::Undefined),
        VariableType::Undefined,
        "value".to_string(),
    );

    assert!(variable.set_value(Expression::Value(Value::Number("5.0".to_string()))).is_ok());
    assert_eq!(variable.var_type, VariableType::Number);
}

#[test]
fn mismatched_assignment_is_rejected_without_changing_the_value() {
    let mut variable = Variable::new(
        Expression::Value(Value::Number("5.0".to_string())),
        VariableType::Number,
        "value".to_string(),
    );

    assert!(variable.set_value(Expression::Value(Value::String("wrong".to_string()))).is_err());
    assert!(matches!(
        variable.get_value(),
        Expression::Value(Value::Number(value)) if value == "5.0"
    ));
}

#[test]
fn undefined_value_does_not_replace_the_declared_type() {
    let mut variable = Variable::new(
        Expression::Value(Value::String("hello".to_string())),
        VariableType::String,
        "value".to_string(),
    );

    assert!(variable.set_value(Expression::Value(Value::Undefined)).is_ok());
    assert_eq!(variable.var_type, VariableType::String);
}
