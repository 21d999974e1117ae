use blocky_lang::alu::{attempt_calculator_parse, CalcError, Expression};
use blocky_lang::var_handler::VarMap;

fn num(n: &str) -> Box<Expression> {
    Box::new(Expression::Number(n.to_string()))
}

#[test]
fn test_simple_division() {
    let vars = VarMap::new();
    let result = attempt_calculator_parse("8 / 2".to_string(), &vars);
    assert_eq!(result, Expression::Divide(num("8"), num("2")));
}

#[test]
fn test_multiple_multiplications() {
    let vars = VarMap::new();
    let result = attempt_calculator_parse("2 * 3 * 4".to_string(), &vars);
    assert_eq!(
        result,
        Expression::Multiply(Box::new(Expression::Multiply(num("2"), num("3"))), num("4"))
    );
}

#[test]
fn test_multiple_divisions() {
    let vars = VarMap::new();
    let result = attempt_calculator_parse("16 / 4 / 2".to_string(), &vars);
    assert_eq!(
        result,
        Expression::Divide(Box::new(Expression::Divide(num("16"), num("4"))), num("2"))
    );
}

#[test]
fn test_multiplication_then_division() {
    let vars = VarMap::new();
    let result = attempt_calculator_parse("2 * 3 / 4".to_string(), &vars);
    assert_eq!(
        result,
        Expression::Divide(Box::new(Expression::Multiply(num("2"), num("3"))), num("4"))
    );
}

#[test]
fn test_division_then_multiplication() {
    let vars = VarMap::new();
    let result = attempt_calculator_parse("8 / 4 * 2".to_string(), &vars);
    assert_eq!(
        result,
        Expression::Multiply(Box::new(Expression::Divide(num("8"), num("4"))), num("2"))
    );
}

#[test]
fn test_division_precedence() {
    let vars = VarMap::new();
    let result = attempt_calculator_parse("1 + 8 / 4".to_string(), &vars);
    assert_eq!(
        result,
        Expression::Add(num("1"), Box::new(Expression::Divide(num("8"), num("4"))))
    );
}

#[test]
fn test_multiple_high_precedence_expressions() {
    let vars = VarMap::new();
    let result = attempt_calculator_parse("2 * 3 + 8 / 4".to_string(), &vars);
    assert_eq!(
        result,
        Expression::Add(
            Box::new(Expression::Multiply(num("2"), num("3"))),
            Box::new(Expression::Divide(num("8"), num("4"))),
        )
    );
}

#[test]
fn test_long_multiplication_and_division_chain() {
    let vars = VarMap::new();
    let result = attempt_calculator_parse("2 * 3 / 4 * 5 / 6".to_string(), &vars);
    assert_eq!(
        result,
        Expression::Divide(
            Box::new(Expression::Multiply(
                Box::new(Expression::Divide(
                    Box::new(Expression::Multiply(num("2"), num("3"))),
                    num("4"),
                )),
                num("5"),
            )),
            num("6"),
        )
    );
}

#[test]
fn test_all_operators_and_precedence() {
    let vars = VarMap::new();
    let result = attempt_calculator_parse("1 + 2 * 3 - 8 / 4 + 5 * 6 / 3".to_string(), &vars);
    assert_eq!(
        result,
        Expression::Add(
            Box::new(Expression::Subtract(
                Box::new(Expression::Add(num("1"), Box::new(Expression::Multiply(num("2"), num("3"))))),
                Box::new(Expression::Divide(num("8"), num("4"))),
            )),
            Box::new(Expression::Divide(
                Box::new(Expression::Multiply(num("5"), num("6"))),
                num("3"),
            )),
        )
    );
}

#[test]
fn test_expression_without_spaces() {
    let vars = VarMap::new();
    let result = attempt_calculator_parse("1+2*3/4-5".to_string(), &vars);
    assert_eq!(
        result,
        Expression::Subtract(
            Box::new(Expression::Add(
                num("1"),
                Box::new(Expression::Divide(
                    Box::new(Expression::Multiply(num("2"), num("3"))),
                    num("4"),
                )),
            )),
            num("5"),
        )
    );
}

#[test]
fn test_variable_with_digit_on_either_side() {
    let mut vars = VarMap::new();
    let _ = vars.add_new("foo2".to_string(), "7".to_string(), false);

    assert_eq!(
        attempt_calculator_parse("foo2 + 1".to_string(), &vars),
        Expression::Add(Box::new(Expression::Variable("foo2".to_string())), num("1"))
    );
    assert_eq!(
        attempt_calculator_parse("1 + foo2".to_string(), &vars),
        Expression::Add(num("1"), Box::new(Expression::Variable("foo2".to_string())))
    );
}

#[test]
fn test_undefined_variable_with_digit_is_an_error() {
    let vars = VarMap::new();
    assert_eq!(
        attempt_calculator_parse("foo8 + 1".to_string(), &vars),
        Expression::Error(CalcError::VariableNotFound("foo8".to_string()))
    );
}

#[test]
fn test_missing_and_double_operands_are_errors() {
    let vars = VarMap::new();
    for input in ["2 +", "+ 2", "2 + * 3", "2 3"] {
        assert!(
            matches!(attempt_calculator_parse(input.to_string(), &vars), Expression::Error(_)),
            "expected {input:?} to be rejected"
        );
    }
}

#[test]
fn test_unknown_characters_are_errors() {
    let vars = VarMap::new();
    assert_eq!(
        attempt_calculator_parse("2 $ + 3".to_string(), &vars),
        Expression::Error(CalcError::UnexpectedCharacter('$', 3))
    );
}
