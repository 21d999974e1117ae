use blocky_lang::conditional_parser::{parse_condition, Condition};
use blocky_lang::dot_notation::{parse_dot_notation, split_at_dot};
use blocky_lang::library::{extract_value, len, m_if, m_let, m_type, Output};
use blocky_lang::line_parser::{parse_lines, prepare_strings, Expression};
use blocky_lang::value_parser::{parse_value, Value};
use blocky_lang::variable::{
    parse_reset_variable, parse_string_to_var_type, parse_variable, parse_variable_expression, VariableMap,
    VariableType,
};

fn chars(s: &str) -> Vec<char> {
    s.chars().collect()
}

fn number(n: &str) -> Expression {
    Expression::Value(Value::Number(n.to_string()))
}

fn string(s: &str) -> Expression {
    Expression::Value(Value::String(s.to_string()))
}

fn map_with(name: &str, value: Expression, t: VariableType) -> VariableMap {
    let mut vars = VariableMap::new();
    assert!(vars.add_new_variable(name.to_string(), value, t).is_ok());
    vars
}

#[test]
fn values_are_read_by_kind() {
    assert_eq!(parse_value("undefined".to_string()), Some(Value::Undefined));
    assert_eq!(parse_value("\"a b\"".to_string()), Some(Value::String("a b".to_string())));
    assert_eq!(parse_value("\"\"".to_string()), Some(Value::String(String::new())));
    assert_eq!(parse_value("1e3".to_string()), Some(Value::Number("1e3".to_string())));
    assert_eq!(parse_value("-2.5".to_string()), Some(Value::Number("-2.5".to_string())));
    assert_eq!(parse_value("inf".to_string()), Some(Value::Number("inf".to_string())));
    assert_eq!(parse_value("true".to_string()), Some(Value::Boolean(true)));
    assert_eq!(parse_value("false".to_string()), Some(Value::Boolean(false)));
    assert_eq!(parse_value("word".to_string()), None);
    assert_eq!(parse_value("1.2.3".to_string()), None);
}

#[test]
fn type_words_are_read() {
    assert_eq!(parse_string_to_var_type("bool"), Some(VariableType::Boolean));
    assert_eq!(parse_string_to_var_type("boolean"), Some(VariableType::Boolean));
    assert_eq!(parse_string_to_var_type("String"), Some(VariableType::String));
    assert_eq!(parse_string_to_var_type("number"), Some(VariableType::Number));
    assert_eq!(parse_string_to_var_type("undefined"), Some(VariableType::Undefined));
    assert_eq!(parse_string_to_var_type("string"), None);
}

#[test]
fn declared_type_starts_with_an_undefined_value() {
    assert_eq!(
        parse_variable_expression("String a".to_string()),
        Some(Expression::VariableDefinition((
            "a".to_string(),
            VariableType::String,
            Box::new(Expression::Value(Value::Undefined)),
        )))
    );
}

#[test]
fn variable_line_takes_the_type_of_its_value() {
    assert_eq!(
        parse_variable_expression("x = 5".to_string()),
        Some(Expression::VariableDefinition(("x".to_string(), VariableType::Number, Box::new(number("5")))))
    );
    assert_eq!(
        parse_variable_expression("number y = \"s\"".to_string()),
        Some(Expression::VariableDefinition(("y".to_string(), VariableType::Number, Box::new(string("s")))))
    );
    assert_eq!(parse_variable_expression("number".to_string()), None);
    assert_eq!(parse_variable_expression("".to_string()), None);
}

#[test]
fn incompatible_assignment_is_refused_by_the_map() {
    let mut vars = map_with("a", number("1"), VariableType::Number);
    assert!(vars.set_variable_value("a", string("x")).is_err());
    assert!(vars.set_variable_value("a", number("2")).is_ok());
    assert!(vars.set_variable_value("b", number("2")).is_err());
    assert!(vars.add_new_variable("c".to_string(), string("x"), VariableType::Number).is_err());
    assert_eq!(vars.get_var("c"), None);
    assert_eq!(vars.get_var("a"), Some(Expression::Variable("a".to_string())));
}

#[test]
fn redefining_replaces_the_variable() {
    let mut vars = map_with("a", number("1"), VariableType::Number);
    assert!(matches!(vars.add_new_variable("a".to_string(), string("s"), VariableType::Undefined), Ok(Output::Success)));
    assert_eq!(vars.get_pure_var("a").unwrap().var_type, VariableType::String);
}

#[test]
fn early_variable_reader_reads_nothing() {
    assert_eq!(parse_variable("a = 5".to_string()), None);
    assert_eq!(parse_variable("a".to_string()), None);
}

#[test]
fn reset_line_reads_value_variable_or_dot_notation() {
    let mut vars = map_with("a", number("1"), VariableType::Number);
    assert!(vars.add_new_variable("b".to_string(), number("7"), VariableType::Number).is_ok());
    assert_eq!(
        parse_reset_variable("a = 3".to_string(), &mut vars),
        Some(Expression::ResetVariableValue(("a".to_string(), Box::new(number("3")))))
    );
    assert_eq!(
        parse_reset_variable("a = b".to_string(), &mut vars),
        Some(Expression::ResetVariableValue(("a".to_string(), Box::new(number("7")))))
    );
    assert_eq!(
        parse_reset_variable("a = b.inc_one()".to_string(), &mut vars),
        Some(Expression::ResetVariableValue((
            "a".to_string(),
            Box::new(Expression::ChainingExpression(("inc_one()".to_string(), Box::new(Expression::Variable("b".to_string()))))),
        )))
    );
    assert_eq!(
        parse_reset_variable("a = nothing".to_string(), &mut vars),
        Some(Expression::ResetVariableValue(("a".to_string(), Box::new(Expression::Empty))))
    );
    assert_eq!(parse_reset_variable("z = 3".to_string(), &mut vars), None);
    assert_eq!(parse_reset_variable("a 3".to_string(), &mut vars), None);
}

#[test]
fn dot_splits_outside_strings_only() {
    let text = chars("\"a.b\".len()");
    let (before, after) = split_at_dot(&text);
    assert_eq!(before.iter().collect::<String>(), "\"a.b\"");
    assert_eq!(after.map(|a| a.iter().collect::<String>()), Some("len()".to_string()));
    let plain = chars("abc");
    assert!(split_at_dot(&plain).1.is_none());
}

#[test]
fn dot_notation_chains_functions() {
    let mut vars = VariableMap::new();
    assert_eq!(
        parse_dot_notation("\"abc\".len()".to_string(), Expression::Empty, &mut vars),
        Some(Expression::ChainingExpression(("len()".to_string(), Box::new(string("abc")))))
    );
    assert_eq!(parse_dot_notation("5".to_string(), Expression::Empty, &mut vars), None);
    assert_eq!(parse_dot_notation("\"abc\".".to_string(), Expression::Empty, &mut vars), None);
    assert_eq!(parse_dot_notation("\"abc\".nope()".to_string(), Expression::Empty, &mut vars), None);
    assert_eq!(parse_dot_notation("x".to_string(), Expression::Empty, &mut vars), None);
}

#[test]
fn conditions_are_split_at_their_first_operator() {
    let mut vars = VariableMap::new();
    let c = parse_condition("1 == 2".to_string(), &mut vars).unwrap();
    match c {
        Condition::IsEqual(l, r) => {
            assert!(matches!(*l, Condition::Expression(e) if *e == number("1")));
            assert!(matches!(*r, Condition::Expression(e) if *e == number("2")));
        }
        other => panic!("unexpected {other:?}"),
    }
    assert!(matches!(parse_condition("!(1 < 2)".to_string(), &mut vars), Some(Condition::Invert(_))));
    assert!(matches!(parse_condition("1 != 2".to_string(), &mut vars), Some(Condition::NotEquals(_, _))));
    assert!(matches!(parse_condition("((1 >= 2))".to_string(), &mut vars), Some(Condition::BiggerEquals(_, _))));
    assert!(matches!(parse_condition("(1) <= (2)".to_string(), &mut vars), Some(Condition::SmallerEquals(_, _))));
}

#[test]
fn broken_conditions_are_not_read() {
    let mut vars = VariableMap::new();
    for input in ["", "()", "(1", "1)", ")1 == 1", "\"a", "1 ==", "nothing"] {
        assert!(parse_condition(input.to_string(), &mut vars).is_none(), "{input:?}");
    }
}

#[test]
fn not_negates_the_rest() {
    let mut vars = VariableMap::new();
    let inner = parse_condition("1 > 2".to_string(), &mut vars);
    let negated = parse_condition("!1 > 2".to_string(), &mut vars);
    assert!(matches!(inner, Some(Condition::Bigger(_, _))));
    assert!(matches!(negated, Some(Condition::Invert(c)) if matches!(*c, Condition::Bigger(_, _))));
}

#[test]
fn statements_are_cut_at_semicolons_outside_strings() {
    let statements = prepare_strings(vec!["  print \"a;b\";", "  println 1; rest"]);
    assert_eq!(statements, vec!["print \"a;b\"".to_string(), "println 1".to_string()]);
}

#[test]
fn lines_read_functions_definitions_and_resets() {
    let mut vars = map_with("n", number("1"), VariableType::Number);
    let expressions = parse_lines(vec!["println n;", "let number k = 2;", "n = 5;", "unknown 1;"], &mut vars);
    assert_eq!(
        expressions,
        vec![
            Expression::VariableDefinition((
                "n".to_string(),
                VariableType::Undefined,
                Box::new(Expression::Value(Value::Undefined)),
            )),
            Expression::VariableDefinition(("k".to_string(), VariableType::Number, Box::new(number("2")))),
            Expression::ResetVariableValue(("n".to_string(), Box::new(number("5")))),
        ]
    );
}

#[test]
fn library_functions_compute_from_values() {
    let mut vars = map_with("s", string("héllo"), VariableType::String);
    assert!(matches!(
        len(string("héllo"), &mut vars),
        Ok(Output::Expression(e)) if e == number("6")
    ));
    assert!(matches!(
        len(Expression::Variable("s".to_string()), &mut vars),
        Ok(Output::Expression(e)) if e == number("6")
    ));
    assert!(len(number("3"), &mut vars).is_err());
    assert!(matches!(
        m_type(Expression::Variable("s".to_string()), &mut vars),
        Ok(Output::Expression(e)) if e == string("String")
    ));
    assert!(matches!(m_type(number("3"), &mut vars), Ok(Output::Expression(e)) if e == string("number")));
    assert!(m_type(Expression::Variable("none".to_string()), &mut vars).is_err());
    assert!(m_let(number("3"), &mut vars).is_err());
    assert!(m_if(number("3"), &mut vars).is_err());
    assert_eq!(extract_value(Expression::Variable("s".to_string()), &vars), Ok(Value::String("héllo".to_string())));
    assert_eq!(extract_value(Expression::Empty, &vars), Err(()));
}

#[test]
fn statements_rejoin_to_the_text_up_to_the_last_top_level_semicolon() {
    let pieces = prepare_strings(vec!["print \"a;b\";", "  x;y"]);
    assert_eq!(pieces, vec!["print \"a;b\"".to_string(), "x".to_string()]);
    let joined: String = pieces.iter().map(|p| format!("{p};")).collect();
    assert_eq!(joined, "print \"a;b\";x;");
}
