use blocky_lang::alu::{attempt_calculator_parse, CalcError, Expression, Token as CalcToken};
use blocky_lang::blocks::BlockType;
use blocky_lang::command_line::{complete_lines, CommandLine};
use blocky_lang::define_lines::ParseFailure;
use blocky_lang::error_text::{calc_error_text, logic_error_text};
use blocky_lang::logic::{attempt_logic_parse, LogicError, LogicExpression, Token as LogicToken};
use blocky_lang::psycho_parser::{parse_call, parse_expression, prep, psycho_line_parse, PsychoExpression};
use blocky_lang::scan::split_arguments;
use blocky_lang::var_handler::{Value, VarMap};

fn chars(s: &str) -> Vec<char> {
    s.chars().collect()
}

fn calc(input: &str) -> Expression {
    attempt_calculator_parse(input.to_string(), &VarMap::new())
}

fn logic(input: &str) -> LogicExpression {
    attempt_logic_parse(input.to_string(), &VarMap::new())
}

#[test]
fn each_calculator_error_has_its_input() {
    assert_eq!(calc(""), Expression::Error(CalcError::Empty));
    assert_eq!(calc("2 +"), Expression::Error(CalcError::EndOfExpression));
    assert_eq!(calc("+ 2"), Expression::Error(CalcError::ExpectedOperand(CalcToken::Plus)));
    assert_eq!(calc("2 3"), Expression::Error(CalcError::UnexpectedToken(CalcToken::Number("3".to_string()))));
    assert_eq!(calc("1.2.3"), Expression::Error(CalcError::InvalidNumber("1.2.3".to_string())));
    assert_eq!(calc("é"), Expression::Error(CalcError::UnexpectedCharacter('é', 1)));
    assert_eq!(calc("1 + é"), Expression::Error(CalcError::UnexpectedCharacter('é', 5)));
}

#[test]
fn each_logic_error_has_its_input() {
    assert_eq!(logic(""), LogicExpression::Error(LogicError::Empty));
    assert_eq!(logic("1 = 1"), LogicExpression::Error(LogicError::UnexpectedOperator(3, '=')));
    assert_eq!(logic("true & false"), LogicExpression::Error(LogicError::UnexpectedOperator(6, '&')));
    assert_eq!(logic("\"abc"), LogicExpression::Error(LogicError::UnterminatedString(1)));
    assert_eq!(logic("\"a\\q\""), LogicExpression::Error(LogicError::UnsupportedEscape('q', 1)));
    assert_eq!(logic("1..2"), LogicExpression::Error(LogicError::InvalidNumber("1..2".to_string())));
    assert_eq!(logic("true + 1"), LogicExpression::Error(LogicError::UnexpectedCharacter('+', 6)));
    assert_eq!(
        logic("true false"),
        LogicExpression::Error(LogicError::UnexpectedToken(LogicToken::Value(Value::Bool(false))))
    );
    assert_eq!(logic("(true"), LogicExpression::Error(LogicError::ExpectedRightParen));
    assert_eq!(logic("&& true"), LogicExpression::Error(LogicError::ExpectedOperand(LogicToken::And)));
    assert_eq!(logic("true &&"), LogicExpression::Error(LogicError::EndOfExpression));
    assert_eq!(logic("x"), LogicExpression::Error(LogicError::VariableNotFound("x".to_string())));
}

#[test]
fn escapes_and_negative_numbers_are_read() {
    assert_eq!(
        logic("\"a\\\"b\" == \"a\\\"b\""),
        LogicExpression::IsEqual(
            Box::new(LogicExpression::Value(Value::String("a\"b".to_string()))),
            Box::new(LogicExpression::Value(Value::String("a\"b".to_string()))),
        )
    );
    assert_eq!(
        logic("-1 < 0"),
        LogicExpression::IsLessThan(
            Box::new(LogicExpression::Value(Value::Number("-1".to_string()))),
            Box::new(LogicExpression::Value(Value::Number("0".to_string()))),
        )
    );
}

#[test]
fn a_bad_calculation_fails_its_statement() {
    let mut vars = VarMap::new();
    let failure = CommandLine::attempt_parse("print 1 +".to_string(), BlockType::Execute, &mut vars).unwrap_err();
    assert!(matches!(failure, ParseFailure::Calculator(CalcError::EndOfExpression)));
}

#[test]
fn calls_are_read_from_trimmed_text() {
    let call = parse_call(&chars("  foo   bar ")).unwrap();
    assert_eq!(call.keyword, "foo");
    assert!(matches!(parse_expression(&chars("  x ")), PsychoExpression::Expression(s) if s == "x"));
    assert!(psycho_line_parse(&chars("   ")).is_none());
}

#[test]
fn prep_without_strings_joins_words_with_one_space() {
    assert_eq!(prep("a   b;c"), "a b\nc");
    assert_eq!(prep("x\n\n  y"), "x y");
}

#[test]
fn arguments_are_cut_at_top_level_commas() {
    let text = chars("a, f(b, c), \"d,e\"");
    let pieces: Vec<String> = split_arguments(&text).iter().map(|p| p.iter().collect()).collect();
    assert_eq!(pieces, vec!["a".to_string(), "f(b, c)".to_string(), "\"d,e\"".to_string()]);
}

#[test]
fn ended_lines_are_one_statement_each() {
    let statements = complete_lines("  print 1;\n\n let a = 2 ;\n;\n");
    assert_eq!(statements, vec!["print 1".to_string(), "let a = 2".to_string(), String::new()]);
}

#[test]
fn arithmetic_error_texts() {
    assert_eq!(
        calc_error_text(&CalcError::UnexpectedCharacter('$', 120)).unwrap(),
        "Unexpected character '$' at position 120"
    );
    assert_eq!(calc_error_text(&CalcError::Empty).unwrap(), "Expected an expression");
    assert_eq!(calc_error_text(&CalcError::InvalidNumber("1.2.3".to_string())).unwrap(), "Invalid number: 1.2.3");
    let variable = CalcToken::Variable("ab_1".to_string());
    let expected = format!("Unexpected token: {:?}", variable);
    assert_eq!(calc_error_text(&CalcError::UnexpectedToken(variable)).unwrap(), expected);
    assert_eq!(
        calc_error_text(&CalcError::ExpectedOperand(CalcToken::Divide)).unwrap(),
        "Expected an operand, found Divide"
    );
    assert_eq!(calc_error_text(&CalcError::ExpectedOperand(CalcToken::Number("3".to_string()))), None);
    assert_eq!(calc_error_text(&CalcError::UnexpectedToken(CalcToken::Variable("a\"".to_string()))), None);
}

#[test]
fn logic_error_texts() {
    assert_eq!(
        logic_error_text(&LogicError::UnsupportedEscape('q', 5)).unwrap(),
        "Unsupported escape `\\q` in string at position 5"
    );
    assert_eq!(
        logic_error_text(&LogicError::UnexpectedOperator(3, '&')).unwrap(),
        "Unexpected operator at position 3. Did you mean `&&`?"
    );
    assert_eq!(
        logic_error_text(&LogicError::UnterminatedString(0)).unwrap(),
        "Unterminated string starting at position 0"
    );
    assert_eq!(logic_error_text(&LogicError::ExpectedRightParen).unwrap(), "Expected `)`");
    let token = LogicToken::Value(Value::String("a b".to_string()));
    let expected = format!("Unexpected token: {:?}", token);
    assert_eq!(logic_error_text(&LogicError::UnexpectedToken(token)).unwrap(), expected);
    let token = LogicToken::Value(Value::Bool(false));
    let expected = format!("Expected an operand, found {:?}", token);
    assert_eq!(logic_error_text(&LogicError::ExpectedOperand(token)).unwrap(), expected);
    assert_eq!(
        logic_error_text(&LogicError::ExpectedOperand(LogicToken::GreaterThanOrEqual)).unwrap(),
        "Expected an operand, found GreaterThanOrEqual"
    );
    assert_eq!(logic_error_text(&LogicError::UnexpectedToken(LogicToken::Value(Value::Number("1".to_string())))), None);
    assert_eq!(logic_error_text(&LogicError::UnexpectedToken(LogicToken::Value(Value::String("a\\".to_string())))), None);
}
