use blocky_lang::execution_policy::ExecutionPolicy;
use blocky_lang::i_core::{display, expression_parser, gather_blocktypes, inc_one, Value as CoreValue};
use blocky_lang::logic::{expect_bool, logic_result, resolve_variable, type_error, value_type};
use blocky_lang::output_state::{take_newline_needed, used_print, used_println, OutputState};
use blocky_lang::runtime_error::ErrorType;
use blocky_lang::symbol_resolver::find_block_type;
use blocky_lang::var_handler::{parse_type, Value, VarMap};

#[test]
fn a_print_leaves_a_newline_owed_until_asked() {
    let mut state = OutputState::new();
    assert!(!take_newline_needed(&mut state));
    used_print(&mut state);
    assert!(take_newline_needed(&mut state));
    assert!(!take_newline_needed(&mut state));
    used_print(&mut state);
    used_println(&mut state);
    assert!(!take_newline_needed(&mut state));
}

#[test]
fn core_values_are_read() {
    assert_eq!(expression_parser("42"), Some(CoreValue::Number(42)));
    assert_eq!(expression_parser("-7"), Some(CoreValue::Number(-7)));
    assert_eq!(expression_parser("+7"), Some(CoreValue::Number(7)));
    assert_eq!(expression_parser("2147483647"), Some(CoreValue::Number(2147483647)));
    assert_eq!(expression_parser("-2147483648"), Some(CoreValue::Number(-2147483648)));
    assert_eq!(expression_parser("2147483648"), None);
    assert_eq!(expression_parser("1.5"), None);
    assert_eq!(expression_parser("-"), None);
    assert_eq!(expression_parser("\"hi\""), Some(CoreValue::String("hi".to_string())));
    assert_eq!(expression_parser("true"), Some(CoreValue::Boolean(true)));
    assert_eq!(expression_parser("yes"), None);
}

#[test]
fn shown_numbers_read_back() {
    for n in [0, 9, 10, -1, -10, 12345, i32::MAX, i32::MIN] {
        let text = display(&CoreValue::Number(n));
        assert_eq!(text, n.to_string());
        assert_eq!(expression_parser(&text), Some(CoreValue::Number(n)));
    }
    assert_eq!(display(&CoreValue::Boolean(false)), "false");
    assert_eq!(display(&CoreValue::String("s".to_string())), "s");
}

#[test]
fn inc_one_adds_one_to_a_number() {
    assert_eq!(inc_one(&vec![CoreValue::Number(41)]), Some(CoreValue::Number(42)));
    assert_eq!(inc_one(&vec![CoreValue::Boolean(true)]), None);
}

#[test]
fn the_execute_kind_runs_first() {
    let kinds = gather_blocktypes();
    let execute = find_block_type(&kinds, "execute").unwrap();
    assert_eq!(execute.name, "execute");
    assert_eq!(execute.execution_order, 1);
    assert!(find_block_type(&kinds, "define").is_none());
}

#[test]
fn values_are_read_from_their_text() {
    assert_eq!(parse_type(" true ", false), Ok(Value::Bool(true)));
    assert_eq!(parse_type("\"a\"", false), Ok(Value::String("a".to_string())));
    assert_eq!(parse_type("2.5", false), Ok(Value::Number("2.5".to_string())));
    assert_eq!(parse_type("anything", true), Ok(Value::Undefined));
    assert_eq!(parse_type("\"", false), Err("Something up with ya String".to_string()));
    assert_eq!(parse_type("x", false), Err("Unknown data Type".to_string()));
}

#[test]
fn a_read_gives_back_what_was_written() {
    let mut vars = VarMap::new();
    vars.add_new("a".to_string(), "1".to_string(), false).unwrap();
    vars.add_new("b".to_string(), "\"s\"".to_string(), false).unwrap();
    assert_eq!(vars.get_pure_value("a".to_string()), Some(Value::Number("1".to_string())));
    vars.replace_value("a".to_string(), Value::Bool(false));
    assert_eq!(vars.get_pure_value("a".to_string()), Some(Value::Bool(false)));
    assert_eq!(vars.get_pure_value("b".to_string()), Some(Value::String("s".to_string())));
    assert!(vars.var_exists(&"b".to_string()));
    assert!(!vars.var_exists(&"c".to_string()));
    assert!(vars.add_new("c".to_string(), "nope".to_string(), false).is_err());
    assert!(!vars.var_exists(&"c".to_string()));
}

#[test]
fn policy_properties_are_set_and_checked() {
    let mut policy = ExecutionPolicy::new();
    assert!(policy.should_halt_on_code_block_parse_error());
    policy.change_policy("OnCodeBlockParseError = Skip".to_string()).unwrap();
    assert!(!policy.should_halt_on_code_block_parse_error());
    policy.change_policy("OnCodeBlockParseError = Skip".to_string()).unwrap();
    assert!(!policy.should_halt_on_code_block_parse_error());
    assert_eq!(
        policy.change_policy("\nOnCodeBlockParseError = Maybe".to_string()),
        Err("invalid execution policy on line 2: Invalid value for OnCodeBlockParseError: Maybe".to_string())
    );
    assert_eq!(
        policy.change_policy("HandleUndefinedValueAs = what".to_string()),
        Err("invalid execution policy on line 1: Invalid value for HandleUndefinedValueAs: what".to_string())
    );
    assert_eq!(
        policy.change_policy("Nothing here".to_string()),
        Err("invalid execution policy on line 1: Missing '='".to_string())
    );
}

#[test]
fn logic_helpers_report_their_errors() {
    assert_eq!(value_type(&Value::Undefined), "undefined");
    assert_eq!(value_type(&Value::Number("1".to_string())), "number");
    let error = type_error("boom".to_string());
    assert_eq!(error.get_message(), "boom");
    assert_eq!(*error.get_error_type(), ErrorType::AlwaysError);
    assert_eq!(expect_bool(Value::Bool(true), "&&").ok(), Some(true));
    let error = expect_bool(Value::String("x".to_string()), "&&").unwrap_err();
    assert_eq!(error.get_message(), "Operator `&&` requires bool operands, found string");
    let error = logic_result(Value::Number("1".to_string())).unwrap_err();
    assert_eq!(error.get_message(), "LogicExpression must evaluate to a bool, found number");

    let mut vars = VarMap::new();
    vars.add_new("u".to_string(), "".to_string(), true).unwrap();
    let policy = ExecutionPolicy::new();
    let error = resolve_variable("u", &vars, &policy).unwrap_err();
    assert_eq!(error.get_message(), "Cannot use undefined variable: u");
    assert_eq!(*error.get_error_type(), ErrorType::OnUndefinedValue);
    let error = resolve_variable("v", &vars, &policy).unwrap_err();
    assert_eq!(error.get_message(), "Variable not found: v");
}
