use blocky_lang::blocks::BlockType;
use blocky_lang::command_line::{complete_lines, CommandLine};
use blocky_lang::define_lines::{
    parse_let, print_action, run_let, set_value_from_text, store_computed, KeywordKind, Param, ParseFailure,
    ParseResult, PrintAction,
};
use blocky_lang::execution_policy::ExecutionPolicy;
use blocky_lang::logic::LogicError;
use blocky_lang::runtime_error::ErrorType;
use blocky_lang::var_handler::{Value, VarMap};

fn chars(s: &str) -> Vec<char> {
    s.chars().collect()
}

fn texts(result: &ParseResult) -> Vec<String> {
    match result {
        ParseResult::StandardOut(ps) => ps
            .iter()
            .map(|p| match p {
                Param::Text(t) => t.clone(),
                other => format!("{other:?}"),
            })
            .collect(),
        ParseResult::ParseError(e) => vec![format!("{e:?}")],
    }
}

fn message(result: &ParseResult) -> Option<String> {
    match result {
        ParseResult::ParseError(ParseFailure::Message(m)) => Some(m.clone()),
        _ => None,
    }
}

#[test]
fn let_statements_are_read() {
    assert_eq!(texts(&parse_let(&chars("let a = \"x\";"))), vec!["a", "\"x\"", "DEFINED"]);
    assert_eq!(texts(&parse_let(&chars("let undefined b"))), vec!["b", "N/A", ""]);
    assert_eq!(message(&parse_let(&chars("print a"))), Some("expected `let`".to_string()));
    assert_eq!(message(&parse_let(&chars("let a"))), Some("missing `=`".to_string()));
    assert_eq!(message(&parse_let(&chars("let  = 1"))), Some("missing variable name".to_string()));
    assert_eq!(message(&parse_let(&chars("let a = "))), Some("missing variable value".to_string()));
    assert_eq!(message(&parse_let(&chars("let a = word"))), Some("Unknown data Type".to_string()));
}

#[test]
fn a_read_let_statement_runs() {
    let mut vars = VarMap::new();
    for line in ["let a = 5", "let undefined b"] {
        if let ParseResult::StandardOut(ps) = parse_let(&chars(line)) {
            assert!(run_let(&ps, &mut vars).is_ok());
        } else {
            panic!("{line:?} should read");
        }
    }
    assert_eq!(vars.get_pure_value("a".to_string()), Some(Value::Number("5".to_string())));
    assert_eq!(vars.get_pure_value("b".to_string()), Some(Value::Undefined));
    let error = run_let(&vec![Param::Text("x".to_string())], &mut vars).unwrap_err();
    assert_eq!(error.get_message(), "Invalid arguments for let");
}

#[test]
fn statements_find_their_keyword() {
    let mut vars = VarMap::new();
    let command = CommandLine::attempt_parse("print \"hi\"".to_string(), BlockType::Execute, &mut vars).unwrap();
    assert_eq!(command.keyword().kind, KeywordKind::Print);
    assert!(matches!(command.params().as_slice(), [Param::Text(t)] if t == "hi"));

    let refused = CommandLine::attempt_parse("let a = 1".to_string(), BlockType::Execute, &mut vars).unwrap_err();
    assert!(matches!(refused, ParseFailure::Message(m) if m == "Keyword let not allowed inside Execute block"));

    let unknown = CommandLine::attempt_parse("shout 1".to_string(), BlockType::Execute, &mut vars).unwrap_err();
    assert!(matches!(unknown, ParseFailure::Message(m) if m == "Keyword shout dosnt exist"));

    let empty = CommandLine::attempt_parse("   ".to_string(), BlockType::Execute, &mut vars).unwrap_err();
    assert!(matches!(empty, ParseFailure::Message(m) if m == "I dont know but smt broke"));
}

#[test]
fn a_statement_starting_with_a_variable_sets_it() {
    let mut vars = VarMap::new();
    vars.add_new("a".to_string(), "1".to_string(), false).unwrap();
    let command = CommandLine::attempt_parse("a = 2".to_string(), BlockType::Execute, &mut vars).unwrap();
    assert_eq!(command.keyword().kind, KeywordKind::SetValue);
    assert!(matches!(command.params().as_slice(), [Param::Text(v), Param::Text(x)] if v == "a" && x == "2"));

    let calc = CommandLine::attempt_parse("a = a + 1".to_string(), BlockType::Execute, &mut vars).unwrap_err();
    assert!(matches!(calc, ParseFailure::Logic(LogicError::UnexpectedCharacter('+', 4))));
}

#[test]
fn values_are_set_only_to_the_same_kind() {
    let mut vars = VarMap::new();
    vars.add_new("a".to_string(), "1".to_string(), false).unwrap();
    vars.add_new("u".to_string(), "".to_string(), true).unwrap();
    assert!(set_value_from_text(&"a".to_string(), &"3".to_string(), &mut vars).is_ok());
    assert_eq!(vars.get_pure_value("a".to_string()), Some(Value::Number("3".to_string())));
    let error = set_value_from_text(&"a".to_string(), &"true".to_string(), &mut vars).unwrap_err();
    assert_eq!(error.get_message(), "Cannot set an different value to an origin var");
    let error = set_value_from_text(&"a".to_string(), &"zz".to_string(), &mut vars).unwrap_err();
    assert_eq!(error.get_message(), "Unknown data Type");
    assert!(store_computed(&"u".to_string(), &"4".to_string(), &mut vars).is_ok());
    assert_eq!(vars.get_pure_value("u".to_string()), Some(Value::Number("4".to_string())));
}

#[test]
fn print_decides_what_to_write() {
    let mut policy = ExecutionPolicy::new();
    assert!(matches!(
        print_action(&vec![Param::Text("x".to_string())], &policy),
        Ok(PrintAction::Text(t)) if t == "x"
    ));
    let mut vars = VarMap::new();
    vars.add_new("u".to_string(), "".to_string(), true).unwrap();
    vars.add_new("d".to_string(), "1".to_string(), false).unwrap();
    let undefined = vars.get_pure_var("u".to_string()).unwrap();
    let defined = vars.get_pure_var("d".to_string()).unwrap();
    let error = print_action(&vec![Param::Var(undefined)], &policy).unwrap_err();
    assert_eq!(*error.get_error_type(), ErrorType::OnUndefinedValue);
    let error = print_action(&vec![Param::Var(defined)], &policy).unwrap_err();
    assert_eq!(error.get_message(), "An Unknown error accord ups");

    policy.change_policy("HandleUndefinedValueAs = \"none\"".to_string()).unwrap();
    let undefined = vars.get_pure_var("u".to_string()).unwrap();
    assert!(matches!(
        print_action(&vec![Param::Var(undefined)], &policy),
        Ok(PrintAction::Value(Value::String(s))) if s == "none"
    ));
}

#[test]
fn block_lines_are_joined_into_statements() {
    let statements = complete_lines("print\n  \"a\";\n\nprintln 1;;\nlet x\n");
    assert_eq!(statements, vec!["print \"a\"".to_string(), "println 1".to_string()]);
}
