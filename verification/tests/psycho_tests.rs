use blocky_lang::psycho_parser::{attempt_psycho_parse, parse_call, prep, PsychoExpression};

fn chars(s: &str) -> Vec<char> {
    s.chars().collect()
}

fn text_of(e: &PsychoExpression) -> Option<&str> {
    match e {
        PsychoExpression::Expression(s) => Some(s.as_str()),
        PsychoExpression::Call(_) => None,
    }
}

#[test]
fn prep_puts_each_statement_and_tag_on_its_own_line() {
    let out = prep("<execute>\n    println \"Hello Block\";\n</execute>");
    assert_eq!(out, "<execute>\nprintln \"Hello Block\" \n</execute>\n");
}

#[test]
fn prep_keeps_line_breaks_inside_strings_escaped() {
    assert_eq!(prep("a \"x\ny\""), "a \"x\\\ny\"");
}

#[test]
fn prep_separates_a_string_from_a_word_before_it() {
    assert_eq!(prep("print\"x\""), "print \"x\"");
    assert_eq!(prep("é\"x\""), "é \"x\"");
    assert_eq!(prep("(\"x\""), "(\"x\"");
}

#[test]
fn hello_block_is_read_as_one_call() {
    let blocks = attempt_psycho_parse(vec!["<execute>\n    println \"Hello Block\";\n</execute>".to_string()]);
    assert_eq!(blocks.len(), 1);
    assert_eq!(blocks[0].block_type, "execute");
    assert_eq!(blocks[0].contents.len(), 1);
    let call = &blocks[0].contents[0];
    assert_eq!(call.keyword, "println");
    assert_eq!(call.expressions.len(), 1);
    assert_eq!(text_of(&call.expressions[0]), Some("\"Hello Block\""));
}

#[test]
fn files_are_read_one_after_another() {
    let a = "<execute>\nfoo 1;\n</execute>".to_string();
    let b = "<define>\nbar 2;\n</define>".to_string();
    let both = attempt_psycho_parse(vec![a.clone(), b.clone()]);
    let first = attempt_psycho_parse(vec![a]);
    let second = attempt_psycho_parse(vec![b]);
    assert_eq!(both.len(), first.len() + second.len());
    assert_eq!(both[0].block_type, "execute");
    assert_eq!(both[1].block_type, "define");
}

#[test]
fn block_without_closing_tag_gives_nothing() {
    assert!(attempt_psycho_parse(vec!["<execute>\nfoo 1;\n".to_string()]).is_empty());
}

#[test]
fn dot_call_takes_what_comes_before_as_first_argument() {
    let call = parse_call(&chars("x.foo(a, b)")).unwrap();
    assert_eq!(call.keyword, "foo");
    let args: Vec<Option<&str>> = call.expressions.iter().map(text_of).collect();
    assert_eq!(args, vec![Some("x"), Some("a"), Some("b")]);
}

#[test]
fn nested_calls_are_arguments() {
    let call = parse_call(&chars("print f(1, 2), 3")).unwrap();
    assert_eq!(call.keyword, "print");
    assert_eq!(call.expressions.len(), 2);
    match &call.expressions[0] {
        PsychoExpression::Call(inner) => {
            assert_eq!(inner.keyword, "f");
            assert_eq!(inner.expressions.len(), 2);
        }
        PsychoExpression::Expression(_) => panic!("expected a call"),
    }
    assert_eq!(text_of(&call.expressions[1]), Some("3"));
}

#[test]
fn a_lone_word_is_no_call() {
    assert!(parse_call(&chars("word")).is_none());
}
