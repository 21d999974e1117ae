use blocky_lang::line_parser::{parse_lines, Expression};
use blocky_lang::parse_blocks::{parse_blocks, Block, BlockKind};
use blocky_lang::variable::VariableMap;

const SOURCE: &str = r#"
<define>
    let a = "Hello";
</define>

<execute>
    println "Hello";
</execute>
"#;

#[test]
fn define_filter_skips_the_whole_execute_block() {
    let blocks = parse_blocks(&SOURCE.to_string(), &mut VariableMap::new(), BlockKind::Define).unwrap();

    assert!(matches!(
        blocks.as_slice(),
        [Block::Define(expressions)]
            if matches!(expressions.as_slice(), [Expression::VariableDefinition(_)])
    ));
}

#[test]
fn execute_filter_skips_the_whole_define_block() {
    let blocks = parse_blocks(&SOURCE.to_string(), &mut VariableMap::new(), BlockKind::Execute).unwrap();

    assert!(matches!(
        blocks.as_slice(),
        [Block::Execute(expressions)]
            if matches!(expressions.as_slice(), [Expression::ExecutionExpression(_)])
    ));
}

#[test]
fn distinguishes_print_from_println() {
    for function_name in ["print", "println"] {
        let line = format!("{function_name} \"hello\";");
        let expressions = parse_lines(vec![line.as_str()], &mut VariableMap::new());

        assert!(matches!(
            expressions.as_slice(),
            [Expression::ExecutionExpression((parsed_name, _))] if parsed_name == function_name
        ));
    }
}
