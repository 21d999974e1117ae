use blocky_lang::blocks::{attempt_parse, Block, BlockType, CodeBlock};
use blocky_lang::execution_policy::ExecutionPolicy;
use blocky_lang::runtime_error::ErrorType;

#[test]
fn block_tags_are_read_without_regard_to_case() {
    assert_eq!(BlockType::parse("<execute>"), BlockType::Execute);
    assert_eq!(BlockType::parse("<EXECUTE>"), BlockType::Execute);
    assert_eq!(BlockType::parse("<Define>"), BlockType::Define);
    assert_eq!(BlockType::parse("<executionolicy>"), BlockType::ExecutionPolicy);
    assert_eq!(BlockType::parse("<execution_policy>"), BlockType::Unknown);
    assert_eq!(BlockType::parse("<other>"), BlockType::Unknown);
}

#[test]
fn end_quota_inserts_a_slash() {
    let blocks = Block::init();
    assert_eq!(blocks.len(), 3);
    assert_eq!(blocks[0].get_end_quota(), "</execute>");
    assert!(blocks[1].match_block("<execution_policy>".to_string()));
    assert_eq!(blocks[2].get_end_quota(), "</define>");
}

#[test]
fn code_block_keeps_its_parts() {
    let block = CodeBlock::new("x".to_string(), BlockType::Define);
    assert_eq!(block.get_inside(), "x");
    assert_eq!(block.get_block_type(), BlockType::Define);
}

#[test]
fn blocks_are_found_between_their_tags() {
    let mut policy = ExecutionPolicy::new();
    let source = "<define>\nlet a = 1;\n</define>\n<execute>\nprint a;\nprintln a;\n</execute>".to_string();
    let blocks = attempt_parse(source, &mut policy).unwrap();
    assert_eq!(blocks.len(), 2);
    assert_eq!(blocks[0].get_block_type(), BlockType::Define);
    assert_eq!(blocks[0].get_inside(), "let a = 1;");
    assert_eq!(blocks[1].get_block_type(), BlockType::Execute);
    assert_eq!(blocks[1].get_inside(), "print a;\nprintln a;");
}

#[test]
fn policy_block_changes_the_policy() {
    let mut policy = ExecutionPolicy::new();
    let source = "<execution_policy>\nOnCodeBlockParseError = Skip\n</execution_policy>\n<execute>\nx\n".to_string();
    let blocks = attempt_parse(source, &mut policy).unwrap();
    assert!(blocks.is_empty());
    assert!(!policy.should_halt_on_code_block_parse_error());
}

#[test]
fn missing_end_quota_halts_by_default() {
    let mut policy = ExecutionPolicy::new();
    let error = attempt_parse("<execute>\nprint 1;\n".to_string(), &mut policy).unwrap_err();
    assert_eq!(*error.get_error_type(), ErrorType::OnCodeBlockParseError);
    assert_eq!(error.get_message(), "Missing end quota at line 1 for <execute>: </execute>");
}

#[test]
fn bad_policy_block_is_an_error() {
    let mut policy = ExecutionPolicy::new();
    let error = attempt_parse("<execution_policy>\nColour = Blue\n</execution_policy>".to_string(), &mut policy)
        .unwrap_err();
    assert_eq!(*error.get_error_type(), ErrorType::AlwaysError);
    assert_eq!(
        error.get_message(),
        "Failed to parse <execution_policy> block starting at line 1: invalid execution policy on line 1: Unknown property: Colour"
    );
}
