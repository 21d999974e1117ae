use blocky_lang::execution_policy::ExecutionPolicy;
use blocky_lang::runtime_error::{ErrorType, RuntimeError};
use blocky_lang::var_handler::Value;

#[test]
fn test_undefined_value_policy_returns_its_value() {
    let mut policy = ExecutionPolicy::new();
    let _ = policy.change_policy("HandleUndefinedValueAs = \"fallback\"".to_string());

    let error = RuntimeError::new("Cannot use an undefind value".to_string(), ErrorType::OnUndefinedValue);

    match policy.handle_error(error) {
        Ok(Some(Value::String(value))) => assert_eq!(value, "fallback"),
        _ => panic!("the policy should return its fallback value"),
    }
}
