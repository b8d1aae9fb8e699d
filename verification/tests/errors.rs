use llm_json::error::serde_message;
use llm_json::{repair_json, JsonRepairError, RepairOptions};

#[test]
fn unrepairable_message_is_fixed() {
    let error = repair_json("[-.5]", &RepairOptions::default()).unwrap_err();
    assert_eq!(error.message(), "JSON string is too broken to repair");
}

#[test]
fn nesting_message_is_fixed() {
    let deep: String = "[".repeat(1025);
    let error = repair_json(&deep, &RepairOptions::default()).unwrap_err();
    assert_eq!(error.message(), "JSON is too deeply nested");
}

#[test]
fn serde_message_ends_with_the_detail() {
    assert_eq!(serde_message("expected value"), "Serde JSON error: expected value");
    let inner = serde_json::from_str::<serde_json::Value>("{").unwrap_err();
    let detail = inner.to_string();
    let error = JsonRepairError::SerdeError(inner);
    assert_eq!(error.message(), format!("Serde JSON error: {}", detail));
}

#[test]
fn written_maps_the_writer_outcome() {
    let text = llm_json::repair::written(Ok("[1]".to_string())).unwrap();
    assert_eq!(text, "[1]");
    let inner = serde_json::from_str::<serde_json::Value>("]").unwrap_err();
    let result = llm_json::repair::written(Err(inner));
    assert!(matches!(result, Err(JsonRepairError::SerdeError(_))));
}

#[test]
fn validated_writes_a_parsed_value_and_rejects_a_failed_parse() {
    let parsed = serde_json::from_str::<serde_json::Value>(" { \"b\" : 1, \"a\" : [ ] } ");
    assert_eq!(llm_json::repair::validated(parsed).unwrap(), r#"{"a":[],"b":1}"#);
    let parsed = serde_json::from_str::<serde_json::Value>("{");
    let result = llm_json::repair::validated(parsed);
    assert!(matches!(result, Err(JsonRepairError::UnrepairableJson)));
}
