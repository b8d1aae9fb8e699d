use llm_json::{loads, repair_json, RepairOptions};
use serde_json::Value;

#[test]
fn test_basic_repair() {
    let options = RepairOptions::default();

    // Missing quotes around keys
    let result = repair_json(r#"{name: "John", age: 30}"#, &options).unwrap();
    assert_eq!(result, r#"{"age":30,"name":"John"}"#);

    // Single quotes
    let result = repair_json(r#"{'name': 'John', 'age': 30}"#, &options).unwrap();
    assert_eq!(result, r#"{"age":30,"name":"John"}"#);

    // Trailing comma
    let result = repair_json(r#"{"name": "John", "age": 30,}"#, &options).unwrap();
    assert_eq!(result, r#"{"age":30,"name":"John"}"#);
}

#[test]
fn test_incomplete_json() {
    let options = RepairOptions::default();

    // Missing closing brace
    let result = repair_json(r#"{"name": "John", "age": 30"#, &options).unwrap();
    assert_eq!(result, r#"{"age":30,"name":"John"}"#);

    // Missing closing bracket
    let result = repair_json(r#"["a", "b", "c""#, &options).unwrap();
    assert_eq!(result, r#"["a","b","c"]"#);

    // Completely incomplete object
    let result = repair_json(r#"{"name": "John"#, &options).unwrap();
    assert_eq!(result, r#"{"name":"John"}"#);
}

#[test]
fn test_literals() {
    let options = RepairOptions::default();

    // Boolean values
    let result = repair_json(r#"{"active": true, "inactive": false}"#, &options).unwrap();
    assert_eq!(result, r#"{"active":true,"inactive":false}"#);

    // Null values
    let result = repair_json(r#"{"value": null}"#, &options).unwrap();
    assert_eq!(result, r#"{"value":null}"#);

    // Alternative null representations
    let result = repair_json(r#"{"value": None}"#, &options).unwrap();
    assert_eq!(result, r#"{"value":null}"#);

    let result = repair_json(r#"{"value": undefined}"#, &options).unwrap();
    assert_eq!(result, r#"{"value":null}"#);
}

#[test]
fn test_arrays() {
    let options = RepairOptions::default();

    // Mixed array
    let result = repair_json(r#"[1, "two", true, null]"#, &options).unwrap();
    assert_eq!(result, r#"[1,"two",true,null]"#);

    // Array with trailing comma
    let result = repair_json(r#"[1, 2, 3,]"#, &options).unwrap();
    assert_eq!(result, r#"[1,2,3]"#);

    // Array with single trailing comma only
    let result = repair_json(r#"[1, 2, 3]"#, &options).unwrap();
    assert_eq!(result, r#"[1,2,3]"#);
}

#[test]
fn test_numbers() {
    let options = RepairOptions::default();

    // Test simple numbers individually
    let result = repair_json(r#"{"int": 42}"#, &options).unwrap();
    assert_eq!(result, r#"{"int":42}"#);

    let result = repair_json(r#"{"float": 3.14}"#, &options).unwrap();
    assert_eq!(result, r#"{"float":3.14}"#);

    let result = repair_json(r#"{"negative": -10}"#, &options).unwrap();
    assert_eq!(result, r#"{"negative":-10}"#);

    // Invalid numbers should become strings - test with simpler case
    let result = repair_json(r#"{invalid: abc123}"#, &options).unwrap();
    assert_eq!(result, r#"{"invalid":"abc123"}"#);
}

#[test]
fn test_loads_function() {
    let options = RepairOptions::default();

    let value = loads(r#"{name: "John", age: 30}"#, &options).unwrap();

    if let Value::Object(obj) = value {
        assert_eq!(obj["name"], "John");
        assert_eq!(obj["age"], 30);
    } else {
        panic!("Expected object");
    }
}

#[test]
fn test_unicode_preservation() {
    let mut options = RepairOptions::default();
    options.ensure_ascii = false;

    let result = repair_json(r#"{"chinese": "统一码"}"#, &options).unwrap();
    assert!(result.contains("统一码"));
}

#[test]
fn test_comments_removal() {
    let options = RepairOptions::default();

    // Line comments
    let result = repair_json(
        r#"{"name": "John", // this is a comment
        "age": 30}"#,
        &options,
    )
    .unwrap();
    assert_eq!(result, r#"{"age":30,"name":"John"}"#);

    // Block comments
    let result = repair_json(r#"{"name": "John", /* comment */ "age": 30}"#, &options).unwrap();
    assert_eq!(result, r#"{"age":30,"name":"John"}"#);
}

#[test]
fn test_empty_input() {
    let options = RepairOptions::default();

    let result = repair_json("", &options).unwrap();
    assert_eq!(result, "{}");

    let result = repair_json("   ", &options).unwrap();
    assert_eq!(result, "{}");
}

#[test]
fn test_nested_structures() {
    let options = RepairOptions::default();

    let result = repair_json(
        r#"{users: [{name: "John", active: true}, {name: "Jane", active: false}]}"#,
        &options,
    )
    .unwrap();
    let expected =
        r#"{"users":[{"active":true,"name":"John"},{"active":false,"name":"Jane"}]}"#;
    assert_eq!(result, expected);
}

#[test]
fn test_llm_common_errors() {
    let options = RepairOptions::default();

    // LLM often adds markdown code blocks
    let result = repair_json(
        r#"```json
        {
            "name": "John",
            "age": 30
        }
        ```"#,
        &options,
    )
    .unwrap();
    assert_eq!(result, r#"{"age":30,"name":"John"}"#);

    // LLM sometimes adds explanatory text
    let result =
        repair_json(r#"Here's the JSON: {"name": "John", "age": 30}"#, &options).unwrap();
    assert_eq!(result, r#"{"age":30,"name":"John"}"#);

    // Mixed quotes and missing commas
    let result = repair_json(r#"{"name": 'John' "age": 30}"#, &options).unwrap();
    assert_eq!(result, r#"{"age":30,"name":"John"}"#);
}

#[test]
fn test_string_escaping() {
    let options = RepairOptions::default();

    // String with embedded quotes
    let result = repair_json(r#"{"message": "He said \"Hello\""}"#, &options).unwrap();
    assert_eq!(result, r#"{"message":"He said \"Hello\""}"#);

    // Unescaped quotes in single-quoted strings
    let result = repair_json(r#"{'message': 'He said "Hello"'}"#, &options).unwrap();
    assert_eq!(result, r#"{"message":"He said \"Hello\""}"#);
}

#[test]
fn test_skip_validation() {
    let mut options = RepairOptions::default();
    options.skip_json_loads = true;

    // This should work even if the result isn't valid JSON
    let result = repair_json(r#"{name: "John"}"#, &options);
    assert!(result.is_ok());
}

#[test]
fn test_extremely_broken_json() {
    let options = RepairOptions::default();

    // Multiple issues at once
    let result = repair_json(
        r#"
        {
            name: 'John',
            age: 30,
            hobbies: ['reading', 'swimming'],
            address: {
                street: "123 Main St",
                city: 'New York'
            },
            active: true,
            balance: null
        }"#,
        &options,
    )
    .unwrap();

    // Verify it's valid JSON
    let parsed: Value = serde_json::from_str(&result).unwrap();
    assert!(parsed.is_object());
}

#[test]
fn test_scientific_notation() {
    let options = RepairOptions::default();

    let result = repair_json(r#"{"small": 1e-10, "large": 1.23e+15}"#, &options).unwrap();
    assert_eq!(result, r#"{"large":1230000000000000.0,"small":1e-10}"#);
}

#[test]
fn test_performance_options() {
    let mut options = RepairOptions::default();
    options.skip_json_loads = true;

    let start = std::time::Instant::now();
    let _result = repair_json(r#"{name: "John", age: 30}"#, &options).unwrap();
    let duration = start.elapsed();

    // Just ensure it completes quickly
    assert!(duration.as_millis() < 100);
}
