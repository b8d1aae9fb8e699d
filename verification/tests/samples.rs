use llm_json::{loads, repair_json, JsonRepairError, RepairOptions};
use serde_json::Value;

const SAMPLES: [&str; 14] = [
    "{name: 'John', age: 30,}",
    "{\"name\": \"John\", \"age\": 30",
    "[\"a\", \"b\", \"c\"",
    "```json\n{\"x\":1}\n```",
    "Here's the JSON: {\"name\": \"John\", \"age\": 30}",
    "{\"v\": None, \"w\": undefined, \"u\": TRUE}",
    "{\"a\":1 \"b\":2}",
    "{\"msg\": 'He said \"Hi\"'}",
    "{\"n\": 1.}",
    "{\"n\": 1e}",
    "[{a: 1, a: 2}, [1 2 3], {\u{4e2d}: '\u{1f600}'}]",
    "{\"nested\": {\"deep\": [1, {\"x\": null}]}, \"t\": true}",
    "  [1, 2.5, \"three\"]  ",
    "foo",
];

fn engine(ensure_ascii: bool) -> RepairOptions {
    RepairOptions {
        skip_json_loads: true,
        return_objects: false,
        ensure_ascii,
        stream_stable: false,
    }
}

#[test]
fn repairs_unquoted_keys_and_trailing_comma() {
    let result = repair_json("{name: 'John', age: 30,}", &RepairOptions::default()).unwrap();
    assert_eq!(result, r#"{"age":30,"name":"John"}"#);
}

#[test]
fn repairs_missing_closing_brace() {
    let result = repair_json("{\"name\": \"John\", \"age\": 30", &RepairOptions::default());
    assert_eq!(result.unwrap(), r#"{"age":30,"name":"John"}"#);
}

#[test]
fn repairs_missing_closing_bracket() {
    let result = repair_json("[\"a\", \"b\", \"c\"", &RepairOptions::default()).unwrap();
    assert_eq!(result, r#"["a","b","c"]"#);
}

#[test]
fn repairs_fenced_block() {
    let result = repair_json("```json\n{\"x\":1}\n```", &RepairOptions::default()).unwrap();
    assert_eq!(result, r#"{"x":1}"#);
}

#[test]
fn repairs_leading_prose() {
    let result = repair_json(
        "Here's the JSON: {\"name\": \"John\", \"age\": 30}",
        &RepairOptions::default(),
    )
    .unwrap();
    assert_eq!(result, r#"{"age":30,"name":"John"}"#);
}

#[test]
fn repairs_other_spellings_of_literals() {
    let result = repair_json(
        "{\"v\": None, \"w\": undefined, \"u\": TRUE}",
        &RepairOptions::default(),
    )
    .unwrap();
    assert_eq!(result, r#"{"u":true,"v":null,"w":null}"#);
}

#[test]
fn repairs_missing_comma() {
    let result = repair_json("{\"a\":1 \"b\":2}", &RepairOptions::default()).unwrap();
    assert_eq!(result, r#"{"a":1,"b":2}"#);
}

#[test]
fn repairs_quotes_inside_single_quotes() {
    let result = repair_json("{\"msg\": 'He said \"Hi\"'}", &RepairOptions::default()).unwrap();
    assert_eq!(result, r#"{"msg":"He said \"Hi\""}"#);
}

#[test]
fn repairs_number_without_fraction_digits() {
    let result = repair_json("{\"n\": 1.}", &RepairOptions::default()).unwrap();
    assert_eq!(result, r#"{"n":1.0}"#);
}

#[test]
fn repairs_number_without_exponent_digits() {
    let result = repair_json("{\"n\": 1e}", &engine(true)).unwrap();
    assert_eq!(result, r#"{"n":1e0}"#);
}

#[test]
fn blank_input_gives_the_empty_object() {
    for options in [RepairOptions::default(), engine(true), engine(false)] {
        assert_eq!(repair_json("", &options).unwrap(), "{}");
        assert_eq!(repair_json(" ", &options).unwrap(), "{}");
        assert_eq!(repair_json(" \t\r\n ", &options).unwrap(), "{}");
        assert_eq!(repair_json("\u{a0}\u{2003}\u{3000}", &options).unwrap(), "{}");
    }
}

#[test]
fn input_with_one_visible_scalar_is_not_blank() {
    assert_eq!(repair_json("  7  ", &RepairOptions::default()).unwrap(), "7");
    assert_eq!(repair_json(" \u{200b} ", &engine(true)).unwrap(), "null");
}

#[test]
fn repaired_text_is_strictly_valid() {
    for sample in SAMPLES {
        let result = repair_json(sample, &RepairOptions::default()).unwrap();
        assert!(serde_json::from_str::<Value>(&result).is_ok(), "{}", sample);
    }
}

#[test]
fn repair_is_idempotent_on_samples() {
    for sample in SAMPLES {
        let once = repair_json(sample, &RepairOptions::default()).unwrap();
        let twice = repair_json(&once, &RepairOptions::default()).unwrap();
        assert_eq!(once, twice, "{}", sample);
    }
}

#[test]
fn valid_json_keeps_its_value() {
    let valid = [
        "{\"b\": [1, 2.5, \"x\"], \"a\": {\"t\": true, \"n\": null}}",
        " [ ] ",
        "\"text with \\\"quotes\\\" and \\u00e9\"",
        "-12.5e3",
    ];
    for text in valid {
        let value: Value = serde_json::from_str(text).unwrap();
        let repaired = repair_json(text, &RepairOptions::default()).unwrap();
        let again: Value = serde_json::from_str(&repaired).unwrap();
        assert_eq!(value, again, "{}", text);
        assert_eq!(loads(text, &RepairOptions::default()).unwrap(), value);
    }
}

#[test]
fn valid_json_is_written_compactly() {
    let result = repair_json("{ \"b\" : 1 ,\n \"a\" : [ 1 , 2 ] }", &RepairOptions::default());
    assert_eq!(result.unwrap(), r#"{"a":[1,2],"b":1}"#);
}

#[test]
fn output_length_is_bounded_on_samples() {
    let hard = [
        "{\u{1f600}",
        "{\u{1f600}:\u{1f600}]\u{1f600}:",
        "{\"a\":1 \u{1f600}:\u{1f600}]",
        "[[[[[[[[",
        "{a:{a:{a:{a:",
        "-",
    ];
    for sample in SAMPLES.iter().chain(hard.iter()) {
        for ensure_ascii in [true, false] {
            let result = repair_json(sample, &engine(ensure_ascii)).unwrap();
            let produced = result.chars().count();
            let consumed = sample.chars().count();
            assert!(produced <= 25 * consumed + 4, "{}", sample);
        }
    }
}

#[test]
fn output_length_bound_is_met_by_the_worst_known_input() {
    let result = repair_json("{\"a\":1 \u{1f600}:", &engine(true)).unwrap();
    assert_eq!(
        result,
        format!("{{\"a\":1,\"unknown\":\"{0}ud83d{0}ude00\"}}", '\\')
    );
}

#[test]
fn ensure_ascii_output_is_ascii_outside_escapes() {
    let hard = ["[\"\\\u{e9}\"]", "{'\u{e9}\\\u{1f600}': \u{7edf}}", "\u{e9}\\\u{e9}"];
    for sample in SAMPLES.iter().chain(hard.iter()) {
        let result = repair_json(sample, &engine(true)).unwrap();
        let scalars: Vec<char> = result.chars().collect();
        for (i, c) in scalars.iter().enumerate() {
            assert!(c.is_ascii() || (i > 0 && scalars[i - 1] == '\\'), "{}", sample);
        }
    }
}

#[test]
fn backslash_carries_a_scalar_that_is_not_ascii() {
    let result = repair_json("[\"\\\u{e9}\"]", &engine(true)).unwrap();
    assert_eq!(result, "[\"\\\u{e9}\"]");
}

#[test]
fn strings_keep_their_scalars_without_ensure_ascii() {
    let result = repair_json("{'cl\u{e9}': \"\u{7edf}\u{4e00}\u{7801} \u{1f600}\"}", &engine(false));
    assert_eq!(result.unwrap(), "{\"cl\u{e9}\":\"\u{7edf}\u{4e00}\u{7801} \u{1f600}\"}");
    let result = repair_json("[caf\u{e9} cr\u{e8}me]", &engine(false)).unwrap();
    assert_eq!(result, "[\"caf\u{e9} cr\u{e8}me\"]");
}

#[test]
fn loads_reads_the_repaired_text() {
    let value = loads("[1, {a: 'b'}, nul", &RepairOptions::default()).unwrap();
    let expected: Value = serde_json::from_str(r#"[1,{"a":"b"},"nul"]"#).unwrap();
    assert_eq!(value, expected);
    assert_eq!(loads("", &RepairOptions::default()).unwrap(), Value::Object(Default::default()));
}

#[test]
fn loads_rejects_engine_text_that_is_no_json() {
    let result = loads("[-.5]", &engine(true));
    assert!(matches!(result, Err(JsonRepairError::UnrepairableJson)));
    let deep: String = "[".repeat(2000);
    let result = loads(&deep, &RepairOptions::default());
    assert!(matches!(result, Err(JsonRepairError::NestingLimitExceeded)));
}
