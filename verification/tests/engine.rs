use llm_json::{repair_json, JsonRepairError, RepairOptions};

fn engine(ensure_ascii: bool) -> RepairOptions {
    RepairOptions {
        skip_json_loads: true,
        return_objects: false,
        ensure_ascii,
        stream_stable: false,
    }
}

fn fix(text: &str) -> String {
    repair_json(text, &engine(true)).unwrap()
}

#[test]
fn default_options() {
    let options = RepairOptions::default();
    assert!(!options.skip_json_loads);
    assert!(!options.return_objects);
    assert!(options.ensure_ascii);
    assert!(!options.stream_stable);
}

#[test]
fn unmatched_brace_closes() {
    assert_eq!(fix("{"), "{}");
    assert_eq!(repair_json("{", &RepairOptions::default()).unwrap(), "{}");
}

#[test]
fn unmatched_bracket_closes() {
    assert_eq!(fix("["), "[]");
    assert_eq!(repair_json("[", &RepairOptions::default()).unwrap(), "[]");
}

#[test]
fn bare_identifier_becomes_string() {
    assert_eq!(fix("foo"), "\"foo\"");
    assert_eq!(repair_json("foo", &RepairOptions::default()).unwrap(), "\"foo\"");
}

#[test]
fn engine_keeps_member_order() {
    assert_eq!(fix("{name: 'John', age: 30,}"), r#"{"name":"John","age":30}"#);
}

#[test]
fn value_missing_at_end_is_null() {
    assert_eq!(fix("{\"a\":"), r#"{"a":null}"#);
    assert_eq!(fix("{\"a\""), r#"{"a":null}"#);
}

#[test]
fn value_missing_before_structural_is_empty_string() {
    assert_eq!(fix("{\"a\":}"), r#"{"a":""}"#);
    assert_eq!(fix("{\"a\":,\"b\":1}"), r#"{"a":"","b":1}"#);
}

#[test]
fn line_and_block_comments_are_dropped() {
    assert_eq!(fix("{\"a\": 1, // one\n \"b\": 2}"), r#"{"a":1,"b":2}"#);
    assert_eq!(fix("{\"a\": 1, # one\n \"b\": 2}"), r#"{"a":1,"b":2}"#);
    assert_eq!(fix("{\"a\": /* x */ /* y */ 1}"), r#"{"a":1}"#);
    assert_eq!(fix("[1, /* never closed"), "[1]");
    assert_eq!(fix("[1, // to the end"), "[1]");
}

#[test]
fn comments_repeat_until_none_is_left() {
    assert_eq!(fix("[ // a\n // b\n /* c */ # d\n 7 ]"), "[7]");
}

#[test]
fn typographic_quotes_delimit_strings() {
    assert_eq!(fix("{\u{201c}a\u{201d}: \u{201c}b\u{201d}}"), r#"{"a":"b"}"#);
    assert_eq!(
        fix("[\u{201c}say \"hi\"\u{201d}]"),
        r#"["say \"hi\""]"#
    );
}

#[test]
fn single_quoted_string_escapes_double_quotes() {
    assert_eq!(fix(r#"{"msg": 'He said "Hi"'}"#), r#"{"msg":"He said \"Hi\""}"#);
}

#[test]
fn backslash_carries_the_next_scalar() {
    assert_eq!(fix(r#"["a\"b"]"#), r#"["a\"b"]"#);
    assert_eq!(fix(r#"['a\'b']"#), r#"["a\'b"]"#);
    assert_eq!(fix(r#"["a\nb"]"#), r#"["a\nb"]"#);
}

#[test]
fn unterminated_string_is_closed() {
    assert_eq!(fix("\"abc"), "\"abc\"");
    assert_eq!(fix("[\"abc"), "[\"abc\"]");
}

#[test]
fn unquoted_string_escapes_quote_and_backslash() {
    assert_eq!(fix(r#"[a"b]"#), r#"["a\"b"]"#);
    assert_eq!(fix(r#"[a\b]"#), r#"["a\\b"]"#);
}

#[test]
fn unquoted_string_drops_whitespace_before_structural() {
    assert_eq!(fix("{a: hello world  }"), r#"{"a":"hello world"}"#);
    assert_eq!(fix("{key one : 1}"), r#"{"key one":1}"#);
    assert_eq!(fix("hello world  "), "\"hello world  \"");
}

fn escaped(units: &[&str]) -> String {
    let mut text = String::new();
    for unit in units {
        text.push('\\');
        text.push('u');
        text.push_str(unit);
    }
    text
}

#[test]
fn non_ascii_is_escaped_on_demand() {
    assert_eq!(fix("[\"\u{e9}\"]"), format!("[\"{}\"]", escaped(&["00e9"])));
    assert_eq!(fix("[\"\u{7edf}\"]"), format!("[\"{}\"]", escaped(&["7edf"])));
    assert_eq!(fix("[\"\u{1f600}\"]"), format!("[\"{}\"]", escaped(&["d83d", "de00"])));
    assert_eq!(fix("[\"\u{10000}\"]"), format!("[\"{}\"]", escaped(&["d800", "dc00"])));
    assert_eq!(fix("[\"\u{10ffff}\"]"), format!("[\"{}\"]", escaped(&["dbff", "dfff"])));
    assert_eq!(fix("[\"\u{ffff}\"]"), format!("[\"{}\"]", escaped(&["ffff"])));
    assert_eq!(fix("[\"\u{7f}\u{80}\"]"), format!("[\"\u{7f}{}\"]", escaped(&["0080"])));
    assert_eq!(fix("[\u{e9}t\u{e9}]"), format!("[\"{}t{}\"]", escaped(&["00e9"]), escaped(&["00e9"])));
}

#[test]
fn non_ascii_passes_without_ensure_ascii() {
    let options = engine(false);
    assert_eq!(
        repair_json("{'k': '\u{e9}\u{1f600}'}", &options).unwrap(),
        "{\"k\":\"\u{e9}\u{1f600}\"}"
    );
    assert_eq!(repair_json("[\u{7edf}]", &options).unwrap(), "[\"\u{7edf}\"]");
}

#[test]
fn numbers_are_copied_and_filled() {
    assert_eq!(fix("[0, -1, 12.5, 1e5, 1E+5, 2e-3]"), "[0,-1,12.5,1e5,1e+5,2e-3]");
    assert_eq!(fix("{\"n\": 1.}"), r#"{"n":1.0}"#);
    assert_eq!(fix("{\"n\": 1e}"), r#"{"n":1e0}"#);
    assert_eq!(fix("{\"n\": 1.e}"), r#"{"n":1.0e0}"#);
    assert_eq!(fix("{\"n\": 1e+}"), r#"{"n":1e+0}"#);
    assert_eq!(fix("[-.5]"), "[-.5]");
}

#[test]
fn number_without_digits_is_a_string() {
    assert_eq!(fix("[-]"), "[\"-\"]");
    assert_eq!(fix("[-abc]"), "[\"-abc\"]");
    assert_eq!(fix("{\"a\": --1}"), r#"{"a":"--1"}"#);
}

#[test]
fn leading_zero_ends_the_integer() {
    assert_eq!(fix("[012]"), "[0,12]");
}

#[test]
fn literals_match_in_any_case() {
    assert_eq!(
        fix("{\"v\": None, \"w\": undefined, \"u\": TRUE, \"f\": False, \"n\": NULL}"),
        r#"{"v":null,"w":null,"u":true,"f":false,"n":null}"#
    );
    assert_eq!(fix("[nul, truth, nulls]"), r#"["nul","truth","nulls"]"#);
}

#[test]
fn keys_are_never_literals() {
    assert_eq!(fix("{true: 1, null: 2, 12: 3}"), r#"{"true":1,"null":2,"12":3}"#);
}

#[test]
fn missing_comma_is_supplied() {
    assert_eq!(fix("{\"a\":1 \"b\":2}"), r#"{"a":1,"b":2}"#);
    assert_eq!(fix("{\"a\":1 b:2}"), r#"{"a":1,"b":2}"#);
    assert_eq!(fix("[1 2 \"x\" true]"), r#"[1,2,"x",true]"#);
}

#[test]
fn commas_collapse_and_trailing_ones_vanish() {
    assert_eq!(fix("[1,,2,,,3,]"), "[1,2,3]");
    assert_eq!(fix("[,1]"), "[1]");
    assert_eq!(fix("{,\"a\":1,,\"b\":2,}"), r#"{"a":1,"b":2}"#);
    assert_eq!(fix("{\"a\":1,,}"), r#"{"a":1}"#);
}

#[test]
fn stray_structural_scalars_are_dropped() {
    assert_eq!(fix("{]"), "{}");
    assert_eq!(fix("{:\"a\":1}"), r#"{"a":1}"#);
    assert_eq!(fix("{\"a\":1]}"), r#"{"a":1}"#);
    assert_eq!(fix("{\"a\":1:}"), r#"{"a":1}"#);
    assert_eq!(fix("[}"), "[]");
    assert_eq!(fix("[1:2}3]"), "[1,2,3]");
}

#[test]
fn value_without_key_gets_the_unknown_key() {
    assert_eq!(fix("{\"a\":1 2}"), r#"{"a":1,"unknown":2}"#);
    assert_eq!(fix("{\"a\":1 [2] {}}"), r#"{"a":1,"unknown":[2],"unknown":{}}"#);
    assert_eq!(fix("{\"a\":1, 2}"), r#"{"a":1,"2":""}"#);
}

#[test]
fn missing_colon_is_supplied() {
    assert_eq!(fix("{\"a\" 1}"), r#"{"a":1}"#);
    assert_eq!(fix("{\"a\" \"b\"}"), r#"{"a":"b"}"#);
}

#[test]
fn repeated_key_in_array_splits_the_object() {
    assert_eq!(fix("[ {a: 1, a: 2} ]"), r#"[{"a":1},{"a":2}]"#);
    assert_eq!(
        fix("[{a: 1, b: 2, a: 3, b: 4, b: 5}]"),
        r#"[{"a":1,"b":2},{"a":3,"b":4},{"b":5}]"#
    );
    assert_eq!(fix("[{'a': 1 \"a\": 2}]"), r#"[{"a":1},{"a":2}]"#);
}

#[test]
fn repeated_key_outside_array_stays() {
    assert_eq!(fix("{a: 1, a: 2}"), r#"{"a":1,"a":2}"#);
    assert_eq!(fix("{x: {a: 1, a: 2}}"), r#"{"x":{"a":1,"a":2}}"#);
    assert_eq!(fix("[{x: {a: 1, a: 2}}]"), r#"[{"x":{"a":1,"a":2}}]"#);
}

#[test]
fn fenced_block_is_taken() {
    assert_eq!(fix("```json\n{\"x\":1}\n```"), r#"{"x":1}"#);
    assert_eq!(fix("Sure:\n```json{\"x\":1}``` done [2]"), r#"{"x":1}"#);
    assert_eq!(fix("```json\n[1]\n``` and ```json [2] ```"), "[1]");
}

#[test]
fn fence_without_content_is_no_fence() {
    assert_eq!(fix("```json"), "\"json\"");
    assert_eq!(fix("``` [1] ```json"), "[1]");
}

#[test]
fn prose_before_the_payload_is_dropped() {
    assert_eq!(fix("Here's the JSON: {\"name\": \"John\"}"), r#"{"name":"John"}"#);
    assert_eq!(fix("numbers [1, 2] and {\"a\": 1}"), "[1,2]");
    assert_eq!(fix("?? 42 !!"), "42");
    assert_eq!(fix("Answer: 42"), "\"Answer\"");
}

#[test]
fn what_follows_the_value_is_dropped() {
    assert_eq!(fix("{\"a\":1} trailing {\"b\":2}"), r#"{"a":1}"#);
    assert_eq!(fix("[1] [2]"), "[1]");
}

#[test]
fn nesting_up_to_the_limit_is_repaired() {
    let deep: String = "[".repeat(1024);
    let expected: String = format!("{}{}", "[".repeat(1024), "]".repeat(1024));
    assert_eq!(fix(&deep), expected);
}

#[test]
fn nesting_beyond_the_limit_is_an_error() {
    let deep: String = "[".repeat(1025);
    let result = repair_json(&deep, &engine(true));
    assert!(matches!(result, Err(JsonRepairError::NestingLimitExceeded)));
    let deep: String = "{\"a\":".repeat(1025);
    let result = repair_json(&deep, &RepairOptions::default());
    assert!(matches!(result, Err(JsonRepairError::NestingLimitExceeded)));
}

#[test]
fn engine_text_that_is_no_json_is_unrepairable() {
    let result = repair_json("\"a\\", &RepairOptions::default());
    assert!(matches!(result, Err(JsonRepairError::UnrepairableJson)));
    let result = repair_json("[-.5]", &RepairOptions::default());
    assert!(matches!(result, Err(JsonRepairError::UnrepairableJson)));
    assert_eq!(fix("\"a\\"), "\"a\\\"");
}

#[test]
fn empty_key_takes_a_stray_delimiter_before_the_colon() {
    assert_eq!(fix("{\"\"\": 1}"), r#"{"":1}"#);
    assert_eq!(fix("{''': 1}"), r#"{"":1}"#);
    assert_eq!(fix("{\u{201c}\u{201d}\u{201d}: 1}"), r#"{"":1}"#);
}

#[test]
fn empty_key_takes_a_second_empty_pair() {
    assert_eq!(fix("{\"\"\"\" : 1}"), r#"{"":1}"#);
    assert_eq!(fix("{'''': 1}"), r#"{"":1}"#);
    assert_eq!(fix("{\u{201c}\u{201d}\u{201c}\u{201d}: 1}"), r#"{"":1}"#);
}

#[test]
fn empty_key_alone_is_kept() {
    assert_eq!(fix("{\"\": 1}"), r#"{"":1}"#);
    assert_eq!(fix("{\"\" 1}"), r#"{"":1}"#);
}

#[test]
fn empty_string_value_takes_nothing_with_it() {
    assert_eq!(fix("[\"\"\"\"]"), r#"["",""]"#);
}

#[test]
fn input_with_few_openers_is_always_repaired() {
    let mixed: String = "[{\"a\":".repeat(512);
    let result = repair_json(&mixed, &engine(true)).unwrap();
    assert_eq!(result.chars().filter(|c| *c == '[' || *c == '{').count(), 1024);
    assert!(result.ends_with(&format!("null{}", "}]".repeat(512))));
    let flat: String = "[],".repeat(5000);
    assert_eq!(repair_json(&format!("[{}]", flat), &engine(true)).unwrap().len(), 2 + 3 * 5000 - 1);
}
