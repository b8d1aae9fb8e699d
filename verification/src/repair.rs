//! The entry points: repair of a text, with or without the strict parser
//! before and after the engine.

use vstd::prelude::*;
use crate::chars::is_whitespace;
use crate::chars::unicode_whitespace;
use crate::document::repaired;
use crate::error::JsonRepairError;
use crate::options::RepairOptions;
use crate::parser::JsonRepairParser;
use serde_json::Value;

verus! {

#[verifier::external_type_specification]
#[verifier::external_body]
pub struct ExValue(Value);

/// The compact JSON text of a value: what `serde_json::to_string` writes
/// for it.
pub uninterp spec fn value_text(value: Value) -> Seq<char>;

/// The compact JSON text of the value that the strict parser reads from
/// `text`; `None` where it rejects `text`.
pub uninterp spec fn strict_json(text: Seq<char>) -> Option<Seq<char>>;

/// Calls `serde_json::from_str` for a `Value`. Trusted: whether the text
/// is accepted, and the value read, depend on the text alone, which is
/// what the name `strict_json` stands for.
#[verifier::external_body]
fn strict_parse(text: &str) -> (parsed: Result<Value, serde_json::Error>)
    ensures
        parsed is Ok <==> strict_json(text@) is Some,
        parsed matches Ok(value) ==> strict_json(text@) == Some(value_text(value)),
{
    serde_json::from_str::<Value>(text)
}

/// Calls `serde_json::to_string` on a `Value`. Trusted: the call
/// succeeds, and the text written depends on the value alone, which is
/// what the name `value_text` stands for. The writer fails only where its
/// sink does or a key of a map is no string; here the sink is a vector of
/// bytes and the keys of a `Value` are strings.
#[verifier::external_body]
fn compact(value: &Value) -> (written: Result<String, serde_json::Error>)
    ensures
        written is Ok,
        written matches Ok(text) ==> text@ == value_text(*value),
{
    serde_json::to_string(value)
}

/// Every scalar of `text` is whitespace; the empty text is blank.
pub open spec fn blank(text: Seq<char>) -> bool {
    forall|i: int| 0 <= i < text.len() ==> unicode_whitespace(#[trigger] text[i])
}

/// The document that stands for a blank input.
pub open spec fn empty_object() -> Seq<char> {
    seq!['{', '}']
}

/// What a repair comes to.
pub enum Repair {
    /// The repaired text.
    Text(Seq<char>),
    /// The engine's text is rejected by the strict parser.
    Unrepairable,
    /// The input nests deeper than the limit.
    TooDeep,
}

/// What the repair of `text` comes to. A blank text gives `{}`. Without
/// validation the result is the engine's text. With it, a text that the
/// strict parser accepts gives the compact text of its value; any other is
/// repaired by the engine, and the result is the compact text of the value
/// that the strict parser reads from the engine's text.
pub open spec fn expected(text: Seq<char>, options: RepairOptions) -> Repair {
    if blank(text) {
        Repair::Text(empty_object())
    } else if options.skip_json_loads {
        match repaired(text, options.ensure_ascii) {
            Some(fixed) => Repair::Text(fixed),
            None => Repair::TooDeep,
        }
    } else {
        match strict_json(text) {
            Some(canonical) => Repair::Text(canonical),
            None => match repaired(text, options.ensure_ascii) {
                Some(fixed) => match strict_json(fixed) {
                    Some(canonical) => Repair::Text(canonical),
                    None => Repair::Unrepairable,
                },
                None => Repair::TooDeep,
            },
        }
    }
}

/// A result agrees with a repair: it is the repair's text where the
/// repair is one, and else the repair's error.
pub open spec fn agrees(result: Result<String, JsonRepairError>, repair: Repair) -> bool {
    match repair {
        Repair::Text(text) => result matches Ok(fixed) && fixed@ == text,
        Repair::Unrepairable => result matches Err(JsonRepairError::UnrepairableJson),
        Repair::TooDeep => result matches Err(JsonRepairError::NestingLimitExceeded),
    }
}

/// A text that the strict parser accepts is not repaired: with
/// validation, what comes of it is the compact text of the value that the
/// strict parser reads from it.
pub proof fn law_fast_path(text: Seq<char>, options: RepairOptions)
    ensures
        !blank(text) && !options.skip_json_loads ==> (strict_json(text) matches Some(canonical)
            ==> expected(text, options) == Repair::Text(canonical)),
{
}

/// A blank text comes to the empty object, whatever the options.
pub proof fn law_blank(text: Seq<char>, options: RepairOptions)
    ensures
        blank(text) ==> expected(text, options) == Repair::Text(empty_object()),
{
}

/// Whether every scalar of `text` is whitespace.
pub fn is_blank(text: &Vec<char>) -> (b: bool)
    ensures
        b == blank(text@),
{
    let mut i: usize = 0;
    while i < text.len()
        invariant
            i <= text@.len(),
            forall|j: int| 0 <= j < i ==> unicode_whitespace(#[trigger] text@[j]),
        decreases text@.len() - i,
    {
        if !is_whitespace(text[i]) {
            return false;
        }
        i = i + 1;
    }
    true
}

/// The result of a repair from the outcome of writing its value: the text
/// written, or the error of the writer.
pub fn written(outcome: Result<String, serde_json::Error>) -> (result: Result<
    String,
    JsonRepairError,
>)
    ensures
        match outcome {
            Ok(text) => result == Ok::<String, JsonRepairError>(text),
            Err(e) => result == Err::<String, JsonRepairError>(JsonRepairError::SerdeError(e)),
        },
{
    match outcome {
        Ok(text) => Ok(text),
        Err(e) => Err(JsonRepairError::SerdeError(e)),
    }
}

/// The result of a repair from the outcome of the strict parse of the
/// engine's text: the compact text of the value read, or
/// `UnrepairableJson` where the parser rejected the text.
pub fn validated(parsed: Result<Value, serde_json::Error>) -> (result: Result<
    String,
    JsonRepairError,
>)
    ensures
        match parsed {
            Ok(value) => result matches Ok(text) && text@ == value_text(value),
            Err(_) => result matches Err(JsonRepairError::UnrepairableJson),
        },
{
    match parsed {
        Ok(value) => written(compact(&value)),
        Err(_) => Err(JsonRepairError::UnrepairableJson),
    }
}

/// Runs the repair engine on `text`: the engine's text, or
/// `NestingLimitExceeded` where the input nests too deep.
pub fn repair_text(text: &str, options: &RepairOptions) -> (result: Result<
    String,
    JsonRepairError,
>)
    ensures
        match repaired(text@, options.ensure_ascii) {
            Some(fixed) => result matches Ok(s) && s@ == fixed,
            None => result matches Err(JsonRepairError::NestingLimitExceeded),
        },
{
    let mut parser = JsonRepairParser::new(text, *options);
    match parser.parse() {
        Ok(()) => Ok(parser.get_result()),
        Err(e) => Err(e),
    }
}

/// Repairs `json_str` into JSON text, as `expected` says.
pub fn repair_json(json_str: &str, options: &RepairOptions) -> (result: Result<
    String,
    JsonRepairError,
>)
    ensures
        agrees(result, expected(json_str@, *options)),
        result is Ok <==> expected(json_str@, *options) is Text,
        blank(json_str@) ==> (result matches Ok(text) && text@ == empty_object()),
{
    let scalars = crate::text::scalars_of(json_str);
    if is_blank(&scalars) {
        let empty = "{}".to_owned();
        proof {
            reveal_strlit("{}");
            assert(empty@ =~= empty_object());
        }
        return Ok(empty);
    }
    if !options.skip_json_loads {
        match strict_parse(json_str) {
            Ok(value) => {
                return written(compact(&value));
            },
            Err(_) => {},
        }
    }
    let fixed = match repair_text(json_str, options) {
        Ok(fixed) => fixed,
        Err(e) => {
            return Err(e);
        },
    };
    if !options.skip_json_loads {
        return validated(strict_parse(fixed.as_str()));
    }
    Ok(fixed)
}

/// What `loads` comes to: the compact text of the value that the strict
/// parser reads from the repaired text, and `Unrepairable` where it rejects
/// that text.
pub open spec fn expected_value(text: Seq<char>, options: RepairOptions) -> Repair {
    match expected(text, options) {
        Repair::Text(fixed) => match strict_json(fixed) {
            Some(canonical) => Repair::Text(canonical),
            None => Repair::Unrepairable,
        },
        other => other,
    }
}

/// Repairs `json_str` and reads the result with the strict parser: a
/// value where the strict parser accepts the repaired text, the value that
/// it reads from it; else the error of the repair, or `UnrepairableJson`
/// for a repaired text that is rejected.
pub fn loads(json_str: &str, options: &RepairOptions) -> (result: Result<Value, JsonRepairError>)
    ensures
        match expected_value(json_str@, *options) {
            Repair::Text(canonical) => result matches Ok(value) && value_text(value) == canonical,
            Repair::Unrepairable => result matches Err(JsonRepairError::UnrepairableJson),
            Repair::TooDeep => result matches Err(JsonRepairError::NestingLimitExceeded),
        },
        expected(json_str@, *options) matches Repair::Text(fixed) ==> (result is Ok <==> strict_json(
            fixed,
        ) is Some),
{
    let fixed = match repair_json(json_str, options) {
        Ok(fixed) => fixed,
        Err(e) => {
            return Err(e);
        },
    };
    match strict_parse(fixed.as_str()) {
        Ok(value) => Ok(value),
        Err(_) => Err(JsonRepairError::UnrepairableJson),
    }
}

} // verus!
