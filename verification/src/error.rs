//! The ways in which a repair fails.

use vstd::prelude::*;
use vstd::string::StringExecFns;

verus! {

#[verifier::external_type_specification]
#[verifier::external_body]
pub struct ExSerdeError(serde_json::Error);

/// Why a text was not repaired.
#[derive(Debug)]
pub enum JsonRepairError {
    /// What the engine made of the text is no JSON either.
    UnrepairableJson,
    /// An error of `serde_json` itself, as `written` passes it on.
    SerdeError(serde_json::Error),
    /// Objects and arrays nest deeper than the limit.
    NestingLimitExceeded,
}

/// The message of `UnrepairableJson`.
pub open spec fn unrepairable_message() -> Seq<char> {
    "JSON string is too broken to repair"@
}

/// The message of `NestingLimitExceeded`.
pub open spec fn nesting_message() -> Seq<char> {
    "JSON is too deeply nested"@
}

/// What the message of `SerdeError` begins with.
pub open spec fn serde_prefix() -> Seq<char> {
    "Serde JSON error: "@
}

/// The message of `SerdeError` for an error that describes itself as
/// `detail`.
pub fn serde_message(detail: &str) -> (text: String)
    ensures
        text@ == serde_prefix() + detail@,
{
    let mut text = "Serde JSON error: ".to_owned();
    text.append(detail);
    text
}

impl JsonRepairError {
    /// The message of this error. That of `SerdeError` ends with what the
    /// error inside says of itself.
    pub fn message(&self) -> (text: String)
        ensures
            match self {
                JsonRepairError::UnrepairableJson => text@ == unrepairable_message(),
                JsonRepairError::NestingLimitExceeded => text@ == nesting_message(),
                JsonRepairError::SerdeError(_) => serde_prefix().is_prefix_of(text@),
            },
    {
        match self {
            JsonRepairError::UnrepairableJson => "JSON string is too broken to repair".to_owned(),
            JsonRepairError::NestingLimitExceeded => "JSON is too deeply nested".to_owned(),
            JsonRepairError::SerdeError(e) => {
                let detail = e.to_string();
                let text = serde_message(detail.as_str());
                assert(text@.subrange(0, serde_prefix().len() as int) =~= serde_prefix());
                text
            },
        }
    }
}

} // verus!
