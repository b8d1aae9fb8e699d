//! The options of a repair.

use vstd::prelude::*;

verus! {

/// How a text is repaired.
#[derive(Debug, Clone, Copy)]
pub struct RepairOptions {
    /// Leave out the strict parse before and after the repair.
    pub skip_json_loads: bool,
    /// Deliver a value tree in place of text.
    pub return_objects: bool,
    /// Escape every scalar of string content that is not ASCII.
    pub ensure_ascii: bool,
    /// Reserved for the repair of streamed input.
    pub stream_stable: bool,
}

impl Default for RepairOptions {
    fn default() -> (options: Self)
        ensures
            !options.skip_json_loads,
            !options.return_objects,
            options.ensure_ascii,
            !options.stream_stable,
    {
        RepairOptions {
            skip_json_loads: false,
            return_objects: false,
            ensure_ascii: true,
            stream_stable: false,
        }
    }
}

} // verus!
