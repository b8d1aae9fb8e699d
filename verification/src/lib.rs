//! Repair of malformed JSON-like text, such as the output of large language
//! models, into well-formed JSON.
//!
//! The engine reads the text once, from left to right, and writes a JSON
//! document for it: it supplies missing quotes, commas, colons and closing
//! brackets, drops comments, trailing commas, Markdown fences and leading
//! prose, and reads `None` and `undefined` as `null`. What it writes is
//! given by the functions of `document`, `scalars` and `grammar`, which the
//! methods of `JsonRepairParser` are proved to compute; `laws` holds what
//! follows for every input.
//!
//! `repair_json` puts the strict parser of `serde_json` before and after
//! the engine, unless the options leave it out.

pub mod chars;
pub mod context;
pub mod document;
pub mod error;
pub mod grammar;
pub mod laws;
pub mod options;
pub mod parse_document;
pub mod parse_scalars;
pub mod parser;
pub mod preamble;
pub mod repair;
pub mod scalars;
pub mod text;

pub use crate::context::ContextValues;
pub use crate::context::JsonContext;
pub use crate::error::JsonRepairError;
pub use crate::options::RepairOptions;
pub use crate::parser::JsonRepairParser;
pub use crate::repair::loads;
pub use crate::repair::repair_json;
pub use crate::repair::repair_text;
