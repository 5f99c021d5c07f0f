//! A zero-copy JSON parser.
//!
//! The parser walks the input buffer once, left to right, and builds a
//! [`json_value::JsonValue`] tree bottom-up by recursive descent.  String
//! values that contain no escape sequence are returned as borrowed views into
//! the input buffer; strings with escapes are decoded into owned buffers.
//! Numbers keep their exact source text, so the host decides how to convert
//! them.
//!
//! The behaviour of [`parse_json`] is specified completely by the spec-level
//! parser in [`grammar`]: for every input, the contract pins down the value
//! tree on success and the error kind and position on failure.  The
//! properties that hold of every input — determinism, zero-copy strings,
//! escape decoding, last-write-wins object keys, rejection of double commas —
//! are proved in [`laws`].

use vstd::prelude::*;

pub mod grammar;
pub mod json_value;
pub mod laws;
pub mod parse_error;
pub mod parser;

pub use crate::json_value::JsonValue;
pub use crate::parse_error::{ParseError, ParseResult};
pub use crate::parser::JsonParser;

verus! {

/// Parse one JSON value from the start of `input`.
///
/// On success the returned tree's model is exactly what the grammar derives
/// from the input; on failure the error carries the kind and the 1-indexed
/// line and column of the first offending byte.  Input after the parsed
/// value is not validated.
pub fn parse_json<'a>(input: &'a [u8]) -> (r: ParseResult<JsonValue<'a>>)
    requires
        input@.len() < usize::MAX,
    ensures
        match crate::grammar::spec_parse(input@) {
            Ok((m, _)) => r matches Ok(v) && v.model() == m,
            Err(e) => r matches Err(pe) && pe.matches(input@, e),
        },
{
    let mut parser = JsonParser::new(input);
    parser.parse()
}

} // verus!
