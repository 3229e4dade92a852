//! Reading the indexing tip that Metashrew reports.
use vstd::prelude::*;
use crate::json::JsonValue;
use crate::text::{parse_u64, spec_parse_u64, trim, trim_str, U64ParseError};

verus! {

/// Why a `metashrew_height` result is not a height.
#[derive(Debug, Clone, Copy, PartialEq, Eq, Structural)]
pub enum MetashrewError {
    /// The result is a number that is not an unsigned 64-bit integer.
    NonU64Number,
    /// The result is a string that is not an unsigned 64-bit integer.
    InvalidHeight(U64ParseError),
    /// The result is neither a number nor a string.
    UnsupportedType,
}

/// The JSON-RPC method that reports the indexing tip.
pub fn tip_height_method() -> (r: String)
    ensures
        r@ == "metashrew_height"@,
{
    crate::text::to_owned_string("metashrew_height")
}

/// The (empty) parameters of a `metashrew_height` call.
pub fn tip_height_params() -> (r: JsonValue)
    ensures
        r matches JsonValue::Array(items) && items@.len() == 0,
{
    JsonValue::Array(Vec::new())
}

/// What a `metashrew_height` result gives.
pub open spec fn spec_parse_height_value(value: JsonValue) -> Result<u64, MetashrewError> {
    match value {
        JsonValue::UInt(n) => Ok(n),
        JsonValue::OtherNumber => Err(MetashrewError::NonU64Number),
        JsonValue::Str(raw) => match spec_parse_u64(trim(raw@)) {
            Ok(n) => Ok(n),
            Err(e) => Err(MetashrewError::InvalidHeight(e)),
        },
        _ => Err(MetashrewError::UnsupportedType),
    }
}

/// The height a `metashrew_height` result reports, as a number or as a
/// decimal string (surrounding whitespace allowed).
pub fn parse_height_value(value: &JsonValue) -> (r: Result<u64, MetashrewError>)
    ensures
        r == spec_parse_height_value(*value),
{
    match value {
        JsonValue::UInt(n) => Ok(*n),
        JsonValue::OtherNumber => Err(MetashrewError::NonU64Number),
        JsonValue::Str(raw) => match parse_u64(trim_str(raw.as_str())) {
            Ok(n) => Ok(n),
            Err(e) => Err(MetashrewError::InvalidHeight(e)),
        },
        _ => Err(MetashrewError::UnsupportedType),
    }
}

} // verus!
