//! The Bitcoin Core calls that read a block's header time.
use vstd::prelude::*;
use crate::json::JsonValue;

verus! {

/// The parameters of `getblockhash` for a height: `[height]`.
pub fn getblockhash_params(height: u64) -> (r: JsonValue)
    ensures
        r matches JsonValue::Array(items) && items@.len() == 1 && items@[0] == JsonValue::UInt(
            height,
        ),
{
    let mut items: Vec<JsonValue> = Vec::new();
    items.push(JsonValue::UInt(height));
    JsonValue::Array(items)
}

/// The parameters of `getblockheader` for a block hash, verbose: `[hash, true]`.
pub fn getblockheader_params(hash: String) -> (r: JsonValue)
    ensures
        r matches JsonValue::Array(items) && items@.len() == 2 && items@[0] == JsonValue::Str(hash)
            && items@[1] == JsonValue::Bool(true),
{
    let mut items: Vec<JsonValue> = Vec::new();
    items.push(JsonValue::Str(hash));
    items.push(JsonValue::Bool(true));
    JsonValue::Array(items)
}

} // verus!
