//! JSON-RPC 2.0 client calls: the request, and what a response envelope gives.
use vstd::prelude::*;
use crate::json::JsonValue;
use crate::text::to_owned_string;

verus! {

/// A JSON-RPC 2.0 request.
#[derive(Debug)]
pub struct JsonRpcRequest {
    /// Always `2.0`.
    pub jsonrpc: String,
    pub id: u64,
    pub method: String,
    pub params: JsonValue,
}

/// The request that calls `method` with `params` under `id`.
pub fn new_request(id: u64, method: &str, params: JsonValue) -> (r: JsonRpcRequest)
    ensures
        r.jsonrpc@ == "2.0"@,
        r.id == id,
        r.method@ == method@,
        r.params == params,
{
    JsonRpcRequest { jsonrpc: to_owned_string("2.0"), id, method: to_owned_string(method), params }
}

/// The `error` member of a JSON-RPC response.
#[derive(Debug)]
pub struct JsonRpcErrorBody {
    pub code: i64,
    pub message: String,
}

/// Why a JSON-RPC call gave no result.
#[derive(Debug)]
pub enum JsonRpcCallError {
    /// The response carries an error.
    Remote { code: i64, message: String },
    /// The response carries neither a result nor an error.
    MissingResult,
}

/// What a response envelope gives: its error where it has one, else its result.
pub fn settle_envelope<T>(result: Option<T>, error: Option<JsonRpcErrorBody>) -> (r: Result<
    T,
    JsonRpcCallError,
>)
    ensures
        error matches Some(e) ==> (r matches Err(JsonRpcCallError::Remote { code, message })
            && code == e.code && message == e.message),
        error is None && result is None ==> r matches Err(JsonRpcCallError::MissingResult),
        error is None ==> (result matches Some(v) ==> r == Ok::<T, JsonRpcCallError>(v)),
{
    match error {
        Some(e) => Err(JsonRpcCallError::Remote { code: e.code, message: e.message }),
        None => match result {
            Some(v) => Ok(v),
            None => Err(JsonRpcCallError::MissingResult),
        },
    }
}

} // verus!
