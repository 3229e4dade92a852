//! The `get_btc_price_at_height` JSON-RPC method: reading its parameters,
//! and the response for each outcome of the price lookup.
use vstd::prelude::*;
use crate::json::{object_get, object_get_exec, JsonValue};
use crate::text::{
    decimal_digits, lemma_decimal_digits_not_word, lemma_parse_decimal_digits, U64ParseError,
    append_str, eq_ignore_ascii_case, eq_ignore_ascii_case_spec, parse_u64, spec_parse_u64,
    str_equal, to_owned_string,
};
use crate::types::{PricePoint, PriceResponse};

verus! {

/// Which height a request asks for.
#[derive(Debug, Clone, Copy, PartialEq, Eq, Structural)]
pub enum HeightParam {
    Exact(u64),
    Latest,
}

/// The text that a label's unsigned-integer complaint ends with.
pub open spec fn msg_unsigned() -> Seq<char> {
    " must be an unsigned integer"@
}

/// The text that a label's integer-or-latest complaint ends with.
pub open spec fn msg_unsigned_or_latest() -> Seq<char> {
    " must be an unsigned integer or \"latest\""@
}

/// The complaint about parameters of the wrong shape.
pub open spec fn msg_bad_params() -> Seq<char> {
    "params must be omitted, empty, \"latest\", or include an unsigned integer height"@
}

/// What one height value gives: `null` and any casing of `latest` ask for
/// the latest height; an unsigned integer, or a decimal string of one, for
/// that height.
pub open spec fn spec_parse_height_value(value: JsonValue, label: Seq<char>) -> Result<
    HeightParam,
    Seq<char>,
> {
    match value {
        JsonValue::Null => Ok(HeightParam::Latest),
        JsonValue::UInt(n) => Ok(HeightParam::Exact(n)),
        JsonValue::OtherNumber => Err(label + msg_unsigned()),
        JsonValue::Str(raw) => if eq_ignore_ascii_case_spec(raw@, "latest"@) {
            Ok(HeightParam::Latest)
        } else {
            match spec_parse_u64(raw@) {
                Ok(n) => Ok(HeightParam::Exact(n)),
                Err(_) => Err(label + msg_unsigned_or_latest()),
            }
        },
        _ => Err(label + msg_unsigned_or_latest()),
    }
}

/// What the parameters of a call give: omitted (`null`), `{}`, `[]` or
/// `"latest"` ask for the latest height; a height may stand under `height`
/// in an object, alone in an array, or as the parameters themselves.
pub open spec fn spec_parse_height_param(params: JsonValue) -> Result<HeightParam, Seq<char>> {
    match params {
        JsonValue::Null => Ok(HeightParam::Latest),
        JsonValue::Object(entries) => match object_get(entries@, "height"@) {
            Some(v) => spec_parse_height_value(v, "params.height"@),
            None => Ok(HeightParam::Latest),
        },
        JsonValue::Array(items) => if items@.len() == 0 {
            Ok(HeightParam::Latest)
        } else if items@.len() == 1 {
            spec_parse_height_value(items@[0], "params[0]"@)
        } else {
            Err(msg_bad_params())
        },
        JsonValue::UInt(_) => spec_parse_height_value(params, "params"@),
        JsonValue::OtherNumber => spec_parse_height_value(params, "params"@),
        JsonValue::Str(_) => spec_parse_height_value(params, "params"@),
        JsonValue::Bool(_) => Err(msg_bad_params()),
    }
}

/// The view of a parse result with a `String` complaint.
pub open spec fn param_result_view(r: Result<HeightParam, String>) -> Result<HeightParam, Seq<char>> {
    match r {
        Ok(h) => Ok(h),
        Err(s) => Err(s@),
    }
}

/// `label` followed by `suffix`.
fn labelled(label: &str, suffix: &str) -> (r: String)
    ensures
        r@ == label@ + suffix@,
{
    let mut s = to_owned_string(label);
    append_str(&mut s, suffix);
    s
}

/// Reads one height value; `label` names where it stood, for the complaint.
pub fn parse_height_value(value: &JsonValue, label: &str) -> (r: Result<HeightParam, String>)
    ensures
        param_result_view(r) == spec_parse_height_value(*value, label@),
{
    match value {
        JsonValue::Null => Ok(HeightParam::Latest),
        JsonValue::UInt(n) => Ok(HeightParam::Exact(*n)),
        JsonValue::OtherNumber => Err(labelled(label, " must be an unsigned integer")),
        JsonValue::Str(raw) => {
            if eq_ignore_ascii_case(raw.as_str(), "latest") {
                Ok(HeightParam::Latest)
            } else {
                match parse_u64(raw.as_str()) {
                    Ok(n) => Ok(HeightParam::Exact(n)),
                    Err(_) => Err(
                        labelled(label, " must be an unsigned integer or \"latest\""),
                    ),
                }
            }
        },
        _ => Err(labelled(label, " must be an unsigned integer or \"latest\"")),
    }
}

/// Reads which height the parameters of a call ask for.
pub fn parse_height_param(params: &JsonValue) -> (r: Result<HeightParam, String>)
    ensures
        param_result_view(r) == spec_parse_height_param(*params),
{
    match params {
        JsonValue::Null => Ok(HeightParam::Latest),
        JsonValue::Object(entries) => {
            let key = to_owned_string("height");
            match object_get_exec(entries, &key) {
                Some(v) => parse_height_value(v, "params.height"),
                None => Ok(HeightParam::Latest),
            }
        },
        JsonValue::Array(items) => {
            if items.len() == 0 {
                Ok(HeightParam::Latest)
            } else if items.len() == 1 {
                parse_height_value(&items[0], "params[0]")
            } else {
                Err(
                    to_owned_string(
                        "params must be omitted, empty, \"latest\", or include an unsigned integer height",
                    ),
                )
            }
        },
        JsonValue::UInt(_) => parse_height_value(params, "params"),
        JsonValue::OtherNumber => parse_height_value(params, "params"),
        JsonValue::Str(_) => parse_height_value(params, "params"),
        JsonValue::Bool(_) => Err(
            to_owned_string(
                "params must be omitted, empty, \"latest\", or include an unsigned integer height",
            ),
        ),
    }
}

/// The `result` of a call for a stored price point.
pub fn to_price_response(point: PricePoint) -> (r: PriceResponse)
    ensures
        r == (PriceResponse {
            height: point.height,
            price_scaled: point.price_scaled,
            price_raw: point.price_raw,
        }),
{
    PriceResponse { height: point.height, price_scaled: point.price_scaled, price_raw: point.price_raw }
}

/// The `error` member of a response.
#[derive(Debug)]
pub struct JsonRpcError {
    pub code: i64,
    pub message: String,
}

/// A JSON-RPC 2.0 response, without the request's `id`, which is echoed
/// back unchanged by whoever sends the response.
#[derive(Debug)]
pub struct JsonRpcResponse {
    /// Always `2.0`.
    pub jsonrpc: String,
    pub result: Option<PriceResponse>,
    pub error: Option<JsonRpcError>,
}

/// A response that carries `result`.
pub fn success_response(result: PriceResponse) -> (r: JsonRpcResponse)
    ensures
        r.jsonrpc@ == "2.0"@,
        r.result == Some(result),
        r.error is None,
{
    JsonRpcResponse { jsonrpc: to_owned_string("2.0"), result: Some(result), error: None }
}

/// A response that carries an error with `code` and `message`.
pub fn error_response(code: i64, message: &str) -> (r: JsonRpcResponse)
    ensures
        r.jsonrpc@ == "2.0"@,
        r.result is None,
        r.error matches Some(e) && e.code == code && e.message@ == message@,
{
    JsonRpcResponse {
        jsonrpc: to_owned_string("2.0"),
        result: None,
        error: Some(JsonRpcError { code, message: to_owned_string(message) }),
    }
}

/// What a request needs next: a price lookup, or nothing but its reply.
#[derive(Debug)]
pub enum RpcStep {
    /// Look up the price of `height`, then answer with `get_btc_price_at_height`.
    Lookup { height: HeightParam },
    /// Send this response.
    Reply(JsonRpcResponse),
}

/// Routes a request: `get_btc_price_at_height` with readable parameters
/// leads to a lookup; unreadable parameters are answered with -32602, any
/// other method with -32601 and a missing method with -32600.
pub fn handle_rpc(method: Option<&str>, params: &JsonValue) -> (r: RpcStep)
    ensures
        match method {
            None => r matches RpcStep::Reply(resp) && resp.error matches Some(e) && e.code
                == -32600 && e.message@ == "missing method"@ && resp.result is None
                && resp.jsonrpc@ == "2.0"@,
            Some(m) => if m@ == "get_btc_price_at_height"@ {
                match spec_parse_height_param(*params) {
                    Ok(h) => r == (RpcStep::Lookup { height: h }),
                    Err(msg) => r matches RpcStep::Reply(resp) && resp.error matches Some(e)
                        && e.code == -32602 && e.message@ == msg
                        && resp.result is None && resp.jsonrpc@ == "2.0"@,
                }
            } else {
                r matches RpcStep::Reply(resp) && resp.error matches Some(e) && e.code == -32601
                    && e.message@ == "method not found"@ && resp.result is None
                    && resp.jsonrpc@ == "2.0"@
            },
        },
{
    match method {
        None => RpcStep::Reply(error_response(-32600, "missing method")),
        Some(m) => {
            if str_equal(m, "get_btc_price_at_height") {
                match parse_height_param(params) {
                    Ok(h) => RpcStep::Lookup { height: h },
                    Err(msg) => RpcStep::Reply(error_response(-32602, msg.as_str())),
                }
            } else {
                RpcStep::Reply(error_response(-32601, "method not found"))
            }
        },
    }
}

/// The response to a price lookup: the price where one is stored; -32004
/// where the height is not indexed (or nothing is, for the latest); -32000
/// with the read failure otherwise.
pub fn get_btc_price_at_height(
    height: HeightParam,
    point: Result<Option<PricePoint>, String>,
) -> (r: JsonRpcResponse)
    ensures
        r.jsonrpc@ == "2.0"@,
        match point {
            Ok(Some(p)) => r.error is None && r.result == Some(
                PriceResponse {
                    height: p.height,
                    price_scaled: p.price_scaled,
                    price_raw: p.price_raw,
                },
            ),
            Ok(None) => r.result is None && (r.error matches Some(e) && e.code == -32004
                && e.message@ == (match height {
                HeightParam::Exact(_) => "height has not been indexed"@,
                HeightParam::Latest => "no indexed prices are available yet"@,
            })),
            Err(err) => r.result is None && (r.error matches Some(e) && e.code == -32000
                && e.message@ == "failed to read price: "@ + err@),
        },
{
    match point {
        Ok(Some(p)) => success_response(to_price_response(p)),
        Ok(None) => {
            let message = match height {
                HeightParam::Exact(_) => "height has not been indexed",
                HeightParam::Latest => "no indexed prices are available yet",
            };
            error_response(-32004, message)
        },
        Err(err) => {
            let message = labelled("failed to read price: ", err.as_str());
            error_response(-32000, message.as_str())
        },
    }
}

/// Omitted parameters, `{}`, `[]` and `"latest"` (in any casing, alone, in
/// an array or under `height`) all ask for the latest height.
pub proof fn lemma_latest_forms(
    entries: Vec<(String, JsonValue)>,
    items: Vec<JsonValue>,
    raw: String,
)
    requires
        entries@.len() == 0,
        items@.len() == 0,
        eq_ignore_ascii_case_spec(raw@, "latest"@),
    ensures
        spec_parse_height_param(JsonValue::Null) == Ok::<HeightParam, Seq<char>>(
            HeightParam::Latest,
        ),
        spec_parse_height_param(JsonValue::Object(entries)) == Ok::<HeightParam, Seq<char>>(
            HeightParam::Latest,
        ),
        spec_parse_height_param(JsonValue::Array(items)) == Ok::<HeightParam, Seq<char>>(
            HeightParam::Latest,
        ),
        spec_parse_height_param(JsonValue::Str(raw)) == Ok::<HeightParam, Seq<char>>(
            HeightParam::Latest,
        ),
{
}


/// Whether two parse results ask for the same height, or both refuse.
pub open spec fn same_height(a: Result<HeightParam, Seq<char>>, b: Result<HeightParam, Seq<char>>) -> bool {
    match (a, b) {
        (Ok(x), Ok(y)) => x == y,
        (Err(_), Err(_)) => true,
        _ => false,
    }
}

/// A text that is no casing of `latest` and reads as the number `n` asks
/// for height `n`, whether it stands bare, alone in an array, or under
/// `height` in an object.
pub proof fn lemma_height_text(
    text: String,
    n: u64,
    items: Vec<JsonValue>,
    entries: Vec<(String, JsonValue)>,
)
    requires
        !eq_ignore_ascii_case_spec(text@, "latest"@),
        spec_parse_u64(text@) == Ok::<u64, U64ParseError>(n),
        items@ == seq![JsonValue::Str(text)],
        entries@.len() > 0,
        entries@[0].0@ == "height"@,
        entries@[0].1 == JsonValue::Str(text),
    ensures
        spec_parse_height_param(JsonValue::Str(text)) == Ok::<HeightParam, Seq<char>>(
            HeightParam::Exact(n),
        ),
        spec_parse_height_param(JsonValue::Array(items)) == Ok::<HeightParam, Seq<char>>(
            HeightParam::Exact(n),
        ),
        spec_parse_height_param(JsonValue::Object(entries)) == Ok::<HeightParam, Seq<char>>(
            HeightParam::Exact(n),
        ),
{
}

/// An unsigned integer asks for that height, whether it stands bare, alone
/// in an array, or under `height` in an object.
pub proof fn lemma_height_number(
    n: u64,
    items: Vec<JsonValue>,
    entries: Vec<(String, JsonValue)>,
)
    requires
        items@ == seq![JsonValue::UInt(n)],
        entries@.len() > 0,
        entries@[0].0@ == "height"@,
        entries@[0].1 == JsonValue::UInt(n),
    ensures
        spec_parse_height_param(JsonValue::UInt(n)) == Ok::<HeightParam, Seq<char>>(
            HeightParam::Exact(n),
        ),
        spec_parse_height_param(JsonValue::Array(items)) == Ok::<HeightParam, Seq<char>>(
            HeightParam::Exact(n),
        ),
        spec_parse_height_param(JsonValue::Object(entries)) == Ok::<HeightParam, Seq<char>>(
            HeightParam::Exact(n),
        ),
{
}

/// The decimal text of a height asks for that height, bare, alone in an
/// array, or under `height` in an object.
pub proof fn lemma_height_decimal_text(
    n: u64,
    text: String,
    items: Vec<JsonValue>,
    entries: Vec<(String, JsonValue)>,
)
    requires
        text@ == decimal_digits(n as nat),
        items@ == seq![JsonValue::Str(text)],
        entries@.len() > 0,
        entries@[0].0@ == "height"@,
        entries@[0].1 == JsonValue::Str(text),
    ensures
        spec_parse_height_param(JsonValue::Str(text)) == Ok::<HeightParam, Seq<char>>(
            HeightParam::Exact(n),
        ),
        spec_parse_height_param(JsonValue::Array(items)) == Ok::<HeightParam, Seq<char>>(
            HeightParam::Exact(n),
        ),
        spec_parse_height_param(JsonValue::Object(entries)) == Ok::<HeightParam, Seq<char>>(
            HeightParam::Exact(n),
        ),
{
    reveal_strlit("latest");
    lemma_parse_decimal_digits(n);
    lemma_decimal_digits_not_word(n as nat, "latest"@);
    lemma_height_text(text, n, items, entries);
}

/// A height value alone in an array asks for the same height as it does on
/// its own, and is refused where it is refused on its own.
pub proof fn lemma_single_item_array(v: JsonValue, items: Vec<JsonValue>)
    requires
        items@ == seq![v],
        v matches JsonValue::Null || v matches JsonValue::UInt(_) || v matches JsonValue::OtherNumber
            || v matches JsonValue::Str(_),
    ensures
        same_height(spec_parse_height_param(JsonValue::Array(items)), spec_parse_height_param(v)),
{
}

} // verus!
