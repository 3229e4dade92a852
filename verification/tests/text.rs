use espopricer::jsonrpc::{new_request, settle_envelope, JsonRpcCallError, JsonRpcErrorBody};
use espopricer::json::JsonValue;
use espopricer::text::{decimal_string, eq_ignore_ascii_case, parse_u64, trim_str, U64ParseError};

#[test]
fn decimal_text_round_trip() {
    for n in [0u64, 9, 10, 850000, u64::MAX] {
        let s = decimal_string(n as u128);
        assert_eq!(s, n.to_string());
        assert_eq!(parse_u64(&s), Ok(n));
    }
    assert_eq!(parse_u64(""), Err(U64ParseError::Empty));
    assert_eq!(parse_u64("+"), Err(U64ParseError::InvalidDigit));
    assert_eq!(parse_u64("-1"), Err(U64ParseError::InvalidDigit));
    assert_eq!(parse_u64("18446744073709551616"), Err(U64ParseError::PosOverflow));
}

#[test]
fn trimming_and_case() {
    assert_eq!(trim_str("\u{3000} a b\u{a0}\n"), "a b");
    assert!(eq_ignore_ascii_case("LATEST", "latest"));
    assert!(!eq_ignore_ascii_case("latest!", "latest"));
}

#[test]
fn envelopes() {
    let req = new_request(3, "metashrew_height", JsonValue::Array(vec![]));
    assert_eq!((req.jsonrpc.as_str(), req.id, req.method.as_str()), ("2.0", 3, "metashrew_height"));
    assert_eq!(settle_envelope(Some(5u64), None).ok(), Some(5));
    match settle_envelope(Some(5u64), Some(JsonRpcErrorBody { code: -1, message: "m".to_string() })) {
        Err(JsonRpcCallError::Remote { code, message }) => assert_eq!((code, message.as_str()), (-1, "m")),
        _ => panic!("expected the remote error"),
    }
    assert!(matches!(settle_envelope::<u64>(None, None), Err(JsonRpcCallError::MissingResult)));
}
