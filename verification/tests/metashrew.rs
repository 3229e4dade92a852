use espopricer::json::JsonValue;
use espopricer::metashrew::{parse_height_value, MetashrewError};
use espopricer::text::U64ParseError;

#[test]
fn parses_metashrew_height_as_string_or_number() {
    assert_eq!(parse_height_value(&JsonValue::Str("850000".to_string())).unwrap(), 850000);
    assert_eq!(parse_height_value(&JsonValue::UInt(850000)).unwrap(), 850000);
}

#[test]
fn metashrew_height_trims_and_refuses() {
    assert_eq!(parse_height_value(&JsonValue::Str(" 12 \n".to_string())), Ok(12));
    assert_eq!(parse_height_value(&JsonValue::Str("+7".to_string())), Ok(7));
    assert_eq!(
        parse_height_value(&JsonValue::Str("12a".to_string())),
        Err(MetashrewError::InvalidHeight(U64ParseError::InvalidDigit))
    );
    assert_eq!(
        parse_height_value(&JsonValue::Str("  ".to_string())),
        Err(MetashrewError::InvalidHeight(U64ParseError::Empty))
    );
    assert_eq!(
        parse_height_value(&JsonValue::Str("18446744073709551616".to_string())),
        Err(MetashrewError::InvalidHeight(U64ParseError::PosOverflow))
    );
    assert_eq!(parse_height_value(&JsonValue::OtherNumber), Err(MetashrewError::NonU64Number));
    assert_eq!(parse_height_value(&JsonValue::Null), Err(MetashrewError::UnsupportedType));
}
