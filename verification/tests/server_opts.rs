use homectrl::json::{JsonNumber, JsonValue};
use homectrl::opts::{parse_color, OptMap, OptValue};
use homectrl::server::{
    process_opts_for_response, process_opts_from_request, strip_mode_not_set, strip_not_found,
};

fn opt(value: JsonValue, t: &str) -> OptValue {
    OptValue { value, opt_type: t.to_string() }
}

#[test]
fn colors_go_out_as_hex() {
    let mut m = OptMap::new();
    m.insert("c".to_string(), OptValue::create_color([255, 0, 16]));
    m.insert("n".to_string(), OptValue::create_int(5));
    let out = process_opts_for_response(m);
    assert_eq!(out.get("c").unwrap().value, JsonValue::String("#ff0010".to_string()));
    assert_eq!(out.get("n").unwrap().value, JsonValue::Number(JsonNumber::PosInt(5)));
}

#[test]
fn request_strings_are_read_into_types() {
    let mut m = OptMap::new();
    m.insert("b".to_string(), opt(JsonValue::String("true".to_string()), "bool"));
    m.insert("b2".to_string(), opt(JsonValue::String("yes".to_string()), "bool"));
    m.insert("i".to_string(), opt(JsonValue::String("-42".to_string()), "int"));
    m.insert("i2".to_string(), opt(JsonValue::String("4x".to_string()), "int"));
    m.insert("c".to_string(), opt(JsonValue::String("#0A0b0C".to_string()), "color"));
    m.insert("c2".to_string(), opt(JsonValue::String("red".to_string()), "color"));
    let out = process_opts_from_request(m);
    assert_eq!(out.get("b").unwrap().value, JsonValue::Bool(true));
    assert_eq!(out.get("b2").unwrap().value, JsonValue::Bool(false));
    assert_eq!(out.get("i").unwrap().value, JsonValue::Number(JsonNumber::NegInt(-42)));
    assert_eq!(out.get("i2").unwrap().value, JsonValue::String("4x".to_string()));
    assert_eq!(parse_color(&out.get("c").unwrap().value), Some([10, 11, 12]));
    assert_eq!(out.get("c2").unwrap().value, JsonValue::String("red".to_string()));
}

#[test]
fn color_round_trips_through_response_and_request() {
    let mut m = OptMap::new();
    m.insert("c".to_string(), OptValue::create_color([1, 128, 254]));
    let back = process_opts_from_request(process_opts_for_response(m));
    assert_eq!(back.get("c").unwrap(), &OptValue::create_color([1, 128, 254]));
}

#[test]
fn parse_color_forms() {
    assert_eq!(parse_color(&JsonValue::String("#+f0a0b".to_string())), Some([15, 10, 11]));
    assert_eq!(parse_color(&JsonValue::String("#12345".to_string())), None);
    let arr = JsonValue::Array(vec![
        JsonValue::Number(JsonNumber::PosInt(300)),
        JsonValue::Number(JsonNumber::PosInt(2)),
        JsonValue::Number(JsonNumber::PosInt(3)),
    ]);
    assert_eq!(parse_color(&arr), Some([44, 2, 3]));
    let bad = JsonValue::Array(vec![JsonValue::Number(JsonNumber::NegInt(-1))]);
    assert_eq!(parse_color(&bad), None);
}

#[test]
fn not_found_messages() {
    assert_eq!(strip_not_found(7).error, "strip 7 not found");
    assert!(strip_not_found(7).code.is_none());
    assert_eq!(strip_mode_not_set(12).error, "strip 12 not found or invalid mode");
}
