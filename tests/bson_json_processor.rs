use bson_json::{bson_to_simple_json, BsonValue, Double, ProcessError};

fn binary_double(v: f64) -> BsonValue {
    let decimal = serde_json::Number::from_f64(v).map(|n| n.to_string()).unwrap_or_default();
    BsonValue::Double(Double { bits: v.to_bits(), decimal })
}

#[test]
fn it_encodes_positive_double_nan() {
    let bson = binary_double(f64::NAN);
    let json_str = bson_to_simple_json(&bson);
    assert_eq!(json_str, Ok(String::from("\"NaN\"")));
}

#[test]
fn it_encodes_negative_double_nan() {
    let bson = binary_double(-f64::NAN);
    let json_str = bson_to_simple_json(&bson);
    assert_eq!(json_str, Ok(String::from("\"-NaN\"")));
}

#[test]
fn it_encodes_positive_double_infinity() {
    let bson = binary_double(f64::INFINITY);
    let json_str = bson_to_simple_json(&bson);
    assert_eq!(json_str, Ok(String::from("\"Infinity\"")));
}

#[test]
fn it_encodes_negative_double_infinity() {
    let bson = binary_double(-f64::INFINITY);
    let json_str = bson_to_simple_json(&bson);
    assert_eq!(json_str, Ok(String::from("\"-Infinity\"")));
}

#[test]
fn it_encodes_double() {
    let bson = binary_double(3.4);
    let json_str = bson_to_simple_json(&bson);
    assert_eq!(json_str, Ok(String::from("3.4")));
}

#[test]
fn it_encodes_string() {
    let bson = BsonValue::String(String::from("foo"));
    let json_str = bson_to_simple_json(&bson);
    assert_eq!(json_str, Ok(String::from("\"foo\"")));
}

#[test]
fn it_encodes_array() {
    let bson = BsonValue::Array(vec![
        BsonValue::Int32(1),
        BsonValue::Int32(2),
        BsonValue::String(String::from("bar")),
    ]);
    let json_str = bson_to_simple_json(&bson);
    assert_eq!(json_str, Ok(String::from("[1,2,\"bar\"]")));
}

#[test]
fn it_encodes_document() {
    let bson = BsonValue::Document(vec![
        (String::from("a"), BsonValue::Int32(2)),
        (String::from("b"), BsonValue::Int32(3)),
    ]);
    let json_str = bson_to_simple_json(&bson);
    assert_eq!(json_str, Ok(String::from("{\"a\":2,\"b\":3}")));
}

#[test]
fn it_encodes_boolean() {
    let bson = BsonValue::Boolean(true);
    let json_str = bson_to_simple_json(&bson);
    assert_eq!(json_str, Ok(String::from("true")));
}

#[test]
fn it_encodes_null() {
    let bson = BsonValue::Null;
    let json_str = bson_to_simple_json(&bson);
    assert_eq!(json_str, Ok(String::from("null")));
}

#[test]
fn it_encodes_int32() {
    let bson = BsonValue::Int32(3);
    let json_str = bson_to_simple_json(&bson);
    assert_eq!(json_str, Ok(String::from("3")));
}

#[test]
fn it_encodes_int64() {
    let bson = BsonValue::Int64(3313232321321321312);
    let json_str = bson_to_simple_json(&bson);
    assert_eq!(json_str, Ok(String::from("3313232321321321312")));
}

#[test]
fn it_returns_error_otherwise() {
    let bson = BsonValue::DateTime(1667457796000);
    let json_str = bson_to_simple_json(&bson);
    assert_eq!(json_str, Err(ProcessError::FromBsonConvertError));
}
