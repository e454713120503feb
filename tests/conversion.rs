use bson_json::{
    bson_into_simple_json, bson_to_simple_json, bytes_or_error, json_into_bson, BsonValue, Double,
    Json, JsonNumber, ProcessError,
};

fn float_of(v: f64) -> BsonValue {
    let decimal = serde_json::Number::from_f64(v).map(|n| n.to_string()).unwrap_or_default();
    BsonValue::Double(Double { bits: v.to_bits(), decimal })
}

fn from_outside(b: &bson::Bson) -> BsonValue {
    match b {
        bson::Bson::Double(v) => float_of(*v),
        bson::Bson::String(s) => BsonValue::String(s.clone()),
        bson::Bson::Array(a) => BsonValue::Array(a.iter().map(from_outside).collect()),
        bson::Bson::Document(d) => {
            BsonValue::Document(d.iter().map(|(k, v)| (k.clone(), from_outside(v))).collect())
        }
        bson::Bson::Boolean(v) => BsonValue::Boolean(*v),
        bson::Bson::Null => BsonValue::Null,
        bson::Bson::Int32(v) => BsonValue::Int32(*v),
        bson::Bson::Int64(v) => BsonValue::Int64(*v),
        _ => BsonValue::Undefined,
    }
}

fn text_of(b: &BsonValue) -> String {
    bson_to_simple_json(b).unwrap()
}

#[test]
fn finite_floats_stay_numbers() {
    assert_eq!(text_of(&float_of(1.0)), "1.0");
    assert_eq!(text_of(&float_of(-0.5)), "-0.5");
    assert_eq!(text_of(&float_of(0.0)), "0.0");
    assert_eq!(text_of(&float_of(f64::MAX)), "1.7976931348623157e+308");
    assert_eq!(text_of(&float_of(f64::MIN_POSITIVE)), "2.2250738585072014e-308");
}

#[test]
fn nan_payload_does_not_matter_only_its_sign_bit() {
    let quiet = f64::from_bits(0x7ff8_0000_0000_0001);
    let signalling = f64::from_bits(0x7ff0_0000_0000_0001);
    let negative = f64::from_bits(0xfff0_0000_0000_0001);
    assert_eq!(text_of(&float_of(quiet)), "\"NaN\"");
    assert_eq!(text_of(&float_of(signalling)), "\"NaN\"");
    assert_eq!(text_of(&float_of(negative)), "\"-NaN\"");
}

#[test]
fn infinities_inside_containers() {
    let b = BsonValue::Array(vec![float_of(f64::INFINITY), float_of(f64::NEG_INFINITY)]);
    assert_eq!(text_of(&b), "[\"Infinity\",\"-Infinity\"]");
}

#[test]
fn order_and_keys_are_kept() {
    let b = BsonValue::Document(vec![
        (String::from("z"), BsonValue::Int32(1)),
        (String::from("a"), BsonValue::Array(vec![BsonValue::Int32(3), BsonValue::Int32(2)])),
        (String::from("m"), BsonValue::Null),
    ]);
    assert_eq!(text_of(&b), "{\"z\":1,\"a\":[3,2],\"m\":null}");
}

#[test]
fn decoded_tree_matches_input_shape() {
    let b = BsonValue::Document(vec![
        (String::from("k"), BsonValue::Int64(-7)),
        (String::from("s"), BsonValue::String(String::from("v"))),
    ]);
    let expected = Json::Object(vec![
        (String::from("k"), Json::Number(JsonNumber::Int(-7))),
        (String::from("s"), Json::String(String::from("v"))),
    ]);
    assert_eq!(bson_into_simple_json(&b), Ok(expected));
}

#[test]
fn empty_containers() {
    assert_eq!(text_of(&BsonValue::Array(vec![])), "[]");
    assert_eq!(text_of(&BsonValue::Document(vec![])), "{}");
}

#[test]
fn integers_at_their_limits() {
    assert_eq!(text_of(&BsonValue::Int32(i32::MIN)), "-2147483648");
    assert_eq!(text_of(&BsonValue::Int32(0)), "0");
    assert_eq!(text_of(&BsonValue::Int64(i64::MIN)), "-9223372036854775808");
    assert_eq!(text_of(&BsonValue::Int64(i64::MAX)), "9223372036854775807");
}

#[test]
fn strings_and_keys_are_escaped() {
    let b = BsonValue::Document(vec![(
        String::from("q\"k"),
        BsonValue::String(String::from("line\nbreak \\ tab\t")),
    )]);
    assert_eq!(text_of(&b), "{\"q\\\"k\":\"line\\nbreak \\\\ tab\\t\"}");
}

#[test]
fn binary_only_values_fail_at_any_depth() {
    let only = vec![
        BsonValue::DateTime(0),
        BsonValue::Binary(vec![1, 2]),
        BsonValue::ObjectId(vec![0; 12]),
        BsonValue::RegularExpression(String::from("a+"), String::from("i")),
        BsonValue::Timestamp(1, 2),
        BsonValue::Symbol(String::from("s")),
        BsonValue::MaxKey,
    ];
    for v in only {
        let deep = BsonValue::Document(vec![
            (String::from("ok"), BsonValue::Int32(1)),
            (
                String::from("inner"),
                BsonValue::Array(vec![BsonValue::Null, BsonValue::Array(vec![v])]),
            ),
        ]);
        assert_eq!(bson_to_simple_json(&deep), Err(ProcessError::FromBsonConvertError));
    }
}

#[test]
fn decoding_twice_gives_the_same_text() {
    let make = || {
        BsonValue::Array(vec![float_of(2.5), BsonValue::String(String::from("x")), float_of(f64::NAN)])
    };
    assert_eq!(bson_to_simple_json(&make()), bson_to_simple_json(&make()));
    assert_eq!(text_of(&make()), "[2.5,\"x\",\"NaN\"]");
}

#[test]
fn encoded_object_decodes_back() {
    let mut map = serde_json::Map::new();
    map.insert(String::from("x"), serde_json::Value::from(1));
    let bytes = json_into_bson(&serde_json::Value::Object(map)).unwrap();
    let doc = bson::Document::from_reader(&bytes[..]).unwrap();
    let back = from_outside(&bson::Bson::Document(doc));
    assert_eq!(text_of(&back), "{\"x\":1}");
}

#[test]
fn encoding_a_bare_number_fails() {
    let r = json_into_bson(&serde_json::Value::from(5));
    assert_eq!(r, Err(ProcessError::FromJsonConvertError));
}

#[test]
fn write_outcome_is_reported() {
    assert_eq!(bytes_or_error(Ok(vec![5, 0, 0, 0, 0])), Ok(vec![5, 0, 0, 0, 0]));
    let failed = bytes_or_error(Err(bson::ser::Error::UnsignedIntegerExceededRange(1)));
    assert_eq!(failed, Err(ProcessError::FromJsonConvertError));
}
