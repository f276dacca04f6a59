use cpython_json::errors::JsonError;
use cpython_json::from_json;
use cpython_json::json::{JsonNumber, JsonValue};
use cpython_json::native::Native;
use cpython_json::to_json;

#[test]
fn test_encode_bool_not_number() {
    // Booleans become JSON booleans, never numbers 0/1.
    assert_eq!(to_json(Native::Bool(true)).unwrap(), JsonValue::Bool(true));
    assert_eq!(to_json(Native::Bool(false)).unwrap(), JsonValue::Bool(false));
    assert_ne!(
        to_json(Native::Bool(true)).unwrap(),
        JsonValue::Number(JsonNumber::Unsigned(1))
    );
}

#[test]
fn test_encode_finite_float() {
    let bits = 1.5f64.to_bits();
    assert_eq!(
        to_json(Native::Float(bits)).unwrap(),
        JsonValue::Number(JsonNumber::Float(bits))
    );
}

#[test]
fn test_encode_infinity_fails() {
    // Scenario: a positive-infinity float fails with InvalidFloat.
    let err = to_json(Native::Float(f64::INFINITY.to_bits())).unwrap_err();
    assert_eq!(err, JsonError::InvalidFloat);
    let err = to_json(Native::Float(f64::NAN.to_bits())).unwrap_err();
    assert_eq!(err, JsonError::InvalidFloat);
    let err = to_json(Native::Float(f64::NEG_INFINITY.to_bits())).unwrap_err();
    assert_eq!(err, JsonError::InvalidFloat);
}

#[test]
fn test_encode_int_subkinds() {
    assert_eq!(
        to_json(Native::Int(5)).unwrap(),
        JsonValue::Number(JsonNumber::Unsigned(5))
    );
    assert_eq!(
        to_json(Native::Int(u64::MAX as i128)).unwrap(),
        JsonValue::Number(JsonNumber::Unsigned(u64::MAX))
    );
    assert_eq!(
        to_json(Native::Int(-3)).unwrap(),
        JsonValue::Number(JsonNumber::Signed(-3))
    );
    assert_eq!(
        to_json(Native::Int(i64::MIN as i128)).unwrap(),
        JsonValue::Number(JsonNumber::Signed(i64::MIN))
    );
}

#[test]
fn test_encode_int_out_of_range() {
    // Integers beyond both 64-bit ranges have no JSON representation; the
    // failure carries the type name and the decimal rendering.
    let err = to_json(Native::Int(u64::MAX as i128 + 1)).unwrap_err();
    assert_eq!(
        err,
        JsonError::TypeError("int".to_string(), Ok("18446744073709551616".to_string()))
    );
    let err = to_json(Native::Int(i64::MIN as i128 - 1)).unwrap_err();
    assert_eq!(
        err,
        JsonError::TypeError("int".to_string(), Ok("-9223372036854775809".to_string()))
    );
}

#[test]
fn test_encode_text() {
    assert_eq!(
        to_json(Native::Text("hello".to_string())).unwrap(),
        JsonValue::Text("hello".to_string())
    );
}

#[test]
fn test_encode_null() {
    // Scenario: the null singleton encodes as JSON null and decodes back.
    assert_eq!(to_json(Native::Null).unwrap(), JsonValue::Null);
    assert_eq!(from_json(JsonValue::Null).unwrap(), Native::Null);
}

#[test]
fn test_encode_list_and_tuple() {
    let l = Native::List(vec![Native::Int(1), Native::Bool(false), Native::Null]);
    let expected = JsonValue::Array(vec![
        JsonValue::Number(JsonNumber::Unsigned(1)),
        JsonValue::Bool(false),
        JsonValue::Null,
    ]);
    assert_eq!(to_json(l).unwrap(), expected);
    let t = Native::Tuple(vec![Native::Int(1), Native::Bool(false), Native::Null]);
    assert_eq!(to_json(t).unwrap(), expected);
}

#[test]
fn test_encode_list_propagates_first_failure() {
    let l = Native::List(vec![
        Native::Int(1),
        Native::Float(f64::NAN.to_bits()),
        Native::Other("set".to_string(), Ok("set()".to_string())),
    ]);
    assert_eq!(to_json(l).unwrap_err(), JsonError::InvalidFloat);
}

#[test]
fn test_encode_dict_coerced_keys() {
    // Scenario: {null: 5, true: 6} becomes {"null": 5, "true": 6}.
    let d = Native::Dict(vec![
        (Native::Null, Native::Int(5)),
        (Native::Bool(true), Native::Int(6)),
    ]);
    assert_eq!(
        to_json(d).unwrap(),
        JsonValue::Object(vec![
            ("null".to_string(), JsonValue::Number(JsonNumber::Unsigned(5))),
            ("true".to_string(), JsonValue::Number(JsonNumber::Unsigned(6))),
        ])
    );
}

#[test]
fn test_encode_dict_text_keys() {
    let d = Native::Dict(vec![
        (Native::Text("a".to_string()), Native::Int(1)),
        (Native::Text("b".to_string()), Native::Bool(true)),
    ]);
    assert_eq!(
        to_json(d).unwrap(),
        JsonValue::Object(vec![
            ("a".to_string(), JsonValue::Number(JsonNumber::Unsigned(1))),
            ("b".to_string(), JsonValue::Bool(true)),
        ])
    );
}

#[test]
fn test_encode_dict_colliding_coerced_keys() {
    // Two keys coercing to the same text: the later value replaces the
    // earlier one in place, as the JSON library's map insertion would.
    let d = Native::Dict(vec![
        (Native::Null, Native::Int(5)),
        (Native::Text("null".to_string()), Native::Int(6)),
    ]);
    assert_eq!(
        to_json(d).unwrap(),
        JsonValue::Object(vec![(
            "null".to_string(),
            JsonValue::Number(JsonNumber::Unsigned(6))
        )])
    );
}

#[test]
fn test_encode_dict_integer_key_fails() {
    // Scenario: {1: "x"} fails with DictKeyNotString carrying the key 1.
    let d = Native::Dict(vec![(Native::Int(1), Native::Text("x".to_string()))]);
    assert_eq!(
        to_json(d).unwrap_err(),
        JsonError::DictKeyNotString(Native::Int(1))
    );
}

#[test]
fn test_encode_dict_value_failure_propagates() {
    let d = Native::Dict(vec![(
        Native::Text("k".to_string()),
        Native::Float(f64::INFINITY.to_bits()),
    )]);
    assert_eq!(to_json(d).unwrap_err(), JsonError::InvalidFloat);
}

#[test]
fn test_failure_shape_stable() {
    // Encoding an unsupported value twice yields the same failure kind and
    // the same type name both times.
    let mk = || Native::Other("datetime.datetime".to_string(), Ok("now".to_string()));
    let e1 = to_json(mk()).unwrap_err();
    let e2 = to_json(mk()).unwrap_err();
    match (&e1, &e2) {
        (JsonError::TypeError(n1, _), JsonError::TypeError(n2, _)) => assert_eq!(n1, n2),
        _ => panic!("expected TypeError twice"),
    }
    assert_eq!(e1, e2);
}

#[test]
fn test_decode_array() {
    // Scenario: Array[Number(1), String("a"), Null] decodes to a native list
    // of the integer 1, the text "a", and the null singleton.
    let v = JsonValue::Array(vec![
        JsonValue::Number(JsonNumber::Unsigned(1)),
        JsonValue::Text("a".to_string()),
        JsonValue::Null,
    ]);
    assert_eq!(
        from_json(v).unwrap(),
        Native::List(vec![
            Native::Int(1),
            Native::Text("a".to_string()),
            Native::Null,
        ])
    );
}

#[test]
fn test_decode_scalars() {
    assert_eq!(
        from_json(JsonValue::Number(JsonNumber::Unsigned(7))).unwrap(),
        Native::Int(7)
    );
    assert_eq!(
        from_json(JsonValue::Number(JsonNumber::Signed(-7))).unwrap(),
        Native::Int(-7)
    );
    let bits = 2.5f64.to_bits();
    assert_eq!(
        from_json(JsonValue::Number(JsonNumber::Float(bits))).unwrap(),
        Native::Float(bits)
    );
    assert_eq!(from_json(JsonValue::Bool(true)).unwrap(), Native::Bool(true));
    assert_eq!(
        from_json(JsonValue::Text("s".to_string())).unwrap(),
        Native::Text("s".to_string())
    );
}

#[test]
fn test_decode_object() {
    let v = JsonValue::Object(vec![
        ("a".to_string(), JsonValue::Number(JsonNumber::Unsigned(1))),
        ("b".to_string(), JsonValue::Null),
    ]);
    assert_eq!(
        from_json(v).unwrap(),
        Native::Dict(vec![
            (Native::Text("a".to_string()), Native::Int(1)),
            (Native::Text("b".to_string()), Native::Null),
        ])
    );
}

fn sample_json() -> JsonValue {
    JsonValue::Object(vec![
        (
            "items".to_string(),
            JsonValue::Array(vec![
                JsonValue::Number(JsonNumber::Unsigned(1)),
                JsonValue::Number(JsonNumber::Signed(-2)),
                JsonValue::Number(JsonNumber::Float(0.25f64.to_bits())),
                JsonValue::Text("three".to_string()),
                JsonValue::Bool(false),
                JsonValue::Null,
            ]),
        ),
        ("empty".to_string(), JsonValue::Object(vec![])),
        (
            "nested".to_string(),
            JsonValue::Object(vec![("k".to_string(), JsonValue::Text("v".to_string()))]),
        ),
    ])
}

#[test]
fn test_round_trip() {
    // Decoding a canonical JSON value and encoding the result returns the
    // same value, structurally.
    let decoded = from_json(sample_json()).unwrap();
    assert_eq!(to_json(decoded).unwrap(), sample_json());
}

#[test]
fn test_round_trip_empty_array() {
    let decoded = from_json(JsonValue::Array(vec![])).unwrap();
    assert_eq!(decoded, Native::List(vec![]));
    assert_eq!(to_json(decoded).unwrap(), JsonValue::Array(vec![]));
}

#[test]
fn test_checked_from_json_accepts_well_formed() {
    let v = JsonValue::Object(vec![("a".to_string(), JsonValue::Bool(true))]);
    assert_eq!(
        cpython_json::decode::checked_from_json(v).unwrap(),
        Native::Dict(vec![(Native::Text("a".to_string()), Native::Bool(true))])
    );
}

#[test]
fn test_checked_from_json_rejects_repeated_key() {
    let v = JsonValue::Object(vec![
        ("a".to_string(), JsonValue::Null),
        ("a".to_string(), JsonValue::Bool(false)),
    ]);
    assert_eq!(
        cpython_json::decode::checked_from_json(v).unwrap_err(),
        JsonError::ImpossibleNumber
    );
}

#[test]
fn test_checked_from_json_rejects_non_finite_number() {
    let v = JsonValue::Array(vec![JsonValue::Number(JsonNumber::Float(
        f64::NAN.to_bits(),
    ))]);
    assert_eq!(
        cpython_json::decode::checked_from_json(v).unwrap_err(),
        JsonError::ImpossibleNumber
    );
}
