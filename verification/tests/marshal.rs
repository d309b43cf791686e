use buslink::error::BusError;
use buslink::value::{value_conforms, Value, ValueShape};
use buslink::wire::{decode, encode};

fn str_val(s: &str) -> Value {
    Value::Str(String::from(s))
}

fn round_trips(v: Value, s: ValueShape) {
    assert!(value_conforms(&v, &s));
    let bytes = encode(&v, &s);
    let back = decode(&bytes, &s).expect("decoding an encoding must succeed");
    assert!(back == v);
}

#[test]
fn round_trip_bool() {
    round_trips(Value::Bool(true), ValueShape::Bool);
    round_trips(Value::Bool(false), ValueShape::Bool);
}

#[test]
fn round_trip_int() {
    round_trips(Value::Int(0), ValueShape::Int);
    round_trips(Value::Int(7), ValueShape::Int);
    round_trips(Value::Int(u64::MAX), ValueShape::Int);
}

#[test]
fn round_trip_string() {
    round_trips(str_val(""), ValueShape::Str);
    round_trips(str_val("AA:BB:CC:DD:EE:FF"), ValueShape::Str);
    round_trips(str_val("naïve déjà-vu ☃"), ValueShape::Str);
}

#[test]
fn round_trip_bytes() {
    round_trips(Value::Bytes(vec![]), ValueShape::Bytes);
    round_trips(Value::Bytes(vec![0, 255, 128, 1]), ValueShape::Bytes);
}

#[test]
fn round_trip_list() {
    round_trips(Value::List(vec![]), ValueShape::List(Box::new(ValueShape::Int)));
    round_trips(
        Value::List(vec![Value::Int(1), Value::Int(2), Value::Int(3)]),
        ValueShape::List(Box::new(ValueShape::Int)),
    );
}

#[test]
fn round_trip_optional() {
    let s = ValueShape::Optional(Box::new(ValueShape::Str));
    round_trips(Value::Absent, s);
    let s = ValueShape::Optional(Box::new(ValueShape::Str));
    round_trips(Value::Present(Box::new(str_val("x"))), s);
}

#[test]
fn round_trip_record() {
    let shape = ValueShape::Record(vec![
        (String::from("addr"), ValueShape::Str),
        (String::from("connected"), ValueShape::Bool),
    ]);
    let v = Value::Record(vec![
        (String::from("addr"), str_val("AA:BB:CC:DD:EE:FF")),
        (String::from("connected"), Value::Bool(true)),
    ]);
    round_trips(v, shape);
}

#[test]
fn round_trip_nested() {
    let shape = ValueShape::Record(vec![
        (
            String::from("devices"),
            ValueShape::List(Box::new(ValueShape::Optional(Box::new(ValueShape::Str)))),
        ),
        (String::from("count"), ValueShape::Int),
    ]);
    let v = Value::Record(vec![
        (
            String::from("devices"),
            Value::List(vec![
                Value::Present(Box::new(str_val("a"))),
                Value::Absent,
                Value::Present(Box::new(str_val("b"))),
            ]),
        ),
        (String::from("count"), Value::Int(3)),
    ]);
    round_trips(v, shape);
}

#[test]
fn int_wire_bytes_are_big_endian() {
    let bytes = encode(&Value::Int(0x0102030405060708), &ValueShape::Int);
    assert_eq!(bytes, vec![1, 2, 3, 4, 5, 6, 7, 8]);
}

#[test]
fn bool_and_optional_wire_bytes() {
    assert_eq!(encode(&Value::Bool(true), &ValueShape::Bool), vec![1]);
    assert_eq!(encode(&Value::Bool(false), &ValueShape::Bool), vec![0]);
    let s = ValueShape::Optional(Box::new(ValueShape::Bool));
    assert_eq!(encode(&Value::Absent, &s), vec![0]);
    assert_eq!(encode(&Value::Present(Box::new(Value::Bool(true))), &s), vec![1, 1]);
}

#[test]
fn string_wire_bytes_are_length_prefixed_utf8() {
    let bytes = encode(&str_val("AB"), &ValueShape::Str);
    assert_eq!(bytes, vec![0, 0, 0, 0, 0, 0, 0, 2, 65, 66]);
}

#[test]
fn list_wire_bytes_carry_a_count() {
    let v = Value::List(vec![Value::Bool(true), Value::Bool(false)]);
    let bytes = encode(&v, &ValueShape::List(Box::new(ValueShape::Bool)));
    assert_eq!(bytes, vec![0, 0, 0, 0, 0, 0, 0, 2, 1, 0]);
}

#[test]
fn record_wire_bytes_hold_only_field_values() {
    let shape = ValueShape::Record(vec![
        (String::from("a"), ValueShape::Bool),
        (String::from("b"), ValueShape::Bool),
    ]);
    let v = Value::Record(vec![
        (String::from("a"), Value::Bool(true)),
        (String::from("b"), Value::Bool(false)),
    ]);
    assert_eq!(encode(&v, &shape), vec![1, 0]);
}

#[test]
fn decode_rejects_bad_bool_discriminant() {
    assert!(decode(&vec![2], &ValueShape::Bool) == Err(BusError::ShapeMismatch));
}

#[test]
fn decode_rejects_truncated_int() {
    assert!(decode(&vec![1, 2, 3], &ValueShape::Int) == Err(BusError::ShapeMismatch));
}

#[test]
fn decode_rejects_trailing_bytes() {
    assert!(decode(&vec![1, 9], &ValueShape::Bool) == Err(BusError::ShapeMismatch));
}

#[test]
fn decode_rejects_invalid_utf8() {
    let bytes = vec![0, 0, 0, 0, 0, 0, 0, 1, 0xFF];
    assert!(decode(&bytes, &ValueShape::Str) == Err(BusError::ShapeMismatch));
}

#[test]
fn decode_rejects_short_list() {
    let bytes = vec![0, 0, 0, 0, 0, 0, 0, 1];
    assert!(decode(&bytes, &ValueShape::List(Box::new(ValueShape::Bool))) == Err(BusError::ShapeMismatch));
}

#[test]
fn decode_rejects_wrong_kind() {
    let bytes = encode(&Value::Bool(true), &ValueShape::Bool);
    assert!(decode(&bytes, &ValueShape::Int) == Err(BusError::ShapeMismatch));
}

#[test]
fn conformance_is_structural() {
    assert!(!value_conforms(&Value::Int(3), &ValueShape::Str));
    let rec = ValueShape::Record(vec![(String::from("a"), ValueShape::Bool)]);
    let wrong_name = Value::Record(vec![(String::from("b"), Value::Bool(true))]);
    assert!(!value_conforms(&wrong_name, &rec));
    let wrong_count = Value::Record(vec![]);
    assert!(!value_conforms(&wrong_count, &rec));
}
