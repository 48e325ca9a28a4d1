//! Conversions into `Value` from the native Rust types, written out as the
//! plain `Value::from` calls.

use watson::value::Value;

#[test]
fn test_watson_int() {
    assert_eq!(Value::from(0_i8), Value::Int(0));
    assert_eq!(Value::from(127_i8), Value::Int(127));
    assert_eq!(Value::from(-32_i8), Value::Int(-32));

    assert_eq!(Value::from(0_i16), Value::Int(0));
    assert_eq!(Value::from(123_i16), Value::Int(123));
    assert_eq!(Value::from(-12345_i16), Value::Int(-12345));

    assert_eq!(Value::from(0_i32), Value::Int(0));
    assert_eq!(Value::from(123_i32), Value::Int(123));
    assert_eq!(Value::from(-12345_i32), Value::Int(-12345));

    assert_eq!(Value::from(0_i64), Value::Int(0));
    assert_eq!(Value::from(123_i64), Value::Int(123));
    assert_eq!(Value::from(-12345_i64), Value::Int(-12345));

    assert_eq!(Value::from(0_i128), Value::Int(0));
    assert_eq!(Value::from(123_i128), Value::Int(123));
    assert_eq!(Value::from(-12345_i128), Value::Int(-12345));

    assert_eq!(Value::from(0_isize), Value::Int(0));
    assert_eq!(Value::from(123_isize), Value::Int(123));
    assert_eq!(Value::from(-12345_isize), Value::Int(-12345));
}

#[test]
fn test_watson_uint() {
    assert_eq!(Value::from(0_u8), Value::Uint(0));
    assert_eq!(Value::from(255_u8), Value::Uint(255));

    assert_eq!(Value::from(0_u16), Value::Uint(0));
    assert_eq!(Value::from(255_u16), Value::Uint(255));
    assert_eq!(Value::from(12345_u16), Value::Uint(12345));

    assert_eq!(Value::from(0_u32), Value::Uint(0));
    assert_eq!(Value::from(255_u32), Value::Uint(255));
    assert_eq!(Value::from(12345_u32), Value::Uint(12345));

    assert_eq!(Value::from(0_u64), Value::Uint(0));
    assert_eq!(Value::from(255_u64), Value::Uint(255));
    assert_eq!(Value::from(12345_u64), Value::Uint(12345));

    assert_eq!(Value::from(0_u128), Value::Uint(0));
    assert_eq!(Value::from(255_u128), Value::Uint(255));
    assert_eq!(Value::from(12345_u128), Value::Uint(12345));

    assert_eq!(Value::from(0_usize), Value::Uint(0));
    assert_eq!(Value::from(255_usize), Value::Uint(255));
    assert_eq!(Value::from(12345_usize), Value::Uint(12345));
}

#[test]
fn test_watson_float() {
    // Floats are carried as their IEEE-754 pattern; a 32-bit float first
    // widens to 64 bits, keeping its value exactly.
    assert_eq!(
        Value::Float((0.0_f32 as f64).to_bits()),
        Value::Float(0.0_f64.to_bits())
    );
    assert_eq!(
        Value::Float((1.25_f32 as f64).to_bits()),
        Value::Float(1.25_f64.to_bits())
    );
    assert_eq!(
        Value::Float((-1.25_f32 as f64).to_bits()),
        Value::Float((-1.25_f64).to_bits())
    );

    assert_eq!(
        Value::Float(0.0_f64.to_bits()),
        Value::Float(0.0_f64.to_bits())
    );
    assert_eq!(
        Value::Float(1.23e45_f64.to_bits()),
        Value::Float(1.23e45_f64.to_bits())
    );
    assert_ne!(
        Value::Float((-1.98e-76_f64).to_bits()),
        Value::Float(1.98e-76_f64.to_bits())
    );
}

#[test]
fn test_watson_bool() {
    assert_eq!(Value::from(true), Value::Bool(true));
    assert_eq!(Value::from(false), Value::Bool(false));
}

#[test]
fn test_watson_string_conversions() {
    assert_eq!(
        Value::from(b"hello".to_vec()),
        Value::String(b"hello".to_vec())
    );
    assert_eq!(Value::from(()), Value::Nil);
    assert_eq!(
        Value::from(vec![Value::Int(1)]),
        Value::Array(vec![Value::Int(1)])
    );
}
