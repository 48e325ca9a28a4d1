use watson::codec::{decode, encode};
use watson::error::ErrorKind;
use watson::language::Mode;
use watson::value::Value;
use watson::{lexer, unlexer};

fn default_encode(v: Value) -> Vec<u8> {
    encode(v, unlexer::Config::default())
}

fn default_decode(bytes: Vec<u8>) -> Result<Value, watson::Error> {
    decode(bytes, lexer::Config::default())
}

fn assert_round_trips(v: Value) {
    let bytes = default_encode(v.clone());
    let back = default_decode(bytes).expect("decoding failed");
    assert_eq!(back, v);
}

#[test]
fn parse_watson() {
    assert_eq!("B".parse::<Value>().unwrap(), Value::Int(0));
    assert_eq!("BBubba".parse::<Value>().unwrap(), Value::Int(4));
    assert_eq!("?SShaaarrk".parse::<Value>().unwrap(), Value::Int(8));
}

#[test]
fn round_trip_of_a_nested_value() {
    assert_round_trips(Value::Object(vec![
        (b"id".to_vec(), Value::Uint(0xabcd_1234)),
        (b"from".to_vec(), Value::String(b"Motoaki Tanigo".to_vec())),
        (
            b"items".to_vec(),
            Value::Array(vec![
                Value::Int(-42),
                Value::Bool(true),
                Value::Nil,
                Value::Float(123.45_f64.to_bits()),
                Value::Object(vec![(b"deep".to_vec(), Value::Array(vec![]))]),
            ]),
        ),
    ]));
}

#[test]
fn round_trip_of_integer_extremes() {
    assert_round_trips(Value::Int(0));
    assert_round_trips(Value::Int(1));
    assert_round_trips(Value::Int(-1));
    assert_round_trips(Value::Int(i64::MAX));
    assert_round_trips(Value::Int(i64::MIN));
    assert_round_trips(Value::Uint(0));
    assert_round_trips(Value::Uint(0xffff_ffff_ffff_ffff));
}

#[test]
fn round_trip_of_floats() {
    assert_round_trips(Value::Float(0.0_f64.to_bits()));
    assert_round_trips(Value::Float((-0.0_f64).to_bits()));
    assert_round_trips(Value::Float(f64::INFINITY.to_bits()));
    assert_round_trips(Value::Float(f64::NEG_INFINITY.to_bits()));
    assert_round_trips(Value::Float(6.02214076e23_f64.to_bits()));

    // Every NaN decodes back as a NaN (the canonical one).
    let bytes = default_encode(Value::Float(f64::NAN.to_bits()));
    match default_decode(bytes).unwrap() {
        Value::Float(b) => assert!(f64::from_bits(b).is_nan()),
        other => panic!("not a float: {:?}", other),
    }
}

#[test]
fn round_trip_is_independent_of_wrap_width() {
    let v = Value::Array(vec![
        Value::String(b"a fairly long string to force many wraps".to_vec()),
        Value::Int(123456789),
    ]);
    for width in [0usize, 1, 2, 5, 80] {
        let conf = unlexer::Config {
            initial_mode: Mode::A,
            chars_per_line: width,
        };
        let bytes = encode(v.clone(), conf);
        if width > 0 {
            assert!(bytes
                .chunks(width + 1)
                .all(|chunk| chunk.len() <= width || chunk[width] == b'\n'));
        }
        let back = default_decode(bytes).expect("decoding failed");
        assert_eq!(back, v);
    }
}

#[test]
fn round_trip_mirrors_a_non_default_mode() {
    let v = Value::String(b"mode mirror".to_vec());
    let bytes = encode(
        v.clone(),
        unlexer::Config {
            initial_mode: Mode::S,
            chars_per_line: 80,
        },
    );
    let back = decode(
        bytes,
        lexer::Config {
            initial_mode: Mode::S,
            file_path: None,
        },
    )
    .expect("decoding failed");
    assert_eq!(back, v);
}

#[test]
fn decoding_tolerates_filler() {
    let clean = default_decode(b"BBubba".to_vec()).unwrap();
    let noisy = default_decode(b"B \tBub\n ba 0123 4567 --".to_vec());
    assert_eq!(noisy.unwrap(), clean);
    assert_eq!(clean, Value::Int(4));
}

#[test]
fn decoding_an_empty_input_reports_empty_stack() {
    let err = default_decode(Vec::new()).unwrap_err();
    assert_eq!(err.kind, ErrorKind::EmptyStack);
    assert_eq!(err.location.byte, 0);
    assert_eq!(err.location.path, None);
    assert_eq!(err.location.line, 0);
    assert_eq!(err.location.column, 0);
}

#[test]
fn parsing_reports_errors_like_decoding() {
    // An empty string leaves the stack empty: `EmptyStack` at the
    // unknown location.
    let err = "".parse::<Value>().unwrap_err();
    assert_eq!(err.kind, ErrorKind::EmptyStack);
    assert_eq!(err.location.line, 0);
    assert_eq!(err.location.column, 0);
    assert_eq!(err.location.path, None);

    // `a` is `Iadd` under mode A on an empty stack: the execution error
    // passes through with the failing token's location.
    let err = "a".parse::<Value>().unwrap_err();
    assert_eq!(err.kind, ErrorKind::EmptyStack);
    assert_eq!(err.location.byte, b'a');
    assert_eq!(err.location.line, 1);
    assert_eq!(err.location.column, 1);
    assert_eq!(err.location.path, None);
}

#[test]
fn decoding_errors_carry_the_configured_path() {
    let err = decode(
        b"a".to_vec(),
        lexer::Config {
            initial_mode: Mode::A,
            file_path: Some("data.watson".to_string()),
        },
    )
    .unwrap_err();
    assert_eq!(err.kind, ErrorKind::EmptyStack);
    assert_eq!(err.location.path, Some("data.watson".to_string()));
    assert_eq!(err.location.column, 1);
}

#[test]
fn decoding_reports_execution_errors_at_their_location() {
    // `a` is `Iadd` under mode A; the stack is empty, so execution fails
    // at line 1, column 1.
    let err = default_decode(b"a".to_vec()).unwrap_err();
    assert_eq!(err.kind, ErrorKind::EmptyStack);
    assert_eq!(err.location.line, 1);
    assert_eq!(err.location.column, 1);
    assert_eq!(err.location.byte, b'a');

    // `B?!` pushes an integer, then an empty string, then asks `Sadd` to
    // pop an integer first: the string is on top instead.
    let err = default_decode(b"B?!".to_vec()).unwrap_err();
    assert_eq!(err.kind, ErrorKind::TypeMismatch);
    assert_eq!(err.location.column, 3);
}

#[test]
fn encoding_wraps_to_the_default_width() {
    let v = Value::String(b"some string long enough to cross eighty emitted characters in the default configuration".to_vec());
    let bytes = default_encode(v);
    let first_line = bytes.split(|b| *b == b'\n').next().unwrap();
    assert_eq!(first_line.len(), 80);
}

#[test]
fn encoded_bytes_decode_under_a_fresh_lexer_even_after_snew_flips() {
    // A string forces `Snew`, so the alphabet flips mid-stream; the lexer
    // mirrors the unlexer's mode trajectory exactly.
    let v = Value::Array(vec![
        Value::String(b"flip".to_vec()),
        Value::String(b"flop".to_vec()),
        Value::Int(7),
    ]);
    assert_round_trips(v);
}
