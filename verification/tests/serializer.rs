use watson::language::{Insn, Location, Token};
use watson::serializer::Serializer;
use watson::value::Value;
use watson::vm::VM;

fn to_insn_vec(value: Value) -> Vec<Insn> {
    Serializer::new(value).serialize()
}

fn assert_identical(value: Value) {
    let mut vm = VM::new();
    for insn in to_insn_vec(value.clone()) {
        vm.execute(Token {
            insn,
            location: Location::unknown(),
        })
        .expect("execution error");
    }
    let result = vm.peek_top().expect("stack is empty");
    assert_eq!(&value, result);
}

#[test]
fn serializer_int() {
    assert_eq!(to_insn_vec(Value::Int(0)), vec![Insn::Inew]);
    assert_eq!(
        to_insn_vec(Value::Int(1)),
        vec![Insn::Inew, Insn::Inew, Insn::Iinc, Insn::Iadd]
    );
    assert_eq!(
        to_insn_vec(Value::Int(2)),
        vec![Insn::Inew, Insn::Inew, Insn::Iinc, Insn::Ishl, Insn::Iadd]
    );
    assert_eq!(
        to_insn_vec(Value::Int(3)),
        vec![
            Insn::Inew,
            Insn::Inew,
            Insn::Iinc,
            Insn::Iadd,
            Insn::Inew,
            Insn::Iinc,
            Insn::Ishl,
            Insn::Iadd,
        ]
    );
    assert_eq!(
        to_insn_vec(Value::Int(0b1010101)),
        vec![
            Insn::Inew, // 0b0
            Insn::Inew,
            Insn::Iinc,
            Insn::Iadd, // 0b1
            Insn::Inew,
            Insn::Iinc,
            Insn::Ishl,
            Insn::Ishl,
            Insn::Iadd, // 0b101
            Insn::Inew,
            Insn::Iinc,
            Insn::Ishl,
            Insn::Ishl,
            Insn::Ishl,
            Insn::Ishl,
            Insn::Iadd, // 0b10101
            Insn::Inew,
            Insn::Iinc,
            Insn::Ishl,
            Insn::Ishl,
            Insn::Ishl,
            Insn::Ishl,
            Insn::Ishl,
            Insn::Ishl,
            Insn::Iadd, // 0b1010101
        ]
    );
    assert_identical(Value::Int(1234567890));
    assert_identical(Value::Int(-1234567890));
}

#[test]
fn serializer_uint() {
    assert_identical(Value::Uint(0));
    assert_identical(Value::Uint(1));
    assert_identical(Value::Uint(5));
    assert_identical(Value::Uint(0xffff_ffff_ffff_ffff));
}

#[test]
fn serializer_float() {
    assert_eq!(
        to_insn_vec(Value::Float(f64::NAN.to_bits())),
        vec![Insn::Fnan]
    );
    assert_eq!(
        to_insn_vec(Value::Float(f64::INFINITY.to_bits())),
        vec![Insn::Finf]
    );
    assert_eq!(
        to_insn_vec(Value::Float(f64::NEG_INFINITY.to_bits())),
        vec![Insn::Finf, Insn::Fneg]
    );

    assert_identical(Value::Float(0.0_f64.to_bits()));
    assert_identical(Value::Float(1.0_f64.to_bits()));
    assert_identical(Value::Float(123.45e-67_f64.to_bits()));
    assert_identical(Value::Float(8.9102e34_f64.to_bits()));
    assert_identical(Value::Float((-0.0_f64).to_bits()));
}

#[test]
fn serializer_string() {
    assert_identical(Value::String(Vec::new()));
    assert_identical(Value::String(b"a".to_vec()));
    assert_identical(Value::String(b"ab".to_vec()));
    assert_identical(Value::String(
        b"qawsedrftgyhujikolp;zasxdcfvgbhnjmk,l.;qaswderftgyhujikolp;".to_vec(),
    ));
}

#[test]
fn serializer_object() {
    assert_identical(Value::Object(Vec::new()));
    assert_identical(Value::Object(vec![(b"key".to_vec(), Value::Int(123))]));
    assert_identical(Value::Object(vec![
        (b"key".to_vec(), Value::Int(123)),
        (
            b"another_key".to_vec(),
            Value::Float(1.23_f64.to_bits()),
        ),
    ]));
    assert_identical(Value::Object(vec![
        (b"key".to_vec(), Value::Int(123)),
        (
            b"another_key".to_vec(),
            Value::Float(1.23_f64.to_bits()),
        ),
        (
            b"nested_object".to_vec(),
            Value::Object(vec![(
                b"nested_key".to_vec(),
                Value::String(b"value".to_vec()),
            )]),
        ),
    ]));
}

#[test]
fn serializer_array() {
    assert_identical(Value::Array(Vec::new()));
    assert_identical(Value::Array(vec![Value::Int(1)]));
    assert_identical(Value::Array(vec![
        Value::Int(1),
        Value::String(b"2".to_vec()),
    ]));
    assert_identical(Value::Array(vec![
        Value::Int(1),
        Value::String(b"2".to_vec()),
        Value::Array(vec![Value::Uint(3), Value::String(b"nested".to_vec())]),
    ]));
}

#[test]
fn serializer_bool() {
    assert_identical(Value::Bool(false));
    assert_identical(Value::Bool(true));
    assert_eq!(to_insn_vec(Value::Bool(false)), vec![Insn::Bnew]);
    assert_eq!(
        to_insn_vec(Value::Bool(true)),
        vec![Insn::Bnew, Insn::Bneg]
    );
}

#[test]
fn serializer_nil() {
    assert_identical(Value::Nil);
    assert_eq!(to_insn_vec(Value::Nil), vec![Insn::Nnew]);
}

#[test]
fn serializer_object_container_layout() {
    // `{"key": 123}` becomes: open the object, build the key as a string
    // byte by byte, build the value, then insert.
    let mut expected = vec![Insn::Onew, Insn::Snew];
    for b in b"key" {
        expected.extend(to_insn_vec(Value::Int(*b as i64)));
        expected.push(Insn::Sadd);
    }
    expected.extend(to_insn_vec(Value::Int(123)));
    expected.push(Insn::Oadd);
    assert_eq!(
        to_insn_vec(Value::Object(vec![(b"key".to_vec(), Value::Int(123))])),
        expected
    );
}

#[test]
fn serializer_can_be_paused_and_resumed() {
    // The generator hands out one instruction per call and ends with
    // `None`; collecting them equals the whole stream.
    let value = Value::Array(vec![Value::Int(5), Value::Bool(true)]);
    let whole = to_insn_vec(value.clone());
    let mut generator = Serializer::new(value);
    let mut collected = Vec::new();
    while let Some(insn) = generator.next_insn() {
        collected.push(insn);
    }
    assert_eq!(collected, whole);
    assert_eq!(generator.next_insn(), None);
}
