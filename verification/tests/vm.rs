use watson::error::{Error, ErrorKind};
use watson::language::{Insn, Location, Token};
use watson::value::Value;
use watson::vm::{Stack, VM};

fn new_token(insn: Insn) -> Token {
    Token {
        insn,
        location: Location::unknown(),
    }
}

fn assert_error_kind_is(res: Result<(), Error>, kind: ErrorKind) {
    assert_eq!(res.unwrap_err().kind, kind);
}

#[test]
fn stack_push_and_pop() {
    let mut stack = Stack::new();
    assert!(stack.pop().is_none());

    let mut stack = Stack::new();
    stack.push(Value::Int(1));
    stack.push(Value::Int(2));
    stack.push(Value::Int(3));
    assert_eq!(stack.pop(), Some(Value::Int(3)));
    assert_eq!(stack.pop(), Some(Value::Int(2)));
    assert_eq!(stack.pop(), Some(Value::Int(1)));
    assert!(stack.pop().is_none());
}

#[test]
fn vm_execute_inew() {
    let mut vm = VM::new();

    assert_eq!(vm.peek_top(), None);
    vm.execute(new_token(Insn::Inew)).unwrap();
    assert_eq!(vm.peek_top(), Some(&Value::Int(0)));
}

#[test]
fn vm_execute_iinc() {
    let mut vm = VM::new();

    vm.stack.push(Value::Int(123));
    vm.execute(new_token(Insn::Iinc)).unwrap();
    assert_eq!(vm.peek_top(), Some(&Value::Int(124)));
}

#[test]
fn vm_execute_ishl() {
    let mut vm = VM::new();

    vm.stack.push(Value::Int(3));
    vm.execute(new_token(Insn::Ishl)).unwrap();
    assert_eq!(vm.peek_top(), Some(&Value::Int(6)));
}

#[test]
fn vm_execute_iadd() {
    let mut vm = VM::new();

    vm.stack.push(Value::Int(3));
    vm.stack.push(Value::Int(4));
    vm.execute(new_token(Insn::Iadd)).unwrap();
    assert_eq!(vm.peek_top(), Some(&Value::Int(7)));
}

#[test]
fn vm_execute_ineg() {
    let mut vm = VM::new();

    vm.stack.push(Value::Int(3));
    vm.execute(new_token(Insn::Ineg)).unwrap();
    assert_eq!(vm.peek_top(), Some(&Value::Int(-3)));
}

#[test]
fn vm_execute_isht() {
    let mut vm = VM::new();

    vm.stack.push(Value::Int(3));
    vm.stack.push(Value::Int(2));
    vm.execute(new_token(Insn::Isht)).unwrap();
    assert_eq!(vm.peek_top(), Some(&Value::Int(12)));
}

#[test]
fn vm_execute_itof() {
    let mut vm = VM::new();
    let f: f64 = 1.234e-56;

    vm.stack.push(Value::Int(f.to_bits() as i64));
    vm.execute(new_token(Insn::Itof)).unwrap();
    assert_eq!(vm.peek_top(), Some(&Value::Float(f.to_bits())));
}

#[test]
fn vm_execute_itou() {
    let mut vm = VM::new();

    vm.stack.push(Value::Int(-1));
    vm.execute(new_token(Insn::Itou)).unwrap();
    assert_eq!(vm.peek_top(), Some(&Value::Uint(0xffff_ffff_ffff_ffff)));
}

#[test]
fn vm_execute_finf() {
    let mut vm = VM::new();

    vm.execute(new_token(Insn::Finf)).unwrap();
    match vm.peek_top() {
        Some(Value::Float(b)) => {
            let f = f64::from_bits(*b);
            assert!(f.is_infinite());
            assert!(f.is_sign_positive());
        }
        top => panic!("not a float: {:?}", top),
    }
}

#[test]
fn vm_execute_fnan() {
    let mut vm = VM::new();

    vm.execute(new_token(Insn::Fnan)).unwrap();
    match vm.peek_top() {
        Some(Value::Float(b)) => {
            assert!(f64::from_bits(*b).is_nan());
        }
        top => panic!("not a float: {:?}", top),
    }
}

#[test]
fn vm_execute_fneg() {
    let mut vm = VM::new();

    vm.stack.push(Value::Float(1.23_f64.to_bits()));
    vm.execute(new_token(Insn::Fneg)).unwrap();
    assert_eq!(vm.peek_top(), Some(&Value::Float((-1.23_f64).to_bits())));
}

#[test]
fn vm_execute_snew() {
    let mut vm = VM::new();

    vm.execute(new_token(Insn::Snew)).unwrap();
    assert_eq!(vm.peek_top(), Some(&Value::String(Vec::new())));
}

#[test]
fn vm_execute_sadd() {
    let mut vm = VM::new();

    vm.execute(new_token(Insn::Snew)).unwrap();
    assert_eq!(vm.peek_top(), Some(&Value::String(Vec::new())));

    vm.stack.push(Value::Int(b'a' as i64));
    vm.execute(new_token(Insn::Sadd)).unwrap();
    assert_eq!(vm.peek_top(), Some(&Value::String(b"a".to_vec())));

    vm.stack.push(Value::Int(b'b' as i64));
    vm.execute(new_token(Insn::Sadd)).unwrap();
    assert_eq!(vm.peek_top(), Some(&Value::String(b"ab".to_vec())));
}

#[test]
fn vm_execute_onew() {
    let mut vm = VM::new();

    vm.execute(new_token(Insn::Onew)).unwrap();
    assert_eq!(vm.peek_top(), Some(&Value::Object(Vec::new())));
}

#[test]
fn vm_execute_oadd() {
    let mut vm = VM::new();

    vm.execute(new_token(Insn::Onew)).unwrap();
    assert_eq!(vm.peek_top(), Some(&Value::Object(Vec::new())));

    vm.stack.push(Value::String(b"key1".to_vec()));
    vm.stack.push(Value::String(b"value1".to_vec()));
    vm.execute(new_token(Insn::Oadd)).unwrap();
    assert_eq!(
        vm.peek_top(),
        Some(&Value::Object(vec![(
            b"key1".to_vec(),
            Value::String(b"value1".to_vec())
        )]))
    );

    vm.stack.push(Value::String(b"key2".to_vec()));
    vm.stack.push(Value::Int(22222));
    vm.execute(new_token(Insn::Oadd)).unwrap();
    assert_eq!(
        vm.peek_top(),
        Some(&Value::Object(vec![
            (b"key1".to_vec(), Value::String(b"value1".to_vec())),
            (b"key2".to_vec(), Value::Int(22222)),
        ]))
    );
}

#[test]
fn vm_execute_oadd_overwrites_an_existing_key() {
    let mut vm = VM::new();

    vm.execute(new_token(Insn::Onew)).unwrap();
    vm.stack.push(Value::String(b"key".to_vec()));
    vm.stack.push(Value::Int(1));
    vm.execute(new_token(Insn::Oadd)).unwrap();
    vm.stack.push(Value::String(b"key".to_vec()));
    vm.stack.push(Value::Int(2));
    vm.execute(new_token(Insn::Oadd)).unwrap();
    assert_eq!(
        vm.peek_top(),
        Some(&Value::Object(vec![(b"key".to_vec(), Value::Int(2))]))
    );
}

#[test]
fn vm_execute_anew() {
    let mut vm = VM::new();

    vm.execute(new_token(Insn::Anew)).unwrap();
    assert_eq!(vm.peek_top(), Some(&Value::Array(Vec::new())));
}

#[test]
fn vm_execute_aadd() {
    let mut vm = VM::new();

    vm.execute(new_token(Insn::Anew)).unwrap();
    assert_eq!(vm.peek_top(), Some(&Value::Array(Vec::new())));

    vm.stack.push(Value::Int(123));
    vm.execute(new_token(Insn::Aadd)).unwrap();
    assert_eq!(vm.peek_top(), Some(&Value::Array(vec![Value::Int(123)])));

    vm.stack.push(Value::String(b"hello".to_vec()));
    vm.execute(new_token(Insn::Aadd)).unwrap();
    assert_eq!(
        vm.peek_top(),
        Some(&Value::Array(vec![
            Value::Int(123),
            Value::String(b"hello".to_vec())
        ]))
    );
}

#[test]
fn vm_execute_bnew() {
    let mut vm = VM::new();

    vm.execute(new_token(Insn::Bnew)).unwrap();
    assert_eq!(vm.peek_top(), Some(&Value::Bool(false)));
}

#[test]
fn vm_execute_bneg() {
    let mut vm = VM::new();

    vm.execute(new_token(Insn::Bnew)).unwrap();
    assert_eq!(vm.peek_top(), Some(&Value::Bool(false)));

    vm.execute(new_token(Insn::Bneg)).unwrap();
    assert_eq!(vm.peek_top(), Some(&Value::Bool(true)));

    vm.execute(new_token(Insn::Bneg)).unwrap();
    assert_eq!(vm.peek_top(), Some(&Value::Bool(false)));
}

#[test]
fn vm_execute_nnew() {
    let mut vm = VM::new();

    vm.execute(new_token(Insn::Nnew)).unwrap();
    assert_eq!(vm.peek_top(), Some(&Value::Nil));
}

#[test]
fn vm_execute_gdup() {
    let mut vm = VM::new();

    vm.stack.push(Value::Int(123));
    vm.execute(new_token(Insn::Gdup)).unwrap();

    assert_eq!(vm.stack.pop(), Some(Value::Int(123)));
    assert_eq!(vm.stack.pop(), Some(Value::Int(123)));
    assert!(vm.stack.pop().is_none());
}

#[test]
fn vm_execute_gpop() {
    let mut vm = VM::new();

    vm.stack.push(Value::Int(111));
    vm.stack.push(Value::Uint(222));
    vm.execute(new_token(Insn::Gpop)).unwrap();

    assert_eq!(vm.stack.pop(), Some(Value::Int(111)));
    assert!(vm.stack.pop().is_none());
}

#[test]
fn vm_execute_gswp() {
    let mut vm = VM::new();

    vm.stack.push(Value::Int(111));
    vm.stack.push(Value::Uint(222));
    vm.execute(new_token(Insn::Gswp)).unwrap();

    assert_eq!(vm.stack.pop(), Some(Value::Int(111)));
    assert_eq!(vm.stack.pop(), Some(Value::Uint(222)));
    assert!(vm.stack.pop().is_none());
}

#[test]
fn iadd_on_a_short_stack_reports_empty_stack() {
    let mut vm = VM::new();
    assert_error_kind_is(vm.execute(new_token(Insn::Iadd)), ErrorKind::EmptyStack);

    let mut vm = VM::new();
    vm.stack.push(Value::Int(5));
    assert_error_kind_is(vm.execute(new_token(Insn::Iadd)), ErrorKind::EmptyStack);
}

#[test]
fn iadd_on_a_non_integer_reports_type_mismatch() {
    let mut vm = VM::new();
    vm.stack.push(Value::Int(5));
    vm.stack.push(Value::Nil);
    assert_error_kind_is(vm.execute(new_token(Insn::Iadd)), ErrorKind::TypeMismatch);

    let mut vm = VM::new();
    vm.stack.push(Value::Nil);
    vm.stack.push(Value::Int(5));
    assert_error_kind_is(vm.execute(new_token(Insn::Iadd)), ErrorKind::TypeMismatch);
}

#[test]
fn errors_carry_the_token_location() {
    let mut vm = VM::new();
    let token = Token {
        insn: Insn::Iadd,
        location: Location {
            byte: b'a',
            path: Some("data.watson".to_string()),
            line: 3,
            column: 14,
        },
    };
    let err = vm.execute(token).unwrap_err();
    assert_eq!(err.kind, ErrorKind::EmptyStack);
    assert_eq!(*err.kind(), ErrorKind::EmptyStack);
    assert_eq!(err.location().line, 3);
    assert_eq!(err.location().column, 14);
    assert_eq!(err.location.byte, b'a');
    assert_eq!(err.location.path, Some("data.watson".to_string()));
}

#[test]
fn from_io_error_reports_io_error() {
    let e = Error::from_io_error(Location::unknown());
    assert_eq!(e.kind, ErrorKind::IOError);
    assert_eq!(e.location.line, 0);
}

#[test]
fn vm_execute_isht_masks_the_shift_amount() {
    // Shifting a 64-bit value uses only the low six bits of the amount,
    // as Rust's shift of a 64-bit integer does.
    let mut vm = VM::new();
    vm.stack.push(Value::Int(3));
    vm.stack.push(Value::Int(66));
    vm.execute(new_token(Insn::Isht)).unwrap();
    assert_eq!(vm.peek_top(), Some(&Value::Int(12)));
}

#[test]
fn vm_integer_arithmetic_wraps_around() {
    let mut vm = VM::new();
    vm.stack.push(Value::Int(i64::MAX));
    vm.execute(new_token(Insn::Iinc)).unwrap();
    assert_eq!(vm.peek_top(), Some(&Value::Int(i64::MIN)));
}
