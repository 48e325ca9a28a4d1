use std::collections::{HashMap, HashSet};
use watson::language::{Insn, Mode};
use watson::value::Value;

fn assert_surjective(mode: Mode) {
    let mut insns: HashSet<Insn> = Insn::all().into_iter().collect();
    for c in b'!'..=b'~' {
        if let Some(insn) = Insn::from_byte(mode, c) {
            insns.remove(&insn);
        }
    }
    for insn in insns {
        panic!(
            "mode={:?}: instruction {:?} does not have matching byte characters",
            mode, insn
        );
    }
}

fn assert_from_byte_injective(mode: Mode) {
    let mut reversed: HashMap<Insn, u8> = HashMap::new();
    for c in b'!'..=b'~' {
        if let Some(insn) = Insn::from_byte(mode, c) {
            match reversed.get(&insn) {
                None => {
                    reversed.insert(insn, c);
                }
                Some(d) => {
                    panic!(
                        "mode={:?}: both {:?} and {:?} are converted into {:?}",
                        mode, c, d, insn
                    );
                }
            }
        }
    }
}

fn assert_into_byte_injective(mode: Mode) {
    let mut reversed: HashMap<u8, Insn> = HashMap::new();
    for i in Insn::all() {
        let c = i.into_byte(mode);
        match reversed.get(&c) {
            None => {
                reversed.insert(c, i);
            }
            Some(j) => {
                panic!(
                    "mode={:?}: both {:?} and {:?} are converted into {:?}",
                    mode, i, j, c
                );
            }
        }
    }
}

#[test]
fn language_insn_from_byte_is_surjective() {
    assert_surjective(Mode::A);
    assert_surjective(Mode::S);
}

#[test]
fn language_insn_from_byte_is_injective() {
    assert_from_byte_injective(Mode::A);
    assert_from_byte_injective(Mode::S);
}

#[test]
fn language_insn_into_byte_is_injective() {
    assert_into_byte_injective(Mode::A);
    assert_into_byte_injective(Mode::S);
}

#[test]
fn mod_insn_from_byte_is_surjective() {
    assert_surjective(Mode::A);
    assert_surjective(Mode::S);
}

#[test]
fn mod_insn_from_byte_is_injective() {
    assert_from_byte_injective(Mode::A);
    assert_from_byte_injective(Mode::S);
}

#[test]
fn mod_insn_into_byte_is_injective() {
    assert_into_byte_injective(Mode::A);
    assert_into_byte_injective(Mode::S);
}

#[test]
fn mode_flip_is_an_involution() {
    assert_eq!(Mode::A.flip(), Mode::S);
    assert_eq!(Mode::S.flip(), Mode::A);
    assert_eq!(Mode::A.flip().flip(), Mode::A);
}

#[test]
fn alphabet_matches_the_wire_contract() {
    let a_table = b"BubaAei'qtp?!~M@szo.E#%";
    let s_table = b"ShakrAzimbu$-+gv?^!y/e:";
    let all = Insn::all();
    assert_eq!(all.len(), 23);
    for (idx, insn) in all.iter().enumerate() {
        assert_eq!(insn.into_byte(Mode::A), a_table[idx]);
        assert_eq!(insn.into_byte(Mode::S), s_table[idx]);
    }
}

#[test]
fn array_macro() {
    assert_eq!(Value::Array(vec![]), Value::Array(Vec::new()));
    assert_eq!(
        Value::Array(vec![Value::Int(123)]),
        Value::Array(vec![Value::Int(123)])
    );
    assert_eq!(
        Value::Array(vec![
            Value::Int(123),
            Value::Bool(false),
            Value::Array(vec![Value::Uint(456)]),
        ]),
        Value::Array(vec![
            Value::Int(123),
            Value::Bool(false),
            Value::Array(vec![Value::Uint(456)]),
        ])
    );
}

#[test]
fn object_macro() {
    assert_eq!(Value::Object(vec![]), Value::Object(Vec::new()));
    assert_eq!(
        Value::Object(vec![(b"x".to_vec(), Value::Int(1))]),
        Value::Object(vec![(b"x".to_vec(), Value::Int(1))])
    );
    assert_eq!(
        Value::Object(vec![(b"y".to_vec(), Value::Int(1))]),
        Value::Object(vec![(b"y".to_vec(), Value::Int(1))])
    );
    assert_eq!(
        Value::Object(vec![
            (b"x".to_vec(), Value::Int(1)),
            (b"y".to_vec(), Value::Bool(true)),
            (
                "ぬ".to_string().into_bytes(),
                Value::Object(vec![(b"nested".to_vec(), Value::Nil)]),
            ),
        ]),
        Value::Object(vec![
            (b"x".to_vec(), Value::Int(1)),
            (b"y".to_vec(), Value::Bool(true)),
            (
                "ぬ".to_string().into_bytes(),
                Value::Object(vec![(b"nested".to_vec(), Value::Nil)]),
            ),
        ])
    );
    assert_ne!(
        Value::Object(vec![(b"x".to_vec(), Value::Int(1))]),
        Value::Object(vec![(b"x".to_vec(), Value::Int(2))])
    );
}
