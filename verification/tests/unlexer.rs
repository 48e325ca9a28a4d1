use watson::language::{Insn, Mode};
use watson::unlexer::{Config, Unlexer};

#[test]
fn unlexer_new_initial_mode_defaults_to_a() {
    let mut unlexer = Unlexer::new();
    unlexer.write(Insn::Inew);
    assert_eq!(unlexer.take_bytes(), b"B".to_vec());
}

#[test]
fn unlexer_new_initlal_mode_is_configurable() {
    let conf = Config {
        initial_mode: Mode::S,
        chars_per_line: 80,
    };
    let mut unlexer = conf.new();
    unlexer.write(Insn::Inew);
    assert_eq!(unlexer.take_bytes(), b"S".to_vec());
}

#[test]
fn unlexer_changes_its_mode() {
    let mut unlexer = Unlexer::new();
    for insn in vec![Insn::Inew, Insn::Snew, Insn::Inew, Insn::Snew, Insn::Inew] {
        unlexer.write(insn);
    }
    assert_eq!(unlexer.take_bytes(), b"B?S$B".to_vec());
}

#[test]
fn unlexer_emits_newline() {
    let conf = Config {
        initial_mode: Mode::A,
        chars_per_line: 5,
    };
    let mut unlexer = conf.build();

    for insn in vec![
        Insn::Inew,
        Insn::Iinc,
        Insn::Ishl,
        Insn::Ishl,
        Insn::Iadd,
        Insn::Snew,
        Insn::Inew,
        Insn::Iinc,
        Insn::Ishl,
        Insn::Ishl,
        Insn::Iadd,
        Insn::Snew,
        Insn::Inew,
    ] {
        unlexer.write(insn);
    }
    assert_eq!(unlexer.take_bytes(), b"Bubba\n?Shaa\nk$B".to_vec());
}

#[test]
fn unlexer_zero_width_disables_wrapping() {
    let conf = Config {
        initial_mode: Mode::A,
        chars_per_line: 0,
    };
    let mut unlexer = conf.build();
    for _ in 0..200 {
        unlexer.write(Insn::Inew);
    }
    let bytes = unlexer.take_bytes();
    assert_eq!(bytes.len(), 200);
    assert!(bytes.iter().all(|b| *b == b'B'));
}
