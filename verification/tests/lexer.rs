use watson::language::{Insn, Location, Mode, Token};
use watson::lexer::{Config, Lexer};

#[test]
fn lexer_lexer_new_initial_mode_defaults_to_a() {
    let bytes = b"Bubba".to_vec();
    let mut lexer = Lexer::new(bytes);
    assert_eq!(
        lexer.next_token().unwrap(),
        Token {
            insn: Insn::Inew,
            location: Location {
                byte: b'B',
                path: None,
                line: 1,
                column: 1,
            },
        },
    );
}

#[test]
fn lexer_lexer_new_initial_mode_can_be_overridden() {
    let bytes = b"Shaak".to_vec();
    let conf = Config {
        initial_mode: Mode::S,
        file_path: None,
    };
    let mut lexer = Lexer::new_with_config(bytes, conf);
    assert_eq!(
        lexer.next_token().unwrap(),
        Token {
            insn: Insn::Inew,
            location: Location {
                byte: b'S',
                path: None,
                line: 1,
                column: 1,
            },
        },
    );
}

#[test]
fn lexer_lexer_new_file_path_defaults_to_none() {
    let bytes = b"Bubba".to_vec();
    let mut lexer = Lexer::new(bytes);
    assert_eq!(
        lexer.next_token().unwrap(),
        Token {
            insn: Insn::Inew,
            location: Location {
                byte: b'B',
                path: None,
                line: 1,
                column: 1,
            },
        },
    );
}

#[test]
fn lexer_lexer_file_path_can_be_overridden() {
    let bytes = b"Bubba".to_vec();
    let conf = Config {
        initial_mode: Mode::A,
        file_path: Some("test.watson".to_string()),
    };
    let mut lexer = Lexer::new_with_config(bytes, conf);
    assert_eq!(
        lexer.next_token().unwrap(),
        Token {
            insn: Insn::Inew,
            location: Location {
                byte: b'B',
                path: Some("test.watson".to_string()),
                line: 1,
                column: 1,
            },
        },
    );
}

#[test]
fn lexer_lexer_advances_column_and_line() {
    let bytes = b"Bub\nba".to_vec();
    let mut lexer = Lexer::new(bytes);
    assert_eq!(
        lexer.next_token().unwrap(),
        Token {
            insn: Insn::Inew,
            location: Location {
                byte: b'B',
                path: None,
                line: 1,
                column: 1,
            },
        },
    );
    assert_eq!(
        lexer.next_token().unwrap(),
        Token {
            insn: Insn::Iinc,
            location: Location {
                byte: b'u',
                path: None,
                line: 1,
                column: 2,
            },
        },
    );
    assert_eq!(
        lexer.next_token().unwrap(),
        Token {
            insn: Insn::Ishl,
            location: Location {
                byte: b'b',
                path: None,
                line: 1,
                column: 3,
            },
        },
    );

    // The lexer hits the newline here.
    assert_eq!(
        lexer.next_token().unwrap(),
        Token {
            insn: Insn::Ishl,
            location: Location {
                byte: b'b',
                path: None,
                line: 2,
                column: 1,
            },
        },
    );
    assert_eq!(
        lexer.next_token().unwrap(),
        Token {
            insn: Insn::Iadd,
            location: Location {
                byte: b'a',
                path: None,
                line: 2,
                column: 2,
            },
        },
    );
}

#[test]
fn lexer_returns_none_when_eof() {
    let bytes = b"Bub".to_vec();
    let mut lexer = Lexer::new(bytes);

    assert_eq!(lexer.next_token().unwrap().insn, Insn::Inew);
    assert_eq!(lexer.next_token().unwrap().insn, Insn::Iinc);
    assert_eq!(lexer.next_token().unwrap().insn, Insn::Ishl);
    assert_eq!(lexer.next_token(), None);
}

#[test]
fn lexer_lexer_changes_mode() {
    let bytes = b"Bu?Sh$B".to_vec();
    let mut lexer = Lexer::new(bytes);
    assert_eq!(
        lexer.next_token().unwrap(),
        Token {
            insn: Insn::Inew,
            location: Location {
                byte: b'B',
                path: None,
                line: 1,
                column: 1,
            },
        },
    );
    assert_eq!(
        lexer.next_token().unwrap(),
        Token {
            insn: Insn::Iinc,
            location: Location {
                byte: b'u',
                path: None,
                line: 1,
                column: 2,
            },
        },
    );
    assert_eq!(
        lexer.next_token().unwrap(),
        Token {
            insn: Insn::Snew,
            location: Location {
                byte: b'?',
                path: None,
                line: 1,
                column: 3,
            },
        },
    );

    // The lexer produced `Snew`, so it changes its mode to `S`.
    assert_eq!(
        lexer.next_token().unwrap(),
        Token {
            insn: Insn::Inew,
            location: Location {
                byte: b'S',
                path: None,
                line: 1,
                column: 4,
            },
        },
    );
    assert_eq!(
        lexer.next_token().unwrap(),
        Token {
            insn: Insn::Iinc,
            location: Location {
                byte: b'h',
                path: None,
                line: 1,
                column: 5,
            },
        },
    );
    assert_eq!(
        lexer.next_token().unwrap(),
        Token {
            insn: Insn::Snew,
            location: Location {
                byte: b'$',
                path: None,
                line: 1,
                column: 6,
            },
        },
    );
    // The lexer produced `Snew` again, so it changes its mode back to `A`.
    assert_eq!(
        lexer.next_token().unwrap(),
        Token {
            insn: Insn::Inew,
            location: Location {
                byte: b'B',
                path: None,
                line: 1,
                column: 7,
            },
        },
    );
}

#[test]
fn lexer_skips_filler_tolerantly() {
    // `Bu??bba` under mode A: the first `?` is `Snew` itself, so choose
    // genuinely out-of-alphabet filler bytes instead.
    let with_filler = b"Bu \n\tbba".to_vec();
    let without_filler = b"Bubba".to_vec();
    let mut a = Lexer::new(with_filler);
    let mut b = Lexer::new(without_filler);
    loop {
        let ta = a.next_token().map(|t| t.insn);
        let tb = b.next_token().map(|t| t.insn);
        assert_eq!(ta, tb);
        if ta.is_none() {
            break;
        }
    }
}
