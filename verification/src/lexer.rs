//! The WATSON lexer: bytes to instruction tokens.
//!
//! The lexer pulls bytes from an in-memory source.  A byte inside the
//! current mode's table becomes a [`Token`]; any other byte — whitespace,
//! prose, wrap newlines — is inert filler and is skipped silently, though it
//! still advances the line and column counters.  Producing a token for
//! `Snew` flips the mode.

use crate::language::{advance_mode, insn_of_byte, Insn, Location, Mode, Token};
use vstd::prelude::*;

verus! {

/// `x + 1`, stopping at the largest machine value; line and column counters
/// advance with this, so they cannot wrap however long the input is.
pub open spec fn sat_inc(x: int) -> int {
    if x < usize::MAX {
        x + 1
    } else {
        x
    }
}

/// The line counter after reading `byte`: a newline starts the next line.
pub open spec fn adv_line(line: int, byte: u8) -> int {
    if byte == 10 {
        sat_inc(line)
    } else {
        line
    }
}

/// The column counter after reading `byte`: a newline resets it.
pub open spec fn adv_column(column: int, byte: u8) -> int {
    if byte == 10 {
        0
    } else {
        sat_inc(column)
    }
}

/// What one scan from position `pos` yields: the next token's data and the
/// state after it, or the state at the end of the input.
pub enum ScanStep {
    /// A byte inside the current table was found.
    Found { insn: Insn, byte: u8, pos: int, line: int, column: int },
    /// The input was exhausted; only filler remained.
    End { pos: int, line: int, column: int },
}

/// Scans from `pos` for the next byte inside `mode`'s table, skipping
/// filler and tracking line and column.  The mode does not change during
/// the scan: only producing a token (for `Snew`) can flip it, afterwards.
pub open spec fn scan(bytes: Seq<u8>, pos: int, mode: Mode, line: int, column: int) -> ScanStep
    decreases bytes.len() - pos,
{
    if pos < 0 || pos >= bytes.len() {
        ScanStep::End { pos, line, column }
    } else {
        let b = bytes[pos];
        let l2 = adv_line(line, b);
        let c2 = adv_column(column, b);
        match insn_of_byte(mode, b) {
            Option::Some(i) => ScanStep::Found {
                insn: i,
                byte: b,
                pos: pos + 1,
                line: l2,
                column: c2,
            },
            Option::None => scan(bytes, pos + 1, mode, l2, c2),
        }
    }
}

/// The whole instruction sequence that `bytes` decodes to, starting in
/// `mode`: filler is dropped, and each `Snew` flips the mode for the bytes
/// after it.
pub open spec fn lex_insns(bytes: Seq<u8>, mode: Mode) -> Seq<Insn>
    decreases bytes.len(),
{
    if bytes.len() == 0 {
        Seq::empty()
    } else {
        match insn_of_byte(mode, bytes[0]) {
            Option::Some(i) => seq![i] + lex_insns(bytes.skip(1), advance_mode(mode, i)),
            Option::None => lex_insns(bytes.skip(1), mode),
        }
    }
}

/// One scan step, seen through [`lex_insns`]: a found token is the head of
/// the remaining instruction sequence, and a scan that ends the input means
/// the remainder decodes to nothing.
pub proof fn lemma_scan_lex(bytes: Seq<u8>, pos: int, mode: Mode, line: int, column: int)
    requires
        0 <= pos <= bytes.len(),
    ensures
        match scan(bytes, pos, mode, line, column) {
            ScanStep::Found { insn, byte, pos: pos2, .. } => {
                &&& pos < pos2 <= bytes.len()
                &&& lex_insns(bytes.skip(pos), mode) == seq![insn] + lex_insns(
                    bytes.skip(pos2),
                    advance_mode(mode, insn),
                )
            },
            ScanStep::End { .. } => lex_insns(bytes.skip(pos), mode) == Seq::<Insn>::empty(),
        },
    decreases bytes.len() - pos,
{
    if pos >= bytes.len() {
        assert(bytes.skip(pos).len() == 0);
    } else {
        let rest = bytes.skip(pos);
        assert(rest[0] == bytes[pos]);
        assert(rest.skip(1) =~= bytes.skip(pos + 1));
        match insn_of_byte(mode, bytes[pos]) {
            Option::Some(i) => {},
            Option::None => {
                lemma_scan_lex(bytes, pos + 1, mode, adv_line(line, bytes[pos]), adv_column(
                    column,
                    bytes[pos],
                ));
            },
        }
    }
}

/// Configuration of a [`Lexer`].
pub struct Config {
    /// Initial mode (`A` by the specification).
    pub initial_mode: Mode,
    /// File path to display in locations (not used to open anything).
    pub file_path: Option<String>,
}

impl Default for Config {
    /// Mode `A`, no path.
    fn default() -> (r: Config)
        ensures
            r.initial_mode == Mode::A,
            r.file_path is None,
    {
        Config { initial_mode: Mode::A, file_path: None }
    }
}

impl Config {
    /// Returns a new `Lexer` that reads the given bytes.
    pub fn new(self, bytes: Vec<u8>) -> (r: Lexer)
        ensures
            r.bytes@ == bytes@,
            r.pos == 0,
            r.mode == self.initial_mode,
            r.path == self.file_path,
            r.line == 1,
            r.column == 0,
    {
        Lexer {
            bytes,
            pos: 0,
            mode: self.initial_mode,
            path: self.file_path,
            line: 1,
            column: 0,
        }
    }
}

/// A lexer of the WATSON language over an in-memory byte source.  A caller
/// that reads from a file or socket collects the bytes first and hands them
/// over.
pub struct Lexer {
    /// The byte source.
    pub bytes: Vec<u8>,
    /// How many bytes have been consumed.
    pub pos: usize,
    /// The current mode.
    pub mode: Mode,
    /// File path to display in locations.
    pub path: Option<String>,
    /// Current line, 1-based.
    pub line: usize,
    /// Current column: the number of bytes consumed on the current line.
    pub column: usize,
}

/// Copies an optional path.
fn clone_path(p: &Option<String>) -> (r: Option<String>)
    ensures
        r == p,
{
    match p {
        Option::Some(s) => Option::Some(s.clone()),
        Option::None => Option::None,
    }
}

impl Lexer {
    /// Returns a new `Lexer` with the default configuration: mode `A`, no
    /// display path.
    pub fn new(bytes: Vec<u8>) -> (r: Lexer)
        ensures
            r.bytes@ == bytes@,
            r.pos == 0,
            r.mode == Mode::A,
            r.path is None,
            r.line == 1,
            r.column == 0,
    {
        Lexer::new_with_config(bytes, Config::default())
    }

    /// Same as `new` but in a configurable way.
    pub fn new_with_config(bytes: Vec<u8>, conf: Config) -> (r: Lexer)
        ensures
            r.bytes@ == bytes@,
            r.pos == 0,
            r.mode == conf.initial_mode,
            r.path == conf.file_path,
            r.line == 1,
            r.column == 0,
    {
        conf.new(bytes)
    }

    /// Returns the next token, or `None` once only filler remains.  Filler
    /// bytes before the token are consumed and counted into the location;
    /// a token for `Snew` flips the mode for the bytes after it.
    pub fn next_token(&mut self) -> (r: Option<Token>)
        ensures
            final(self).bytes@ == old(self).bytes@,
            final(self).path == old(self).path,
            match r {
                Option::Some(t) => {
                    &&& scan(
                        old(self).bytes@,
                        old(self).pos as int,
                        old(self).mode,
                        old(self).line as int,
                        old(self).column as int,
                    ) == ScanStep::Found {
                        insn: t.insn,
                        byte: t.location.byte,
                        pos: final(self).pos as int,
                        line: final(self).line as int,
                        column: final(self).column as int,
                    }
                    &&& t.location.line == final(self).line
                    &&& t.location.column == final(self).column
                    &&& t.location.path == final(self).path
                    &&& final(self).mode == advance_mode(old(self).mode, t.insn)
                },
                Option::None => {
                    &&& scan(
                        old(self).bytes@,
                        old(self).pos as int,
                        old(self).mode,
                        old(self).line as int,
                        old(self).column as int,
                    ) == ScanStep::End {
                        pos: final(self).pos as int,
                        line: final(self).line as int,
                        column: final(self).column as int,
                    }
                    &&& final(self).mode == old(self).mode
                },
            },
    {
        if self.pos >= self.bytes.len() {
            return None;
        }
        #[verifier::loop_isolation(false)]
        loop
            invariant
                self.bytes@ == old(self).bytes@,
                self.path == old(self).path,
                self.mode == old(self).mode,
                old(self).pos <= self.pos <= self.bytes@.len(),
                scan(
                    old(self).bytes@,
                    old(self).pos as int,
                    old(self).mode,
                    old(self).line as int,
                    old(self).column as int,
                ) == scan(
                    self.bytes@,
                    self.pos as int,
                    self.mode,
                    self.line as int,
                    self.column as int,
                ),
            decreases self.bytes@.len() - self.pos,
        {
            if self.pos >= self.bytes.len() {
                return None;
            }
            let b = self.bytes[self.pos];
            self.pos = self.pos + 1;
            if b == 10 {
                if self.line < usize::MAX {
                    self.line = self.line + 1;
                }
                self.column = 0;
            } else {
                if self.column < usize::MAX {
                    self.column = self.column + 1;
                }
            }
            match Insn::from_byte(self.mode, b) {
                Option::Some(insn) => {
                    let location = Location {
                        byte: b,
                        path: clone_path(&self.path),
                        line: self.line,
                        column: self.column,
                    };
                    if matches!(insn, Insn::Snew) {
                        self.mode = self.mode.flip();
                    }
                    return Some(Token { insn, location });
                },
                Option::None => {},
            }
        }
    }
}

} // verus!
