//! The WATSON unlexer: instructions to bytes.
//!
//! The unlexer writes one byte per instruction into an in-memory buffer,
//! using the current mode's table, and optionally inserts a newline every
//! `chars_per_line` written characters.  Writing `Snew` flips the mode,
//! mirroring the lexer exactly.

use crate::language::{advance_mode, byte_of_insn, Insn, Mode};
use vstd::prelude::*;

verus! {

/// The bytes that the unlexer emits for `insns`, starting in `mode` with
/// `column` characters already written on the current line.  With a
/// nonzero `width`, a newline follows every `width`-th character; a zero
/// `width` disables wrapping.
pub open spec fn unlex_bytes(insns: Seq<Insn>, mode: Mode, width: int, column: int) -> Seq<u8>
    decreases insns.len(),
{
    if insns.len() == 0 {
        Seq::empty()
    } else {
        let b = byte_of_insn(mode, insns[0]);
        let m2 = advance_mode(mode, insns[0]);
        if width > 0 && column + 1 >= width {
            seq![b, 10u8] + unlex_bytes(insns.skip(1), m2, width, 0)
        } else {
            seq![b] + unlex_bytes(insns.skip(1), m2, width, if width > 0 {
                column + 1
            } else {
                column
            })
        }
    }
}

/// Configuration of an [`Unlexer`].
pub struct Config {
    /// Initial mode (`A` by the specification).
    pub initial_mode: Mode,
    /// A newline is emitted after every `chars_per_line` written
    /// characters; zero disables wrapping.
    pub chars_per_line: usize,
}

impl Default for Config {
    /// Mode `A`, 80 characters per line.
    fn default() -> (r: Config)
        ensures
            r.initial_mode == Mode::A,
            r.chars_per_line == 80,
    {
        Config { initial_mode: Mode::A, chars_per_line: 80 }
    }
}

impl Config {
    /// Returns a new `Unlexer` with this configuration.
    pub fn new(self) -> (r: Unlexer)
        ensures
            r.out@ == Seq::<u8>::empty(),
            r.mode == self.initial_mode,
            r.chars_per_line == self.chars_per_line,
            r.column == 0,
    {
        Unlexer {
            out: Vec::new(),
            mode: self.initial_mode,
            chars_per_line: self.chars_per_line,
            column: 0,
        }
    }

    /// Same as [`Config::new`]: builds the configured `Unlexer`.
    pub fn build(self) -> (r: Unlexer)
        ensures
            r.out@ == Seq::<u8>::empty(),
            r.mode == self.initial_mode,
            r.chars_per_line == self.chars_per_line,
            r.column == 0,
    {
        self.new()
    }
}

/// Converts a sequence of instructions to its byte representation, into an
/// in-memory buffer.  A caller that writes to a file or socket takes the
/// buffer when done.
pub struct Unlexer {
    /// The bytes written so far.
    pub out: Vec<u8>,
    /// The current mode.
    pub mode: Mode,
    /// Wrap width; zero disables wrapping.
    pub chars_per_line: usize,
    /// Characters written on the current line (tracked only when wrapping).
    pub column: usize,
}

/// The unlexer's column counter stays below a nonzero wrap width.
pub open spec fn unlexer_wf(u: Unlexer) -> bool {
    u.chars_per_line > 0 ==> u.column < u.chars_per_line
}

impl Unlexer {
    /// Returns a new `Unlexer` with the default configuration: mode `A`,
    /// wrapping after 80 characters.
    pub fn new() -> (r: Unlexer)
        ensures
            r.out@ == Seq::<u8>::empty(),
            r.mode == Mode::A,
            r.chars_per_line == 80,
            r.column == 0,
    {
        Config::default().new()
    }

    /// Writes a single instruction: appends its byte under the current
    /// mode, wraps the line when the width is reached, and flips the mode
    /// after `Snew`.
    pub fn write(&mut self, insn: Insn)
        requires
            unlexer_wf(*old(self)),
        ensures
            unlexer_wf(*final(self)),
            final(self).out@ == old(self).out@ + unlex_bytes(
                seq![insn],
                old(self).mode,
                old(self).chars_per_line as int,
                old(self).column as int,
            ),
            final(self).mode == advance_mode(old(self).mode, insn),
            final(self).chars_per_line == old(self).chars_per_line,
            final(self).column as int == if old(self).chars_per_line > 0 {
                if old(self).column + 1 >= old(self).chars_per_line {
                    0int
                } else {
                    old(self).column + 1
                }
            } else {
                old(self).column as int
            },
    {
        let b = insn.into_byte(self.mode);
        self.out.push(b);
        if self.chars_per_line > 0 {
            self.column = self.column + 1;
            if self.column >= self.chars_per_line {
                self.out.push(10);
                self.column = 0;
            }
        }
        if matches!(insn, Insn::Snew) {
            self.mode = self.mode.flip();
        }
        proof {
            let spec_out = unlex_bytes(
                seq![insn],
                old(self).mode,
                old(self).chars_per_line as int,
                old(self).column as int,
            );
            assert(seq![insn].skip(1) =~= Seq::<Insn>::empty());
            assert(unlex_bytes(seq![insn].skip(1), advance_mode(old(self).mode, insn), old(
                self,
            ).chars_per_line as int, 0) =~= Seq::<u8>::empty());
            assert(unlex_bytes(
                seq![insn].skip(1),
                advance_mode(old(self).mode, insn),
                old(self).chars_per_line as int,
                old(self).column + 1,
            ) =~= Seq::<u8>::empty());
            assert(unlex_bytes(
                seq![insn].skip(1),
                advance_mode(old(self).mode, insn),
                old(self).chars_per_line as int,
                old(self).column as int,
            ) =~= Seq::<u8>::empty());
            if old(self).chars_per_line > 0 && old(self).column + 1 >= old(self).chars_per_line {
                assert(spec_out =~= seq![byte_of_insn(old(self).mode, insn), 10u8]);
                assert(self.out@ =~= old(self).out@ + spec_out);
            } else {
                assert(spec_out =~= seq![byte_of_insn(old(self).mode, insn)]);
                assert(self.out@ =~= old(self).out@ + spec_out);
            }
        }
    }

    /// Hands the written bytes to the caller, leaving the buffer empty.
    pub fn take_bytes(&mut self) -> (r: Vec<u8>)
        ensures
            r@ == old(self).out@,
            final(self).out@ == Seq::<u8>::empty(),
            final(self).mode == old(self).mode,
            final(self).chars_per_line == old(self).chars_per_line,
            final(self).column == old(self).column,
    {
        let mut out: Vec<u8> = Vec::new();
        core::mem::swap(&mut out, &mut self.out);
        out
    }
}

} // verus!
