//! The WATSON language: instructions, lexer modes, tokens and source
//! locations.
//!
//! Each of the 23 instructions is written on the wire as one printable ASCII
//! byte.  Which byte stands for which instruction depends on the current
//! [`Mode`]; each mode's table is a bijection between the instruction set and
//! 23 printable bytes.

use vstd::prelude::*;

verus! {

/// An instruction of the WATSON virtual machine.
#[derive(Eq, PartialEq, Structural, Clone, Copy, Hash, Debug)]
pub enum Insn {
    Inew,
    Iinc,
    Ishl,
    Iadd,
    Ineg,
    Isht,
    Itof,
    Itou,
    Finf,
    Fnan,
    Fneg,
    Snew,
    Sadd,
    Onew,
    Oadd,
    Anew,
    Aadd,
    Bnew,
    Bneg,
    Nnew,
    Gdup,
    Gpop,
    Gswp,
}

/// A "mode" of the WATSON lexer and unlexer: selects which of the two
/// byte tables is active.  Processing `Snew` flips the mode.
#[derive(Eq, PartialEq, Structural, Ord, PartialOrd, Copy, Clone, Debug)]
pub enum Mode {
    /// The A mode.
    A,
    /// The S mode.
    S,
}

impl Mode {
    /// Returns the opposite mode.
    pub fn flip(self) -> (r: Mode)
        ensures
            r == self.spec_flip(),
    {
        match self {
            Mode::A => Mode::S,
            Mode::S => Mode::A,
        }
    }

    /// The opposite mode.
    pub open spec fn spec_flip(self) -> Mode {
        match self {
            Mode::A => Mode::S,
            Mode::S => Mode::A,
        }
    }
}

/// The mode that holds after a token for `insn` has been produced in mode
/// `mode`: `Snew` flips the mode, every other instruction keeps it.
pub open spec fn advance_mode(mode: Mode, insn: Insn) -> Mode {
    if insn == Insn::Snew {
        mode.spec_flip()
    } else {
        mode
    }
}

/// The byte that stands for `insn` in mode A.
pub open spec fn byte_of_insn_a(insn: Insn) -> u8 {
    match insn {
        Insn::Inew => 66,  // 'B'
        Insn::Iinc => 117,  // 'u'
        Insn::Ishl => 98,  // 'b'
        Insn::Iadd => 97,  // 'a'
        Insn::Ineg => 65,  // 'A'
        Insn::Isht => 101,  // 'e'
        Insn::Itof => 105,  // 'i'
        Insn::Itou => 39,  // '\''
        Insn::Finf => 113,  // 'q'
        Insn::Fnan => 116,  // 't'
        Insn::Fneg => 112,  // 'p'
        Insn::Snew => 63,  // '?'
        Insn::Sadd => 33,  // '!'
        Insn::Onew => 126,  // '~'
        Insn::Oadd => 77,  // 'M'
        Insn::Anew => 64,  // '@'
        Insn::Aadd => 115,  // 's'
        Insn::Bnew => 122,  // 'z'
        Insn::Bneg => 111,  // 'o'
        Insn::Nnew => 46,  // '.'
        Insn::Gdup => 69,  // 'E'
        Insn::Gpop => 35,  // '#'
        Insn::Gswp => 37,  // '%'
    }
}

/// The byte that stands for `insn` in mode S.
pub open spec fn byte_of_insn_s(insn: Insn) -> u8 {
    match insn {
        Insn::Inew => 83,  // 'S'
        Insn::Iinc => 104,  // 'h'
        Insn::Ishl => 97,  // 'a'
        Insn::Iadd => 107,  // 'k'
        Insn::Ineg => 114,  // 'r'
        Insn::Isht => 65,  // 'A'
        Insn::Itof => 122,  // 'z'
        Insn::Itou => 105,  // 'i'
        Insn::Finf => 109,  // 'm'
        Insn::Fnan => 98,  // 'b'
        Insn::Fneg => 117,  // 'u'
        Insn::Snew => 36,  // '$'
        Insn::Sadd => 45,  // '-'
        Insn::Onew => 43,  // '+'
        Insn::Oadd => 103,  // 'g'
        Insn::Anew => 118,  // 'v'
        Insn::Aadd => 63,  // '?'
        Insn::Bnew => 94,  // '^'
        Insn::Bneg => 33,  // '!'
        Insn::Nnew => 121,  // 'y'
        Insn::Gdup => 47,  // '/'
        Insn::Gpop => 101,  // 'e'
        Insn::Gswp => 58,  // ':'
    }
}

/// The byte that stands for `insn` in `mode`.
pub open spec fn byte_of_insn(mode: Mode, insn: Insn) -> u8 {
    match mode {
        Mode::A => byte_of_insn_a(insn),
        Mode::S => byte_of_insn_s(insn),
    }
}

/// The instruction that `byte` stands for in `mode`, or `None` for a byte
/// outside the mode's table (such a byte is inert filler during decode).
pub open spec fn insn_of_byte(mode: Mode, byte: u8) -> Option<Insn> {
    if exists|i: Insn| byte_of_insn(mode, i) == byte {
        Some(choose|i: Insn| byte_of_insn(mode, i) == byte)
    } else {
        None
    }
}

impl Insn {
    /// All 23 instructions, in the fixed order of the instruction set.
    pub fn all() -> (r: Vec<Insn>)
        ensures
            r@ == all_insns(),
    {
        let v = vec![
            Insn::Inew,
            Insn::Iinc,
            Insn::Ishl,
            Insn::Iadd,
            Insn::Ineg,
            Insn::Isht,
            Insn::Itof,
            Insn::Itou,
            Insn::Finf,
            Insn::Fnan,
            Insn::Fneg,
            Insn::Snew,
            Insn::Sadd,
            Insn::Onew,
            Insn::Oadd,
            Insn::Anew,
            Insn::Aadd,
            Insn::Bnew,
            Insn::Bneg,
            Insn::Nnew,
            Insn::Gdup,
            Insn::Gpop,
            Insn::Gswp,
        ];
        proof {
            assert(v@ =~= all_insns());
        }
        v
    }

    /// Converts a byte into the corresponding instruction under `mode`;
    /// bytes outside the mode's table give `None`.
    pub fn from_byte(mode: Mode, byte: u8) -> (r: Option<Insn>)
        ensures
            r == insn_of_byte(mode, byte),
    {
        match mode {
            Mode::A => Insn::from_byte_a(byte),
            Mode::S => Insn::from_byte_s(byte),
        }
    }

    /// Converts the instruction into its byte representation under `mode`.
    pub fn into_byte(self, mode: Mode) -> (r: u8)
        ensures
            r == byte_of_insn(mode, self),
    {
        match mode {
            Mode::A => self.into_byte_a(),
            Mode::S => self.into_byte_s(),
        }
    }

    fn from_byte_a(byte: u8) -> (r: Option<Insn>)
        ensures
            r == insn_of_byte(Mode::A, byte),
    {
        let r = match byte {
            66 => Some(Insn::Inew),
            117 => Some(Insn::Iinc),
            98 => Some(Insn::Ishl),
            97 => Some(Insn::Iadd),
            65 => Some(Insn::Ineg),
            101 => Some(Insn::Isht),
            105 => Some(Insn::Itof),
            39 => Some(Insn::Itou),
            113 => Some(Insn::Finf),
            116 => Some(Insn::Fnan),
            112 => Some(Insn::Fneg),
            63 => Some(Insn::Snew),
            33 => Some(Insn::Sadd),
            126 => Some(Insn::Onew),
            77 => Some(Insn::Oadd),
            64 => Some(Insn::Anew),
            115 => Some(Insn::Aadd),
            122 => Some(Insn::Bnew),
            111 => Some(Insn::Bneg),
            46 => Some(Insn::Nnew),
            69 => Some(Insn::Gdup),
            35 => Some(Insn::Gpop),
            37 => Some(Insn::Gswp),
            _ => None,
        };
        proof {
            match r {
                Some(i) => {
                    assert(byte_of_insn(Mode::A, i) == byte);
                },
                None => {
                    assert forall|i: Insn| byte_of_insn(Mode::A, i) != byte by {}
                },
            }
        }
        r
    }

    fn from_byte_s(byte: u8) -> (r: Option<Insn>)
        ensures
            r == insn_of_byte(Mode::S, byte),
    {
        let r = match byte {
            83 => Some(Insn::Inew),
            104 => Some(Insn::Iinc),
            97 => Some(Insn::Ishl),
            107 => Some(Insn::Iadd),
            114 => Some(Insn::Ineg),
            65 => Some(Insn::Isht),
            122 => Some(Insn::Itof),
            105 => Some(Insn::Itou),
            109 => Some(Insn::Finf),
            98 => Some(Insn::Fnan),
            117 => Some(Insn::Fneg),
            36 => Some(Insn::Snew),
            45 => Some(Insn::Sadd),
            43 => Some(Insn::Onew),
            103 => Some(Insn::Oadd),
            118 => Some(Insn::Anew),
            63 => Some(Insn::Aadd),
            94 => Some(Insn::Bnew),
            33 => Some(Insn::Bneg),
            121 => Some(Insn::Nnew),
            47 => Some(Insn::Gdup),
            101 => Some(Insn::Gpop),
            58 => Some(Insn::Gswp),
            _ => None,
        };
        proof {
            match r {
                Some(i) => {
                    assert(byte_of_insn(Mode::S, i) == byte);
                },
                None => {
                    assert forall|i: Insn| byte_of_insn(Mode::S, i) != byte by {}
                },
            }
        }
        r
    }

    fn into_byte_a(self) -> (r: u8)
        ensures
            r == byte_of_insn_a(self),
    {
        match self {
            Insn::Inew => 66,
            Insn::Iinc => 117,
            Insn::Ishl => 98,
            Insn::Iadd => 97,
            Insn::Ineg => 65,
            Insn::Isht => 101,
            Insn::Itof => 105,
            Insn::Itou => 39,
            Insn::Finf => 113,
            Insn::Fnan => 116,
            Insn::Fneg => 112,
            Insn::Snew => 63,
            Insn::Sadd => 33,
            Insn::Onew => 126,
            Insn::Oadd => 77,
            Insn::Anew => 64,
            Insn::Aadd => 115,
            Insn::Bnew => 122,
            Insn::Bneg => 111,
            Insn::Nnew => 46,
            Insn::Gdup => 69,
            Insn::Gpop => 35,
            Insn::Gswp => 37,
        }
    }

    fn into_byte_s(self) -> (r: u8)
        ensures
            r == byte_of_insn_s(self),
    {
        match self {
            Insn::Inew => 83,
            Insn::Iinc => 104,
            Insn::Ishl => 97,
            Insn::Iadd => 107,
            Insn::Ineg => 114,
            Insn::Isht => 65,
            Insn::Itof => 122,
            Insn::Itou => 105,
            Insn::Finf => 109,
            Insn::Fnan => 98,
            Insn::Fneg => 117,
            Insn::Snew => 36,
            Insn::Sadd => 45,
            Insn::Onew => 43,
            Insn::Oadd => 103,
            Insn::Anew => 118,
            Insn::Aadd => 63,
            Insn::Bnew => 94,
            Insn::Bneg => 33,
            Insn::Nnew => 121,
            Insn::Gdup => 47,
            Insn::Gpop => 101,
            Insn::Gswp => 58,
        }
    }
}

/// The 23 instructions in the fixed order of the instruction set.
pub open spec fn all_insns() -> Seq<Insn> {
    seq![
        Insn::Inew,
        Insn::Iinc,
        Insn::Ishl,
        Insn::Iadd,
        Insn::Ineg,
        Insn::Isht,
        Insn::Itof,
        Insn::Itou,
        Insn::Finf,
        Insn::Fnan,
        Insn::Fneg,
        Insn::Snew,
        Insn::Sadd,
        Insn::Onew,
        Insn::Oadd,
        Insn::Anew,
        Insn::Aadd,
        Insn::Bnew,
        Insn::Bneg,
        Insn::Nnew,
        Insn::Gdup,
        Insn::Gpop,
        Insn::Gswp,
    ]
}

/// Each mode's byte table sends an instruction back to itself: converting an
/// instruction to its byte and the byte back again yields the instruction.
/// With [`lemma_insn_of_byte_injective`] this makes each table a bijection
/// between the 23 instructions and 23 printable bytes.
pub proof fn lemma_alphabet_roundtrip(mode: Mode, insn: Insn)
    ensures
        insn_of_byte(mode, byte_of_insn(mode, insn)) == Some(insn),
{
    let b = byte_of_insn(mode, insn);
    assert(exists|i: Insn| byte_of_insn(mode, i) == b);
    let w = choose|i: Insn| byte_of_insn(mode, i) == b;
    assert(w == insn);
}

/// Within one mode, distinct instructions are written as distinct bytes.
pub proof fn lemma_byte_of_insn_injective(mode: Mode, i1: Insn, i2: Insn)
    ensures
        byte_of_insn(mode, i1) == byte_of_insn(mode, i2) ==> i1 == i2,
{
}

/// Within one mode, a byte stands for at most one instruction: two bytes
/// that map to the same instruction are equal.
pub proof fn lemma_insn_of_byte_injective(mode: Mode, b1: u8, b2: u8)
    ensures
        insn_of_byte(mode, b1) is Some && insn_of_byte(mode, b1) == insn_of_byte(mode, b2)
            ==> b1 == b2,
{
    if insn_of_byte(mode, b1) is Some && insn_of_byte(mode, b1) == insn_of_byte(mode, b2) {
        let i1 = choose|i: Insn| byte_of_insn(mode, i) == b1;
        let i2 = choose|i: Insn| byte_of_insn(mode, i) == b2;
        assert(byte_of_insn(mode, i1) == b1);
        assert(byte_of_insn(mode, i2) == b2);
    }
}

/// A byte that some instruction is written as under `mode` maps back to an
/// instruction (it is never filler in that mode).
pub proof fn lemma_insn_of_byte_surjective(mode: Mode, insn: Insn)
    ensures
        exists|b: u8| insn_of_byte(mode, b) == Some(insn),
{
    lemma_alphabet_roundtrip(mode, insn);
}

/// A newline byte is filler in both modes: the unlexer's line wrapping never
/// collides with either byte table.
pub proof fn lemma_newline_is_filler(mode: Mode)
    ensures
        insn_of_byte(mode, 10) is None,
{
    assert forall|i: Insn| byte_of_insn(mode, i) != 10 by {}
}

/// Location of a token or error in the byte stream that was read or written.
/// Line and column numbers are 1-based and serve diagnostics only; they never
/// influence execution.
#[derive(Clone, Debug)]
pub struct Location {
    /// The byte that produced the token (or was last read).
    pub byte: u8,
    /// Optional file path, for display only.
    pub path: Option<String>,
    /// Line number.
    pub line: usize,
    /// Column number.
    pub column: usize,
}

impl Location {
    /// A location that stands for "unknown": zero line and column, no path.
    pub fn unknown() -> (r: Location)
        ensures
            r.byte == 0,
            r.path is None,
            r.line == 0,
            r.column == 0,
    {
        Location { byte: 0, path: None, line: 0, column: 0 }
    }
}

/// Structural equality of two locations, with paths compared by content.
pub open spec fn loc_eq(a: Location, b: Location) -> bool {
    &&& a.byte == b.byte
    &&& a.line == b.line
    &&& a.column == b.column
    &&& match (a.path, b.path) {
        (Option::None, Option::None) => true,
        (Option::Some(p), Option::Some(q)) => p@ == q@,
        _ => false,
    }
}

impl PartialEq for Location {
    fn eq(&self, other: &Location) -> (r: bool) {
        let path_eq: bool = match &self.path {
            Option::Some(p) => match &other.path {
                Option::Some(q) => *p == *q,
                Option::None => false,
            },
            Option::None => other.path.is_none(),
        };
        path_eq && self.byte == other.byte && self.line == other.line && self.column
            == other.column
    }
}

impl vstd::std_specs::cmp::PartialEqSpecImpl for Location {
    open spec fn obeys_eq_spec() -> bool {
        true
    }

    open spec fn eq_spec(&self, other: &Location) -> bool {
        loc_eq(*self, *other)
    }
}

/// A token of the WATSON language: one decoded instruction together with the
/// location it was read from.
#[derive(Clone, Debug)]
pub struct Token {
    /// The instruction that the token represents.
    pub insn: Insn,
    /// Location of the instruction.
    pub location: Location,
}

impl PartialEq for Token {
    fn eq(&self, other: &Token) -> (r: bool) {
        self.insn == other.insn && self.location == other.location
    }
}

impl vstd::std_specs::cmp::PartialEqSpecImpl for Token {
    open spec fn obeys_eq_spec() -> bool {
        true
    }

    open spec fn eq_spec(&self, other: &Token) -> bool {
        self.insn == other.insn && loc_eq(self.location, other.location)
    }
}

} // verus!
