//! WATSON: a reversible textual encoding for a small tagged-value data
//! model, built on a stack-machine instruction set.
//!
//! Decoding runs bytes through the [`lexer::Lexer`] to obtain instruction
//! tokens and executes them on the [`vm::VM`]; the decoded value is the top
//! of the VM's stack.  Encoding runs a [`value::Value`] through the
//! [`serializer::Serializer`] to obtain instructions and writes them out
//! with the [`unlexer::Unlexer`].  [`codec::decode`] and [`codec::encode`]
//! drive a whole in-memory buffer through either pipeline, and
//! [`codec::lemma_round_trip`] is the proof that the two are inverse.

use vstd::prelude::*;
use vstd::string::StringSliceAdditionalSpecFns;

pub mod bits;
pub mod codec;
pub mod error;
pub mod language;
pub mod lexer;
pub mod serializer;
pub mod unlexer;
pub mod value;
pub mod vm;

pub use codec::{decode, encode};
pub use error::{Error, ErrorKind};
pub use language::{Insn, Location, Mode, Token};
pub use value::{Bytes, ToBytes, Value, ValueView};
pub use vm::{Stack, VM};

verus! {

impl core::str::FromStr for Value {
    type Err = Error;

    /// Parses a whole in-memory string as one WATSON value by running the
    /// lexer and the VM to completion with the default configuration:
    /// mode `A`, no display path.  Succeeds with the final top of the
    /// stack exactly when running the string's decoded instructions does;
    /// an execution error passes through unchanged, location included,
    /// and a run that leaves the stack empty reports `EmptyStack` at the
    /// unknown location.
    fn from_str(s: &str) -> (r: Result<Value, Error>)
        ensures
            match r {
                Ok(v) => codec::run(
                    Seq::empty(),
                    lexer::lex_insns(s.spec_bytes(), Mode::A),
                ) matches Ok(st) && st.len() > 0 && v@ == st.last() && value::value_wf(v@),
                Err(e) => {
                    &&& ({
                        ||| (codec::run(
                            Seq::empty(),
                            lexer::lex_insns(s.spec_bytes(), Mode::A),
                        ) matches Err(k) && k == e.kind)
                        ||| (codec::run(Seq::empty(), lexer::lex_insns(s.spec_bytes(), Mode::A))
                            == Ok::<_, ErrorKind>(Seq::<ValueView>::empty()) && e.kind
                            == ErrorKind::EmptyStack)
                    })
                    &&& match codec::run_bytes(
                        s.spec_bytes(),
                        0,
                        Mode::A,
                        1,
                        0,
                        None,
                        Seq::empty(),
                    ) {
                        Err(e2) => e == e2,
                        Ok(st) => {
                            &&& st.len() == 0
                            &&& e.kind == ErrorKind::EmptyStack
                            &&& e.location.byte == 0
                            &&& e.location.path is None
                            &&& e.location.line == 0
                            &&& e.location.column == 0
                        },
                    }
                },
            },
    {
        let bytes = ToBytes::to_bytes(s);
        let conf = lexer::Config::default();
        proof {
            assert(conf.file_path == None::<String>);
        }
        codec::decode(bytes, conf)
    }
}

} // verus!
