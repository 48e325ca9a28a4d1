//! Errors of the WATSON virtual machine and its codecs.

use crate::language::Location;
use vstd::prelude::*;

verus! {

/// What went wrong.
#[derive(Eq, PartialEq, Structural, Copy, Clone, Debug)]
pub enum ErrorKind {
    /// An instruction required an operand that the stack did not have.
    EmptyStack,
    /// An operand was present but of the wrong value variant.
    TypeMismatch,
    /// The underlying byte source or sink failed.
    IOError,
}

/// The error type of the WATSON VM and codecs: what went wrong, and where
/// in the byte stream.
#[derive(Debug)]
pub struct Error {
    /// Represents details of the error.
    pub kind: ErrorKind,
    /// The location where the error happened.
    pub location: Location,
}

impl Error {
    /// Returns its `ErrorKind`.
    pub fn kind(&self) -> (r: &ErrorKind)
        ensures
            r == self.kind,
    {
        &self.kind
    }

    /// Returns the `Location` where the error happened.
    pub fn location(&self) -> (r: &Location)
        ensures
            r == self.location,
    {
        &self.location
    }

    /// Builds the error that reports a failure of the underlying byte
    /// source or sink at `location`.  The I/O error itself stays with the
    /// caller that performed the I/O.
    pub fn from_io_error(location: Location) -> (r: Error)
        ensures
            r.kind == ErrorKind::IOError,
            r.location == location,
    {
        Error { kind: ErrorKind::IOError, location }
    }
}

} // verus!
