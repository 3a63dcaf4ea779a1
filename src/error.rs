use vstd::prelude::*;

verus! {

/// What went wrong while reading a file or a bitstream.
#[derive(Debug, Clone, Copy, PartialEq, Eq, Structural)]
pub enum Error {
    /// The input ended in the middle of a field.
    Eof,
    /// A box or a field breaks the layout that the format prescribes.
    Structure,
    /// A box carries a version that this reader does not handle.
    Version,
    /// A decoded value lies outside the range the format allows.
    Range,
    /// The input uses a feature that this reader does not implement.
    Unsupported,
    /// The requested item, property or parameter set does not exist.
    NotFound,
}

impl Error {
    /// A short human-readable description of the error.
    pub fn message(&self) -> &'static str {
        match self {
            Error::Eof => "unexpected end of input",
            Error::Structure => "malformed structure",
            Error::Version => "unsupported version",
            Error::Range => "value out of range",
            Error::Unsupported => "unsupported feature",
            Error::NotFound => "not found",
        }
    }
}

} // verus!
