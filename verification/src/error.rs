//! The errors that decoding can report.
use vstd::prelude::*;

verus! {

/// Why a byte source could not supply what a decoder asked for.
#[derive(Debug, Clone, Copy, PartialEq, Eq, Structural)]
pub enum IoErrorKind {
    /// The source ended before the value did.
    UnexpectedEof,
    /// The bytes are not a valid encoding of an integer.
    InvalidData,
}

/// Everything that can go wrong while a value is decoded.
#[derive(Debug)]
#[allow(inconsistent_fields)]
pub enum Error {
    /// The byte source failed.
    IoError(IoErrorKind),
    /// The case index of an ordinary variant names no case of the type `ident`.
    UnexpectedVariantIndex { index: u8, ident: &'static str },
    /// The tag of a polymorphic variant is that of no case of the type `ident`.
    UnexpectedPolymorphicVariantIndex { index: i32, ident: &'static str },
    /// A unit was encoded by something other than the byte 0.
    UnexpectedValueForUnit(u8),
    /// A boolean was encoded by something other than the bytes 0 and 1.
    UnexpectedValueForBool(u8),
    /// An option was introduced by something other than the bytes 0 and 1.
    UnexpectedValueForOption(u8),
    /// The bytes of a string are not UTF-8.
    Utf8Error,
    /// A map lists one key twice.
    SameKeyAppearsTwiceInMap,
    /// An integer does not fit the narrower type that was asked for.
    TryFromIntError,
    /// An error raised by a decoder outside this library.
    CustomError(String),
}

impl From<IoErrorKind> for Error {
    fn from(kind: IoErrorKind) -> (e: Self) {
        Error::IoError(kind)
    }
}

impl vstd::std_specs::convert::FromSpecImpl<IoErrorKind> for Error {
    open spec fn obeys_from_spec() -> bool {
        true
    }

    open spec fn from_spec(kind: IoErrorKind) -> Self {
        Error::IoError(kind)
    }
}

impl Error {
    /// The error of a source that ran out of bytes.
    pub open spec fn eof() -> Error {
        Error::IoError(IoErrorKind::UnexpectedEof)
    }

    /// The error of bytes that encode no integer.
    pub open spec fn invalid() -> Error {
        Error::IoError(IoErrorKind::InvalidData)
    }
}

} // verus!
