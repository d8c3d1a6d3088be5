//! Error type.

use crate::length::Length;
use crate::tag::Tag;
use vstd::prelude::*;
use vstd::std_specs::convert::FromSpecImpl;

verus! {

/// The reason why an operation failed.
#[derive(Clone, Copy, Debug, PartialEq, Eq, Structural)]
pub enum ErrorKind {
    /// A date or a time of day is out of range.
    DateTime,
    /// Bytes were asked for that the input does not have: `expected_len`
    /// where `actual_len` were there. A read counts both from the cursor; a
    /// look at the tag behind the end of the input counts both from the
    /// start of the input.
    Incomplete { expected_len: Length, actual_len: Length },
    /// The indefinite length form, which DER forbids.
    IndefiniteLength,
    /// The length octets of a value with this tag are not the shortest ones.
    Length { tag: Tag },
    /// The contents of a value with this tag are not in canonical form.
    Noncanonical { tag: Tag },
    /// The contents of an OBJECT IDENTIFIER are not a sequence of arcs.
    OidMalformed,
    /// A length is beyond the largest one supported.
    Overflow,
    /// Length octets that no DER encoder produces, or no room left in a writer.
    Overlength,
    /// The reader cannot lend out the bytes asked for in one piece.
    Reader,
    /// A tag number that needs more than one identifier octet.
    TagNumberInvalid,
    /// Another tag was found than the one asked for.
    TagUnexpected { expected: Option<Tag>, actual: Tag },
    /// An identifier octet that stands for no supported tag.
    TagUnknown { byte: u8 },
    /// Input was left over after a complete value.
    TrailingData { decoded: Length, remaining: Length },
    /// The contents of a string are not UTF-8.
    Utf8,
    /// The contents are not a value of the type with this tag.
    Value { tag: Tag },
}

/// An error, as every fallible function of this library returns it.
#[derive(Clone, Copy, Debug, PartialEq, Eq, Structural)]
pub struct Error {
    pub kind: ErrorKind,
}

impl Error {
    /// An error of the given kind.
    pub fn new(kind: ErrorKind) -> (r: Error)
        ensures
            r.kind == kind,
    {
        Error { kind }
    }

    /// The kind of this error.
    pub fn kind(&self) -> (r: ErrorKind)
        ensures
            r == self.kind,
    {
        self.kind
    }

    /// The error of asking for one byte more than the `actual_len` that were
    /// there.
    pub fn incomplete(actual_len: Length) -> (r: Error)
        ensures
            r.kind == spec_incomplete(actual_len),
    {
        match actual_len.0.checked_add(1) {
            Some(expected_len) => Error {
                kind: ErrorKind::Incomplete { expected_len: Length(expected_len), actual_len },
            },
            None => Error { kind: ErrorKind::Overflow },
        }
    }
}

/// What is reported where one byte more was asked for than the `actual_len`
/// that were there: that, or an overflow where no length is one more.
pub open spec fn spec_incomplete(actual_len: Length) -> ErrorKind {
    if actual_len.0 < u32::MAX {
        ErrorKind::Incomplete { expected_len: Length((actual_len.0 + 1) as u32), actual_len }
    } else {
        ErrorKind::Overflow
    }
}

impl From<ErrorKind> for Error {
    fn from(kind: ErrorKind) -> (r: Error) {
        Error { kind }
    }
}

impl FromSpecImpl<ErrorKind> for Error {
    open spec fn obeys_from_spec() -> bool {
        true
    }

    open spec fn from_spec(kind: ErrorKind) -> Error {
        Error { kind }
    }
}

/// What a read of one byte reports at the end of the input, where no byte
/// is left.
pub open spec fn spec_end_of_input() -> ErrorKind {
    spec_incomplete(Length(0))
}

} // verus!
