//! Traits for encoding.

use crate::error::{Error, ErrorKind};
use crate::header::{spec_header_octets, Header};
use crate::length::{Length, MAX_LENGTH};
use crate::tag::{FixedTag, Tag};
use crate::writer::{spec_appended, spec_appended_in_pieces, Writer};
use vstd::prelude::*;

verus! {

/// The length of an encoding of `len` bytes, if the library supports it.
pub open spec fn spec_encoded_len(len: nat) -> Result<Length, Error> {
    if len <= MAX_LENGTH {
        Ok(Length(len as u32))
    } else {
        Err(Error { kind: ErrorKind::Overflow })
    }
}

/// The encoding of a value with the given tag and contents: the header with
/// the length of the contents, then the contents.
pub open spec fn spec_encode_tagged(tag: Tag, contents: Seq<u8>) -> Seq<u8> {
    spec_header_octets(Header { tag, length: Length(contents.len() as u32) }) + contents
}

/// Encoding the contents of a value, without its header.
pub trait EncodeValue: DeepView {
    /// The contents of the encoding of `value`.
    spec fn spec_encode_value(value: Self::V) -> Seq<u8>;

    /// The length of the contents.
    fn value_len(&self) -> (r: Result<Length, Error>)
        ensures
            r == spec_encoded_len(Self::spec_encode_value(self.deep_view()).len()),
    ;

    /// Writes the contents.
    fn encode_value<W: Writer>(&self, writer: &mut W) -> (r: Result<(), Error>)
        ensures
            spec_appended_in_pieces(
                Self::spec_encode_value(self.deep_view()),
                old(writer).written(),
                old(writer).room(),
                r,
                final(writer).written(),
                final(writer).room(),
            ),
    ;
}

/// Encoding a value with its header.
pub trait Encode: DeepView {
    /// The encoding of `value`.
    spec fn spec_encode(value: Self::V) -> Seq<u8>;

    /// The length of the encoding, which is the number of bytes that `encode`
    /// writes.
    fn encoded_len(&self) -> (r: Result<Length, Error>)
        ensures
            r == spec_encoded_len(Self::spec_encode(self.deep_view()).len()),
    ;

    /// Writes the encoding: all of it or, where it is longer than the largest
    /// length or than the room in the writer, nothing.
    fn encode<W: Writer>(&self, writer: &mut W) -> (r: Result<(), Error>)
        ensures
            spec_appended(
                Self::spec_encode(self.deep_view()),
                old(writer).written(),
                old(writer).room(),
                r,
                final(writer).written(),
                final(writer).room(),
            ),
    ;

    /// The encoding as a vector.
    fn to_vec(&self) -> (r: Result<Vec<u8>, Error>)
        ensures
            match r {
                Ok(bytes) => bytes@ == Self::spec_encode(self.deep_view()) && bytes@.len()
                    <= MAX_LENGTH,
                Err(e) => Self::spec_encode(self.deep_view()).len() > MAX_LENGTH && e.kind
                    == ErrorKind::Overflow,
            },
    {
        let mut bytes: Vec<u8> = Vec::new();
        match self.encode(&mut bytes) {
            Ok(_) => {
                assert(bytes@ == Seq::<u8>::empty() + Self::spec_encode(self.deep_view()));
                Ok(bytes)
            },
            Err(e) => Err(e),
        }
    }
}

impl<T> Encode for T where T: EncodeValue + FixedTag {
    open spec fn spec_encode(value: Self::V) -> Seq<u8> {
        spec_encode_tagged(T::spec_fixed_tag(), T::spec_encode_value(value))
    }

    fn encoded_len(&self) -> (r: Result<Length, Error>) {
        let value_len = match self.value_len() {
            Ok(len) => len,
            Err(e) => { return Err(e); },
        };
        let header = Header::new(T::fixed_tag(), value_len);
        match header.encoded_len() {
            Ok(len) => len.checked_add(value_len),
            Err(e) => Err(e),
        }
    }

    fn encode<W: Writer>(&self, writer: &mut W) -> (r: Result<(), Error>) {
        let room = writer.room_left();
        let len = match self.encoded_len() {
            Ok(len) => len,
            Err(e) => { return Err(e); },
        };
        if len.0 > room.0 {
            return Err(Error::new(ErrorKind::Overlength));
        }
        let value_len = match self.value_len() {
            Ok(len) => len,
            Err(e) => { return Err(e); },
        };
        let header = Header::new(T::fixed_tag(), value_len);
        proof {
            T::lemma_fixed_tag_valid();
        }
        match header.encode(writer) {
            Ok(_) => {},
            Err(e) => { return Err(e); },
        }
        let r = self.encode_value(writer);
        assert(old(writer).written() + spec_header_octets(header) + T::spec_encode_value(
            self.deep_view(),
        ) == old(writer).written() + Self::spec_encode(self.deep_view()));
        r
    }
}

} // verus!
