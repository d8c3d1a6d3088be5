//! ASN.1 `ANY`: a value of whatever type, as its tag and its contents.

use crate::asn1::utf8_string::Utf8String;
use crate::canonical::Canonical;
use crate::decode::{Choice, Decode, DecodeValue};
use crate::decoder::{spec_contents, Decoder};
use crate::encode::{spec_encode_tagged, Encode};
use crate::error::{Error, ErrorKind};
use crate::header::{
    lemma_header_octets_unique, lemma_header_round_trip, spec_decode_header, spec_header_octets,
    Header,
};
use crate::length::{Length, MAX_LENGTH};
use crate::reader::Reader;
use crate::tag::{FixedTag, Tag};
use crate::writer::Writer;
use vstd::prelude::*;

verus! {

/// A tag and the contents of a value that carries it.
pub struct SpecAny {
    pub tag: Tag,
    pub value: Seq<u8>,
}

/// The tag and the contents of the value at the start of `input`, and the
/// number of bytes that the value takes.
pub open spec fn spec_decode_any(input: Seq<u8>) -> Result<(SpecAny, nat), ErrorKind> {
    match spec_decode_header(input) {
        Err(kind) => Err(kind),
        Ok((header, used)) => match spec_contents(header.length, input.skip(used as int)) {
            Err(kind) => Err(kind),
            Ok(contents) => Ok(
                (SpecAny { tag: header.tag, value: contents }, used + header.length@),
            ),
        },
    }
}

/// What decoding an `ANY` as a type with one tag gives, from the tag asked
/// for and from what the contents decode to.
pub open spec fn spec_decode_into<V>(any: SpecAny, tag: Tag, decoded: Result<V, ErrorKind>) -> Result<
    V,
    ErrorKind,
> {
    if any.tag != tag {
        Err(ErrorKind::TagUnexpected { expected: Some(tag), actual: any.tag })
    } else {
        decoded
    }
}

/// ASN.1 `ANY`: a value of whatever type, with its contents borrowed from
/// where they were read.
#[derive(Copy, Clone, Debug, Eq, PartialEq)]
pub struct Any<'a> {
    tag: Tag,
    value: &'a [u8],
}

impl<'a> View for Any<'a> {
    type V = SpecAny;

    closed spec fn view(&self) -> SpecAny {
        SpecAny { tag: self.tag, value: self.value@ }
    }
}

impl<'a> DeepView for Any<'a> {
    type V = SpecAny;

    open spec fn deep_view(&self) -> SpecAny {
        self@
    }
}

impl<'a> Any<'a> {
    /// The tag fits into one octet, and the contents are no more than the
    /// largest length.
    #[verifier::type_invariant]
    pub open spec fn well_formed(self) -> bool {
        self@.tag.valid() && self@.value.len() <= MAX_LENGTH
    }

    /// The value with the given tag and contents.
    pub fn new(tag: Tag, bytes: &'a [u8]) -> (r: Result<Any<'a>, Error>)
        ensures
            match r {
                Ok(any) => any@ == (SpecAny { tag, value: bytes@ }) && tag.valid() && bytes@.len()
                    <= MAX_LENGTH,
                Err(e) => e.kind == if bytes@.len() > MAX_LENGTH {
                    ErrorKind::Overflow
                } else {
                    ErrorKind::TagNumberInvalid
                } && !(tag.valid() && bytes@.len() <= MAX_LENGTH),
            },
    {
        if bytes.len() > MAX_LENGTH as usize {
            return Err(Error::new(ErrorKind::Overflow));
        }
        let valid = match tag {
            Tag::Application { number, .. } => number.0 <= crate::tag::MAX_TAG_NUMBER,
            Tag::ContextSpecific { number, .. } => number.0 <= crate::tag::MAX_TAG_NUMBER,
            Tag::Private { number, .. } => number.0 <= crate::tag::MAX_TAG_NUMBER,
            _ => true,
        };
        if !valid {
            return Err(Error::new(ErrorKind::TagNumberInvalid));
        }
        Ok(Any { tag, value: bytes })
    }

    /// The tag of the value.
    pub fn tag(&self) -> (r: Tag)
        ensures
            r == self@.tag,
            r.valid(),
    {
        proof {
            use_type_invariant(self);
        }
        self.tag
    }

    /// The contents of the value.
    pub fn value(&self) -> (r: &'a [u8])
        ensures
            r@ == self@.value,
            r@.len() <= MAX_LENGTH,
    {
        proof {
            use_type_invariant(self);
        }
        self.value
    }

    /// Decodes the contents as a value of a type with one tag, which must be
    /// the tag of this value; the contents must be used up.
    pub fn decode_into<T: DecodeValue<'a> + FixedTag>(self) -> (r: Result<T, Error>)
        ensures
            match r {
                Ok(value) => spec_decode_into(
                    self@,
                    T::spec_fixed_tag(),
                    T::spec_decode_value(
                        Header { tag: self@.tag, length: Length(self@.value.len() as u32) },
                        self@.value,
                    ),
                ) == Ok::<T::V, ErrorKind>(value.deep_view()),
                Err(e) => spec_decode_into(
                    self@,
                    T::spec_fixed_tag(),
                    T::spec_decode_value(
                        Header { tag: self@.tag, length: Length(self@.value.len() as u32) },
                        self@.value,
                    ),
                ) == Err::<T::V, ErrorKind>(e.kind),
            },
    {
        proof {
            use_type_invariant(&self);
        }
        match self.tag.assert_eq(T::fixed_tag()) {
            Ok(_) => {},
            Err(e) => { return Err(e); },
        }
        let header = Header { tag: self.tag, length: Length(self.value.len() as u32) };
        let mut decoder = match Decoder::new(self.value) {
            Ok(decoder) => decoder,
            Err(e) => { return Err(e); },
        };
        assert(self.value@.take(self.value@.len() as int) == self.value@);
        let result = match T::decode_value(&mut decoder, header) {
            Ok(result) => result,
            Err(e) => { return Err(e); },
        };
        decoder.finish(result)
    }

    /// Decodes the contents as a `UTF8String`.
    pub fn utf8_string(self) -> (r: Result<Utf8String<'a>, Error>)
        ensures
            match r {
                Ok(string) => self@.tag == Tag::Utf8String && crate::asn1::utf8_string::spec_utf8_bytes(
                    self@.value,
                ) == Ok::<Seq<u8>, ErrorKind>(string@),
                Err(e) => e.kind == if self@.tag != Tag::Utf8String {
                    ErrorKind::TagUnexpected { expected: Some(Tag::Utf8String), actual: self@.tag }
                } else {
                    ErrorKind::Utf8
                } && !(self@.tag == Tag::Utf8String && vstd::utf8::valid_utf8(self@.value)),
            },
    {
        self.decode_into()
    }
}

impl<'a> Decode<'a> for Any<'a> {
    open spec fn spec_decode(input: Seq<u8>) -> Result<(SpecAny, nat), ErrorKind> {
        spec_decode_any(input)
    }

    fn decode(decoder: &mut Decoder<'a>) -> (r: Result<Any<'a>, Error>) {
        let ghost s = decoder.unread();
        let start = *decoder;
        let header = match Header::decode(decoder) {
            Ok(header) => header,
            Err(e) => { return Err(e); },
        };
        proof {
            lemma_header_octets_unique(s);
        }
        let value = match decoder.read_slice(header.length) {
            Ok(value) => value,
            Err(e) => {
                *decoder = start;
                return Err(e);
            },
        };
        Ok(Any { tag: header.tag, value })
    }
}

impl<'a> Choice<'a> for Any<'a> {
    /// Whatever the tag, the value is an `ANY`.
    open spec fn spec_can_decode(tag: Tag) -> bool {
        true
    }

    fn can_decode(tag: Tag) -> (r: bool) {
        true
    }

    proof fn lemma_decodes_own_tags(input: Seq<u8>) {
    }
}

impl<'a> Encode for Any<'a> {
    open spec fn spec_encode(value: SpecAny) -> Seq<u8> {
        spec_encode_tagged(value.tag, value.value)
    }

    fn encoded_len(&self) -> (r: Result<Length, Error>) {
        let value_len = Length(self.value().len() as u32);
        let header = Header::new(self.tag(), value_len);
        match header.encoded_len() {
            Ok(len) => len.checked_add(value_len),
            Err(e) => Err(e),
        }
    }

    fn encode<W: Writer>(&self, writer: &mut W) -> (r: Result<(), Error>) {
        let room = writer.room_left();
        let len = match self.encoded_len() {
            Ok(len) => len,
            Err(e) => { return Err(e); },
        };
        if len.0 > room.0 {
            return Err(Error::new(ErrorKind::Overlength));
        }
        let header = Header::new(self.tag(), Length(self.value().len() as u32));
        match header.encode(writer) {
            Ok(_) => {},
            Err(e) => { return Err(e); },
        }
        let r = writer.write(self.value());
        assert(old(writer).written() + spec_header_octets(header) + self@.value == old(
            writer,
        ).written() + Self::spec_encode(self@));
        r
    }
}

impl<'a> Canonical<'a> for Any<'a> {
    open spec fn spec_valid(value: SpecAny) -> bool {
        value.tag.valid()
    }

    open spec fn spec_may_precede(value: SpecAny, rest: Seq<u8>) -> bool {
        true
    }

    proof fn lemma_may_precede_nothing(value: SpecAny) {
    }

    proof fn lemma_encode_decode(value: SpecAny, rest: Seq<u8>) {
        let header = Header { tag: value.tag, length: Length(value.value.len() as u32) };
        let input = spec_encode_tagged(value.tag, value.value) + rest;
        lemma_header_round_trip(header, value.value + rest);
        assert(input == spec_header_octets(header) + (value.value + rest));
        let used = spec_header_octets(header).len();
        assert(input.skip(used as int) == value.value + rest);
        assert((value.value + rest).take(value.value.len() as int) == value.value);
    }

    proof fn lemma_decode_encode(input: Seq<u8>) {
        let (header, used) = spec_decode_header(input)->Ok_0;
        lemma_header_octets_unique(input);
        let contents = spec_contents(header.length, input.skip(used as int))->Ok_0;
        assert(header.length == Length(contents.len() as u32));
        assert(input.take((used + header.length@) as int) == input.take(used as int) + contents);
    }
}

} // verus!
