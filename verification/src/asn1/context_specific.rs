//! Context-specific tags, in the explicit mode: a tag of the context around
//! a whole value.

use crate::asn1::any::{spec_decode_any, Any};
use crate::decode::Decode;
use crate::decoder::{spec_contents, spec_finish, Decoder};
use crate::encode::{spec_encode_tagged, spec_encoded_len, Encode};
use crate::error::{Error, ErrorKind};
use crate::header::{
    lemma_header_octets_unique, lemma_header_round_trip, spec_decode_header, spec_header_octets,
    Header,
};
use crate::length::{Length, MAX_LENGTH};
use crate::reader::Reader;
use crate::tag::{lemma_tag_octet_round_trip, Tag, TagNumber, MAX_TAG_NUMBER};
use crate::writer::{spec_appended, Writer};
use vstd::prelude::*;

verus! {

/// A value under an explicit context-specific tag.
#[derive(Copy, Clone, Debug, Eq, PartialEq)]
pub struct ContextSpecific<T> {
    /// The number of the context-specific tag.
    pub tag_number: TagNumber,
    /// The value under the tag.
    pub value: T,
}

/// The tag around a value that is tagged explicitly: a constructed one.
pub open spec fn spec_explicit_tag(number: TagNumber) -> Tag {
    Tag::ContextSpecific { constructed: true, number }
}

/// Whether a tag is the context-specific one with the given number.
pub open spec fn spec_is_context_specific(tag: Tag, number: TagNumber) -> bool {
    match tag {
        Tag::ContextSpecific { number: found, .. } => found == number,
        _ => false,
    }
}

/// The encoding of a value under an explicit tag: the tag, the length of the
/// encoding of the value, and that encoding.
pub open spec fn spec_encode_explicit(number: TagNumber, inner: Seq<u8>) -> Seq<u8> {
    spec_encode_tagged(spec_explicit_tag(number), inner)
}

/// The value under the explicit tag with the given number at the start of
/// `input`, and the number of bytes that it takes with its tag. There is none
/// at the end of the input and before another tag. Where there is one, it
/// must be constructed, and its contents must be one value and no more.
pub open spec fn spec_decode_explicit<V>(
    input: Seq<u8>,
    number: TagNumber,
    decode: spec_fn(Seq<u8>) -> Result<(V, nat), ErrorKind>,
) -> Result<(Option<V>, nat), ErrorKind> {
    if input.len() == 0 {
        Ok((None, 0nat))
    } else {
        match Tag::spec_from_octet(input[0]) {
            Err(kind) => Err(kind),
            Ok(tag) => if !spec_is_context_specific(tag, number) {
                Ok((None, 0nat))
            } else {
                match spec_decode_any(input) {
                    Err(kind) => Err(kind),
                    Ok((any, used)) => if !any.tag.spec_is_constructed() {
                        Err(ErrorKind::Noncanonical { tag: any.tag })
                    } else {
                        match decode(any.value) {
                            Err(kind) => Err(kind),
                            Ok((value, inner)) => match spec_finish(
                                inner,
                                any.value.len(),
                                value,
                            ) {
                                Err(kind) => Err(kind),
                                Ok(value) => Ok((Some(value), used)),
                            },
                        }
                    },
                }
            },
        }
    }
}

impl<T> ContextSpecific<T> {
    /// Decodes the value under the explicit tag with the given number, if
    /// there is one at the cursor. Where there is none, and where it fails,
    /// it leaves the cursor where it is.
    pub fn decode_explicit<'a>(decoder: &mut Decoder<'a>, tag_number: TagNumber) -> (r: Result<
        Option<ContextSpecific<T>>,
        Error,
    >) where T: Decode<'a>
        ensures
            final(decoder).input() == old(decoder).input(),
            match r {
                Ok(Some(field)) => {
                    &&& spec_decode_explicit(
                        old(decoder).unread(),
                        tag_number,
                        |s: Seq<u8>| T::spec_decode(s),
                    ) is Ok
                    &&& spec_decode_explicit(
                        old(decoder).unread(),
                        tag_number,
                        |s: Seq<u8>| T::spec_decode(s),
                    )->Ok_0.0 == Some(field.value.deep_view())
                    &&& field.tag_number == tag_number
                    &&& final(decoder).consumed() == old(decoder).consumed() + spec_decode_explicit(
                        old(decoder).unread(),
                        tag_number,
                        |s: Seq<u8>| T::spec_decode(s),
                    )->Ok_0.1
                },
                Ok(None) => {
                    &&& spec_decode_explicit(
                        old(decoder).unread(),
                        tag_number,
                        |s: Seq<u8>| T::spec_decode(s),
                    ) == Ok::<(Option<T::V>, nat), ErrorKind>((None, 0nat))
                    &&& *final(decoder) == *old(decoder)
                },
                Err(e) => {
                    &&& *final(decoder) == *old(decoder)
                    &&& spec_decode_explicit(
                        old(decoder).unread(),
                        tag_number,
                        |s: Seq<u8>| T::spec_decode(s),
                    ) == Err::<(Option<T::V>, nat), ErrorKind>(e.kind)
                },
            },
    {
        let byte = match decoder.peek_byte() {
            Some(byte) => byte,
            None => { return Ok(None); },
        };
        let tag = match Tag::from_octet(byte) {
            Ok(tag) => tag,
            Err(e) => { return Err(e); },
        };
        let found = match tag {
            Tag::ContextSpecific { number, .. } => number == tag_number,
            _ => false,
        };
        if !found {
            return Ok(None);
        }
        let start = *decoder;
        let any = match Any::decode(decoder) {
            Ok(any) => any,
            Err(e) => { return Err(e); },
        };
        if !any.tag().is_constructed() {
            *decoder = start;
            return Err(any.tag().non_canonical_error());
        }
        let mut body = match Decoder::new(any.value()) {
            Ok(body) => body,
            Err(e) => {
                *decoder = start;
                return Err(e);
            },
        };
        let value = match T::decode(&mut body) {
            Ok(value) => value,
            Err(e) => {
                *decoder = start;
                return Err(e);
            },
        };
        match body.finish(value) {
            Ok(value) => Ok(Some(ContextSpecific { tag_number, value })),
            Err(e) => {
                *decoder = start;
                Err(e)
            },
        }
    }

    /// The length of the encoding, which is the number of bytes that `encode`
    /// writes.
    pub fn encoded_len(&self) -> (r: Result<Length, Error>) where T: Encode
        ensures
            r == spec_encoded_len(
                spec_encode_explicit(self.tag_number, T::spec_encode(self.value.deep_view())).len(),
            ),
    {
        let inner = match self.value.encoded_len() {
            Ok(len) => len,
            Err(e) => { return Err(e); },
        };
        let header = Header::new(
            Tag::ContextSpecific { constructed: true, number: self.tag_number },
            inner,
        );
        match header.encoded_len() {
            Ok(len) => len.checked_add(inner),
            Err(e) => Err(e),
        }
    }

    /// Writes the encoding: all of it or, where it is longer than the largest
    /// length or than the room in the writer, nothing.
    pub fn encode<W: Writer>(&self, writer: &mut W) -> (r: Result<(), Error>) where T: Encode
        requires
            self.tag_number.0 <= MAX_TAG_NUMBER,
        ensures
            spec_appended(
                spec_encode_explicit(self.tag_number, T::spec_encode(self.value.deep_view())),
                old(writer).written(),
                old(writer).room(),
                r,
                final(writer).written(),
                final(writer).room(),
            ),
    {
        let room = writer.room_left();
        let len = match self.encoded_len() {
            Ok(len) => len,
            Err(e) => { return Err(e); },
        };
        if len.0 > room.0 {
            return Err(Error::new(ErrorKind::Overlength));
        }
        let inner = match self.value.encoded_len() {
            Ok(len) => len,
            Err(e) => { return Err(e); },
        };
        let header = Header::new(
            Tag::ContextSpecific { constructed: true, number: self.tag_number },
            inner,
        );
        match header.encode(writer) {
            Ok(_) => {},
            Err(e) => { return Err(e); },
        }
        let r = self.value.encode(writer);
        assert(old(writer).written() + spec_header_octets(header) + T::spec_encode(
            self.value.deep_view(),
        ) == old(writer).written() + spec_encode_explicit(
            self.tag_number,
            T::spec_encode(self.value.deep_view()),
        ));
        r
    }
}

/// A value under an explicit tag decodes from its encoding, whatever follows
/// it, where the value decodes from its own.
pub proof fn lemma_explicit_encode_decode<V>(
    number: TagNumber,
    value: V,
    inner: Seq<u8>,
    decode: spec_fn(Seq<u8>) -> Result<(V, nat), ErrorKind>,
    rest: Seq<u8>,
)
    requires
        number.0 <= MAX_TAG_NUMBER,
        spec_encode_explicit(number, inner).len() <= MAX_LENGTH,
        decode(inner) == Ok::<(V, nat), ErrorKind>((value, inner.len())),
    ensures
        spec_decode_explicit(spec_encode_explicit(number, inner) + rest, number, decode) == Ok::<
            (Option<V>, nat),
            ErrorKind,
        >((Some(value), spec_encode_explicit(number, inner).len())),
{
    let tag = spec_explicit_tag(number);
    let header = Header { tag, length: Length(inner.len() as u32) };
    let input = spec_encode_explicit(number, inner) + rest;
    lemma_tag_octet_round_trip(tag);
    lemma_header_round_trip(header, inner + rest);
    assert(input == spec_header_octets(header) + (inner + rest));
    let used = spec_header_octets(header).len();
    assert(input[0] == tag.spec_octet());
    assert(input.skip(used as int) == inner + rest);
    assert((inner + rest).take(inner.len() as int) == inner);
}

/// Input from which a value under an explicit tag decodes starts with the
/// encoding of what is under the tag, under that tag, and that is what
/// decoding takes.
pub proof fn lemma_explicit_decode_encode<V>(
    input: Seq<u8>,
    number: TagNumber,
    decode: spec_fn(Seq<u8>) -> Result<(V, nat), ErrorKind>,
)
    requires
        spec_decode_explicit(input, number, decode) is Ok,
        spec_decode_explicit(input, number, decode)->Ok_0.0 is Some,
    ensures
        number.0 <= MAX_TAG_NUMBER,
        spec_decode_any(input) is Ok,
        spec_decode_explicit(input, number, decode)->Ok_0.1 == spec_decode_any(input)->Ok_0.1,
        spec_decode_any(input)->Ok_0.1 <= input.len(),
        decode(spec_decode_any(input)->Ok_0.0.value) == Ok::<(V, nat), ErrorKind>(
            (
                spec_decode_explicit(input, number, decode)->Ok_0.0->0,
                spec_decode_any(input)->Ok_0.0.value.len(),
            ),
        ),
        input.take(spec_decode_any(input)->Ok_0.1 as int) == spec_encode_explicit(
            number,
            spec_decode_any(input)->Ok_0.0.value,
        ),
{
    let (header, used) = spec_decode_header(input)->Ok_0;
    lemma_header_octets_unique(input);
    crate::tag::lemma_octet_tag_round_trip(input[0]);
    let contents = spec_contents(header.length, input.skip(used as int))->Ok_0;
    assert(header.length == Length(contents.len() as u32));
    assert(header.tag == spec_explicit_tag(number));
    assert(input.take((used + header.length@) as int) == input.take(used as int) + contents);
}

} // verus!
