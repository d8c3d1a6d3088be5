//! Traits for decoding.

use crate::decoder::{spec_contents, spec_finish, Decoder};
use crate::error::{Error, ErrorKind};
use crate::header::{spec_decode_header, Header};
use crate::length::MAX_LENGTH;
use crate::reader::Reader;
use crate::tag::{FixedTag, Tag};
use vstd::prelude::*;

verus! {

/// What decoding a whole input gives, from its length and from what
/// decoding at its start gives: the value, if the input is no longer than
/// the largest length and the value takes all of it.
pub open spec fn spec_from_der<V>(input_len: nat, decoded: Result<(V, nat), ErrorKind>) -> Result<
    V,
    ErrorKind,
> {
    if input_len > MAX_LENGTH {
        Err(ErrorKind::Overflow)
    } else {
        match decoded {
            Err(kind) => Err(kind),
            Ok((value, used)) => spec_finish(used, input_len, value),
        }
    }
}

/// What decoding a value with its header gives, from the input at the
/// cursor, the tag asked for and what the contents decode to: the header is
/// read, its tag is held against the one asked for, as many bytes as the
/// header says are taken, and these are decoded.
pub open spec fn spec_decode_tagged<V>(
    input: Seq<u8>,
    tag: Tag,
    decode_value: spec_fn(Header, Seq<u8>) -> Result<V, ErrorKind>,
) -> Result<(V, nat), ErrorKind> {
    match spec_decode_header(input) {
        Err(kind) => Err(kind),
        Ok((header, used)) => if header.tag != tag {
            Err(ErrorKind::TagUnexpected { expected: Some(tag), actual: header.tag })
        } else {
            match spec_contents(header.length, input.skip(used as int)) {
                Err(kind) => Err(kind),
                Ok(contents) => match decode_value(header, contents) {
                    Err(kind) => Err(kind),
                    Ok(value) => Ok((value, used + header.length@)),
                },
            }
        },
    }
}

/// Decoding the contents of a value whose header has been read.
pub trait DecodeValue<'a>: Sized + DeepView {
    /// The value that `contents` stand for under `header`, or why they stand
    /// for none.
    spec fn spec_decode_value(header: Header, contents: Seq<u8>) -> Result<Self::V, ErrorKind>;

    /// Reads as many bytes as `header` says and decodes them. Where the bytes
    /// are not there, the cursor stays where it is. Where they are there and
    /// are no value, the cursor stays behind them: `decode` puts it back.
    fn decode_value(decoder: &mut Decoder<'a>, header: Header) -> (r: Result<Self, Error>)
        ensures
            final(decoder).input() == old(decoder).input(),
            match r {
                Ok(value) => {
                    &&& spec_contents(header.length, old(decoder).unread()) is Ok
                    &&& Self::spec_decode_value(
                        header,
                        spec_contents(header.length, old(decoder).unread())->Ok_0,
                    ) == Ok::<Self::V, ErrorKind>(value.deep_view())
                    &&& final(decoder).consumed() == old(decoder).consumed() + header.length@
                },
                Err(e) => match spec_contents(header.length, old(decoder).unread()) {
                    Err(kind) => {
                        &&& e.kind == kind
                        &&& final(decoder).consumed() == old(decoder).consumed()
                    },
                    Ok(contents) => {
                        &&& Self::spec_decode_value(header, contents) == Err::<
                            Self::V,
                            ErrorKind,
                        >(e.kind)
                        &&& final(decoder).consumed() == old(decoder).consumed()
                            + header.length@
                    },
                },
            },
    ;
}

/// Decoding a value with its header.
pub trait Decode<'a>: Sized + DeepView {
    /// The value at the start of `input` and the number of bytes it takes, or
    /// why there is none.
    spec fn spec_decode(input: Seq<u8>) -> Result<(Self::V, nat), ErrorKind>;

    /// Decodes the value at the cursor and moves the cursor behind it, or
    /// fails and leaves the cursor where it is.
    fn decode(decoder: &mut Decoder<'a>) -> (r: Result<Self, Error>)
        ensures
            final(decoder).input() == old(decoder).input(),
            match r {
                Ok(value) => {
                    &&& Self::spec_decode(old(decoder).unread()) is Ok
                    &&& Self::spec_decode(old(decoder).unread())->Ok_0.0 == value.deep_view()
                    &&& final(decoder).consumed() == old(decoder).consumed() + Self::spec_decode(
                        old(decoder).unread(),
                    )->Ok_0.1
                },
                Err(e) => {
                    &&& *final(decoder) == *old(decoder)
                    &&& Self::spec_decode(old(decoder).unread()) == Err::<
                        (Self::V, nat),
                        ErrorKind,
                    >(e.kind)
                },
            },
    ;

    /// Decodes the value that `bytes` hold, and refuses bytes behind it.
    fn from_der(bytes: &'a [u8]) -> (r: Result<Self, Error>)
        ensures
            match r {
                Ok(value) => spec_from_der(bytes@.len(), Self::spec_decode(bytes@)) == Ok::<
                    Self::V,
                    ErrorKind,
                >(value.deep_view()),
                Err(e) => spec_from_der(bytes@.len(), Self::spec_decode(bytes@)) == Err::<
                    Self::V,
                    ErrorKind,
                >(e.kind),
            },
    {
        let mut decoder = match Decoder::new(bytes) {
            Ok(decoder) => decoder,
            Err(e) => { return Err(e); },
        };
        let value = match Self::decode(&mut decoder) {
            Ok(value) => value,
            Err(e) => { return Err(e); },
        };
        decoder.finish(value)
    }
}

/// Types that can say of a tag whether they decode values that carry it.
pub trait Choice<'a>: Decode<'a> {
    /// Whether the type decodes values with this tag.
    spec fn spec_can_decode(tag: Tag) -> bool;

    /// Is the provided tag one that this type decodes?
    fn can_decode(tag: Tag) -> (r: bool)
        ensures
            r == Self::spec_can_decode(tag),
    ;

    /// Whatever the type decodes starts with a tag that the type says it
    /// decodes.
    proof fn lemma_decodes_own_tags(input: Seq<u8>)
        requires
            Self::spec_decode(input) is Ok,
        ensures
            input.len() > 0,
            Tag::spec_from_octet(input[0]) is Ok,
            Self::spec_can_decode(Tag::spec_from_octet(input[0])->Ok_0),
    ;
}

impl<'a, T> Decode<'a> for T where T: DecodeValue<'a> + FixedTag {
    open spec fn spec_decode(input: Seq<u8>) -> Result<(Self::V, nat), ErrorKind> {
        spec_decode_tagged(
            input,
            T::spec_fixed_tag(),
            |header: Header, contents: Seq<u8>| T::spec_decode_value(header, contents),
        )
    }

    fn decode(decoder: &mut Decoder<'a>) -> (r: Result<T, Error>) {
        let start = *decoder;
        let header = match Header::decode(decoder) {
            Ok(header) => header,
            Err(e) => { return Err(e); },
        };
        match header.tag.assert_eq(T::fixed_tag()) {
            Ok(_) => {},
            Err(e) => {
                *decoder = start;
                return Err(e);
            },
        }
        match T::decode_value(decoder, header) {
            Ok(value) => Ok(value),
            Err(e) => {
                *decoder = start;
                Err(e)
            },
        }
    }
}

impl<'a, T> Choice<'a> for T where T: DecodeValue<'a> + FixedTag {
    open spec fn spec_can_decode(tag: Tag) -> bool {
        tag == T::spec_fixed_tag()
    }

    fn can_decode(tag: Tag) -> (r: bool) {
        tag == T::fixed_tag()
    }

    proof fn lemma_decodes_own_tags(input: Seq<u8>) {
    }
}

/// Input that ends before the contents that its header announces is
/// incomplete, whatever the contents are.
pub proof fn lemma_truncated_is_incomplete<'a, T: DecodeValue<'a> + FixedTag>(input: Seq<u8>)
    requires
        spec_decode_header(input) is Ok,
        spec_decode_header(input)->Ok_0.0.tag == T::spec_fixed_tag(),
        input.len() < spec_decode_header(input)->Ok_0.1 + spec_decode_header(
            input,
        )->Ok_0.0.length@,
    ensures
        T::spec_decode(input) is Err,
        T::spec_decode(input)->Err_0 is Incomplete,
        T::spec_decode(input)->Err_0->expected_len == spec_decode_header(input)->Ok_0.0.length,
        T::spec_decode(input)->Err_0->actual_len@ == input.len() - spec_decode_header(
            input,
        )->Ok_0.1,
{
    crate::header::lemma_header_octets_unique(input);
}

} // verus!
