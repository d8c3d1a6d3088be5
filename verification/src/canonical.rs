//! The laws of a canonical encoding: a value decodes from its encoding, and
//! from nothing else.

use crate::decode::{Choice, Decode, DecodeValue};
use crate::decoder::spec_contents;
use crate::encode::{Encode, EncodeValue};
use crate::error::ErrorKind;
use crate::header::{
    lemma_header_octets_unique, lemma_header_round_trip, spec_decode_header, spec_header_octets,
    Header,
};
use crate::length::{Length, MAX_LENGTH};
use crate::tag::{FixedTag, Tag};
use vstd::prelude::*;

verus! {

/// The laws of the contents of a type with one tag.
pub trait CanonicalValue<'a>: DecodeValue<'a> + EncodeValue + FixedTag {
    /// Whether `value` is a value of the type.
    spec fn spec_valid_value(value: Self::V) -> bool;

    /// The contents of a value decode to that value.
    proof fn lemma_encode_decode_value(value: Self::V)
        requires
            Self::spec_valid_value(value),
            Self::spec_encode_value(value).len() <= MAX_LENGTH,
        ensures
            Self::spec_decode_value(
                Header {
                    tag: Self::spec_fixed_tag(),
                    length: Length(Self::spec_encode_value(value).len() as u32),
                },
                Self::spec_encode_value(value),
            ) == Ok::<Self::V, ErrorKind>(value),
    ;

    /// Contents that decode are the contents of the value that they decode
    /// to.
    proof fn lemma_decode_encode_value(header: Header, contents: Seq<u8>)
        requires
            header.tag == Self::spec_fixed_tag(),
            header.length@ == contents.len(),
            Self::spec_decode_value(header, contents) is Ok,
        ensures
            Self::spec_valid_value(Self::spec_decode_value(header, contents)->Ok_0),
            Self::spec_encode_value(Self::spec_decode_value(header, contents)->Ok_0) == contents,
    ;
}

/// The laws of an encoding.
pub trait Canonical<'a>: Decode<'a> + Encode {
    /// Whether `value` is a value of the type.
    spec fn spec_valid(value: Self::V) -> bool;

    /// Whether `rest` can follow the encoding of `value` and be told from it.
    /// Anything can follow a value that is there; what follows an absent one
    /// must not look like it.
    spec fn spec_may_precede(value: Self::V, rest: Seq<u8>) -> bool;

    /// Nothing is something that can follow any value.
    proof fn lemma_may_precede_nothing(value: Self::V)
        ensures
            Self::spec_may_precede(value, Seq::<u8>::empty()),
    ;

    /// The encoding of a value decodes to that value and is taken whole,
    /// whatever follows it.
    proof fn lemma_encode_decode(value: Self::V, rest: Seq<u8>)
        requires
            Self::spec_valid(value),
            Self::spec_encode(value).len() <= MAX_LENGTH,
            Self::spec_may_precede(value, rest),
        ensures
            Self::spec_decode(Self::spec_encode(value) + rest) == Ok::<(Self::V, nat), ErrorKind>(
                (value, Self::spec_encode(value).len()),
            ),
    ;

    /// Input that decodes starts with the encoding of the value that it
    /// decodes to, and that is what decoding takes: no value has a second
    /// encoding.
    proof fn lemma_decode_encode(input: Seq<u8>)
        requires
            Self::spec_decode(input) is Ok,
        ensures
            Self::spec_valid(Self::spec_decode(input)->Ok_0.0),
            Self::spec_decode(input)->Ok_0.1 <= input.len(),
            Self::spec_encode(Self::spec_decode(input)->Ok_0.0) == input.take(
                Self::spec_decode(input)->Ok_0.1 as int,
            ),
    ;
}

impl<'a, T> Canonical<'a> for T where T: CanonicalValue<'a> {
    open spec fn spec_valid(value: Self::V) -> bool {
        T::spec_valid_value(value)
    }

    open spec fn spec_may_precede(value: Self::V, rest: Seq<u8>) -> bool {
        true
    }

    proof fn lemma_may_precede_nothing(value: Self::V) {
    }

    proof fn lemma_encode_decode(value: Self::V, rest: Seq<u8>) {
        let contents = T::spec_encode_value(value);
        let header = Header { tag: T::spec_fixed_tag(), length: Length(contents.len() as u32) };
        let input = T::spec_encode(value) + rest;
        T::lemma_fixed_tag_valid();
        T::lemma_encode_decode_value(value);
        lemma_header_round_trip(header, contents + rest);
        assert(input == spec_header_octets(header) + (contents + rest));
        let used = spec_header_octets(header).len();
        assert(input.skip(used as int) == contents + rest);
        assert((contents + rest).take(contents.len() as int) == contents);
    }

    proof fn lemma_decode_encode(input: Seq<u8>) {
        let (header, used) = spec_decode_header(input)->Ok_0;
        lemma_header_octets_unique(input);
        let contents = spec_contents(header.length, input.skip(used as int))->Ok_0;
        T::lemma_decode_encode_value(header, contents);
        assert(header.length == Length(contents.len() as u32));
        assert(input.take((used + header.length@) as int) == input.take(used as int) + contents);
    }
}

impl<'a, T> Canonical<'a> for Option<T> where T: Choice<'a> + Canonical<'a> {
    open spec fn spec_valid(value: Option<T::V>) -> bool {
        match value {
            Some(present) => T::spec_valid(present),
            None => true,
        }
    }

    /// What follows an absent value must not start with a tag that `T`
    /// decodes, nor with an octet that is no tag.
    open spec fn spec_may_precede(value: Option<T::V>, rest: Seq<u8>) -> bool {
        match value {
            Some(present) => T::spec_may_precede(present, rest),
            None => rest.len() == 0 || (Tag::spec_from_octet(rest[0]) is Ok && !T::spec_can_decode(
                Tag::spec_from_octet(rest[0])->Ok_0,
            )),
        }
    }

    proof fn lemma_may_precede_nothing(value: Option<T::V>) {
        if let Some(present) = value {
            T::lemma_may_precede_nothing(present);
        }
    }

    proof fn lemma_encode_decode(value: Option<T::V>, rest: Seq<u8>) {
        match value {
            Some(present) => {
                T::lemma_encode_decode(present, rest);
                T::lemma_decodes_own_tags(T::spec_encode(present) + rest);
            },
            None => {
                assert(Seq::<u8>::empty() + rest == rest);
            },
        }
    }

    proof fn lemma_decode_encode(input: Seq<u8>) {
        match Self::spec_decode(input)->Ok_0.0 {
            Some(present) => {
                T::lemma_decode_encode(input);
            },
            None => {
                assert(input.take(0) == Seq::<u8>::empty());
            },
        }
    }
}

} // verus!
