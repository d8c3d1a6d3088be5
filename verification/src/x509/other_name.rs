//! The `OtherName` of X.509.

use crate::asn1::any::{spec_decode_any, Any, SpecAny};
use crate::asn1::context_specific::{
    lemma_explicit_decode_encode, lemma_explicit_encode_decode, spec_decode_explicit,
    spec_encode_explicit, spec_explicit_tag, ContextSpecific,
};
use crate::asn1::oid::ObjectIdentifier;
use crate::canonical::{Canonical, CanonicalValue};
use crate::decode::{Decode, DecodeValue};
use crate::decoder::{spec_finish, Decoder};
use crate::encode::{Encode, EncodeValue};
use crate::error::{Error, ErrorKind};
use crate::header::Header;
use crate::length::Length;
use crate::reader::Reader;
use crate::tag::{FixedTag, Tag, TagNumber};
use crate::writer::{lemma_first_not_appended, lemma_second_appended, Writer};
use vstd::prelude::*;

verus! {

/// An `OtherName`, as the contents of its object identifier and the tag and
/// contents of its value.
pub struct SpecOtherName {
    pub type_id: Seq<u8>,
    pub value: SpecAny,
}

/// OtherName as defined in [RFC 5280 Section 4.2.1.6].
///
/// ```text
/// OtherName ::= SEQUENCE {
///     type-id    OBJECT IDENTIFIER,
///     value      [0] EXPLICIT ANY DEFINED BY type-id
/// }
/// ```
///
/// [RFC 5280 Section 4.2.1.6]: https://datatracker.ietf.org/doc/html/rfc5280#section-4.2.1.6
#[derive(Clone, Debug, Eq, PartialEq)]
pub struct OtherName<'a> {
    pub type_id: ObjectIdentifier,
    pub value: Any<'a>,
}

impl<'a> DeepView for OtherName<'a> {
    type V = SpecOtherName;

    open spec fn deep_view(&self) -> SpecOtherName {
        SpecOtherName { type_id: self.type_id@, value: self.value@ }
    }
}

/// The contents of the SEQUENCE that holds an `OtherName`: the object
/// identifier, then the value under the explicit context-specific tag 0.
pub open spec fn spec_other_name_contents(name: SpecOtherName) -> Seq<u8> {
    ObjectIdentifier::spec_encode(name.type_id) + spec_encode_explicit(
        TagNumber(0),
        Any::spec_encode(name.value),
    )
}

/// The `OtherName` that the contents of a SEQUENCE hold: an object
/// identifier, a value under the explicit context-specific tag 0, and nothing
/// behind them.
pub open spec fn spec_other_name(contents: Seq<u8>) -> Result<SpecOtherName, ErrorKind> {
    match ObjectIdentifier::spec_decode(contents) {
        Err(kind) => Err(kind),
        Ok((type_id, first)) => match spec_decode_explicit(
            contents.skip(first as int),
            TagNumber(0),
            |s: Seq<u8>| spec_decode_any(s),
        ) {
            Err(kind) => Err(kind),
            Ok((None, _)) => Err(ErrorKind::Value { tag: spec_explicit_tag(TagNumber(0)) }),
            Ok((Some(value), second)) => spec_finish(
                first + second,
                contents.len(),
                SpecOtherName { type_id, value },
            ),
        },
    }
}

impl<'a> DecodeValue<'a> for OtherName<'a> {
    open spec fn spec_decode_value(header: Header, contents: Seq<u8>) -> Result<
        SpecOtherName,
        ErrorKind,
    > {
        spec_other_name(contents)
    }

    fn decode_value(decoder: &mut Decoder<'a>, header: Header) -> (r: Result<OtherName<'a>, Error>) {
        let mut body = match decoder.read_nested(header.length) {
            Ok(body) => body,
            Err(e) => { return Err(e); },
        };
        let ghost contents = body.input();
        let type_id = match ObjectIdentifier::decode(&mut body) {
            Ok(type_id) => type_id,
            Err(e) => { return Err(e); },
        };
        let ghost first = ObjectIdentifier::spec_decode(contents)->Ok_0.1;
        assert(body.unread() == contents.skip(first as int));
        assert(spec_decode_explicit(
            contents.skip(first as int),
            TagNumber(0),
            |s: Seq<u8>| Any::spec_decode(s),
        ) == spec_decode_explicit(
            contents.skip(first as int),
            TagNumber(0),
            |s: Seq<u8>| spec_decode_any(s),
        ));
        let value = match ContextSpecific::<Any<'a>>::decode_explicit(&mut body, TagNumber(0)) {
            Ok(Some(field)) => field.value,
            Ok(None) => {
                return Err(
                    (Tag::ContextSpecific { constructed: true, number: TagNumber(0) }).value_error(),
                );
            },
            Err(e) => { return Err(e); },
        };
        body.finish(OtherName { type_id, value })
    }
}

impl<'a> EncodeValue for OtherName<'a> {
    open spec fn spec_encode_value(value: SpecOtherName) -> Seq<u8> {
        spec_other_name_contents(value)
    }

    fn value_len(&self) -> (r: Result<Length, Error>) {
        let first = match self.type_id.encoded_len() {
            Ok(len) => len,
            Err(e) => { return Err(e); },
        };
        let field = ContextSpecific { tag_number: TagNumber(0), value: self.value };
        let second = match field.encoded_len() {
            Ok(len) => len,
            Err(e) => { return Err(e); },
        };
        first.checked_add(second)
    }

    fn encode_value<W: Writer>(&self, writer: &mut W) -> (r: Result<(), Error>) {
        let ghost w0 = writer.written();
        let ghost room0 = writer.room();
        match self.type_id.encode(writer) {
            Ok(_) => {},
            Err(e) => {
                proof {
                    lemma_first_not_appended(
                        ObjectIdentifier::spec_encode(self.type_id@),
                        spec_encode_explicit(TagNumber(0), Any::spec_encode(self.value@)),
                        w0,
                        room0,
                        Err(e),
                        writer.written(),
                        writer.room(),
                    );
                }
                return Err(e);
            },
        }
        let field = ContextSpecific { tag_number: TagNumber(0), value: self.value };
        let r = field.encode(writer);
        proof {
            lemma_second_appended(
                ObjectIdentifier::spec_encode(self.type_id@),
                spec_encode_explicit(TagNumber(0), Any::spec_encode(self.value@)),
                w0,
                room0,
                r,
                writer.written(),
                writer.room(),
            );
        }
        r
    }
}

impl<'a> FixedTag for OtherName<'a> {
    open spec fn spec_fixed_tag() -> Tag {
        Tag::Sequence
    }

    proof fn lemma_fixed_tag_valid() {
    }

    fn fixed_tag() -> (r: Tag) {
        Tag::Sequence
    }
}

impl<'a> CanonicalValue<'a> for OtherName<'a> {
    /// The object identifier is one, and the tag of the value fits into one
    /// octet.
    open spec fn spec_valid_value(value: SpecOtherName) -> bool {
        ObjectIdentifier::spec_valid(value.type_id) && Any::spec_valid(value.value)
    }

    proof fn lemma_encode_decode_value(value: SpecOtherName) {
        let first = ObjectIdentifier::spec_encode(value.type_id);
        let inner = Any::spec_encode(value.value);
        let second = spec_encode_explicit(TagNumber(0), inner);
        ObjectIdentifier::lemma_encode_decode(value.type_id, second);
        Any::lemma_encode_decode(value.value, Seq::<u8>::empty());
        assert(inner + Seq::<u8>::empty() == inner);
        lemma_explicit_encode_decode(
            TagNumber(0),
            value.value,
            inner,
            |s: Seq<u8>| spec_decode_any(s),
            Seq::<u8>::empty(),
        );
        assert(second + Seq::<u8>::empty() == second);
        assert((first + second).skip(first.len() as int) == second);
    }

    proof fn lemma_decode_encode_value(header: Header, contents: Seq<u8>) {
        let first = ObjectIdentifier::spec_decode(contents)->Ok_0.1;
        let rest = contents.skip(first as int);
        let decode = |s: Seq<u8>| spec_decode_any(s);
        let second = spec_decode_explicit(rest, TagNumber(0), decode)->Ok_0.1;
        ObjectIdentifier::lemma_decode_encode(contents);
        lemma_explicit_decode_encode(rest, TagNumber(0), decode);
        let outer = spec_decode_any(rest)->Ok_0.0;
        Any::lemma_decode_encode(outer.value);
        assert(outer.value.take(outer.value.len() as int) == outer.value);
        assert(contents == contents.take(first as int) + rest.take(second as int));
    }
}

} // verus!
