//! PKCS#1 RSA Public Keys.

use crate::asn1::uint::UIntBytes;
use crate::canonical::{Canonical, CanonicalValue};
use crate::decode::{spec_from_der, Decode, DecodeValue};
use crate::decoder::{spec_finish, Decoder};
use crate::document::Document;
use crate::encode::{Encode, EncodeValue};
use crate::error::{Error, ErrorKind};
use crate::header::Header;
use crate::length::{Length, MAX_LENGTH};
use crate::reader::Reader;
use crate::tag::{FixedTag, Tag};
use crate::writer::{lemma_first_not_appended, lemma_second_appended, Writer};
use vstd::prelude::*;
use vstd::std_specs::convert::TryFromSpecImpl;

verus! {

/// An RSA public key, as two numbers: the bytes of each from the most
/// significant one.
pub struct SpecRsaPublicKey {
    pub modulus: Seq<u8>,
    pub public_exponent: Seq<u8>,
}

/// PKCS#1 RSA Public Keys as defined in [RFC 8017 Appendix 1.1].
///
/// ASN.1 structure containing a serialized RSA public key:
///
/// ```text
/// RSAPublicKey ::= SEQUENCE {
///     modulus           INTEGER,  -- n
///     publicExponent    INTEGER   -- e
/// }
/// ```
///
/// [RFC 8017 Appendix 1.1]: https://datatracker.ietf.org/doc/html/rfc8017#appendix-A.1.1
#[derive(Copy, Clone, Debug, Eq, PartialEq)]
pub struct RsaPublicKey<'a> {
    /// `n`: RSA modulus
    pub modulus: UIntBytes<'a>,
    /// `e`: RSA public exponent
    pub public_exponent: UIntBytes<'a>,
}

impl<'a> DeepView for RsaPublicKey<'a> {
    type V = SpecRsaPublicKey;

    open spec fn deep_view(&self) -> SpecRsaPublicKey {
        SpecRsaPublicKey { modulus: self.modulus@, public_exponent: self.public_exponent@ }
    }
}

/// The contents of the SEQUENCE that holds a key: the modulus, then the
/// public exponent, each an INTEGER.
pub open spec fn spec_rsa_public_key_contents(key: SpecRsaPublicKey) -> Seq<u8> {
    UIntBytes::spec_encode(key.modulus) + UIntBytes::spec_encode(key.public_exponent)
}

/// The key that the contents of a SEQUENCE hold: two INTEGERs that are not
/// negative, and nothing behind them.
pub open spec fn spec_rsa_public_key(contents: Seq<u8>) -> Result<SpecRsaPublicKey, ErrorKind> {
    match UIntBytes::spec_decode(contents) {
        Err(kind) => Err(kind),
        Ok((modulus, first)) => match UIntBytes::spec_decode(contents.skip(first as int)) {
            Err(kind) => Err(kind),
            Ok((public_exponent, second)) => spec_finish(
                first + second,
                contents.len(),
                SpecRsaPublicKey { modulus, public_exponent },
            ),
        },
    }
}

impl<'a> DecodeValue<'a> for RsaPublicKey<'a> {
    open spec fn spec_decode_value(header: Header, contents: Seq<u8>) -> Result<
        SpecRsaPublicKey,
        ErrorKind,
    > {
        spec_rsa_public_key(contents)
    }

    fn decode_value(decoder: &mut Decoder<'a>, header: Header) -> (r: Result<
        RsaPublicKey<'a>,
        Error,
    >) {
        let mut body = match decoder.read_nested(header.length) {
            Ok(body) => body,
            Err(e) => { return Err(e); },
        };
        let ghost contents = body.input();
        let modulus = match UIntBytes::decode(&mut body) {
            Ok(modulus) => modulus,
            Err(e) => { return Err(e); },
        };
        let ghost first = UIntBytes::spec_decode(contents)->Ok_0.1;
        assert(body.unread() == contents.skip(first as int));
        let public_exponent = match UIntBytes::decode(&mut body) {
            Ok(public_exponent) => public_exponent,
            Err(e) => { return Err(e); },
        };
        body.finish(RsaPublicKey { modulus, public_exponent })
    }
}

impl<'a> EncodeValue for RsaPublicKey<'a> {
    open spec fn spec_encode_value(value: SpecRsaPublicKey) -> Seq<u8> {
        spec_rsa_public_key_contents(value)
    }

    fn value_len(&self) -> (r: Result<Length, Error>) {
        let first = match self.modulus.encoded_len() {
            Ok(len) => len,
            Err(e) => { return Err(e); },
        };
        let second = match self.public_exponent.encoded_len() {
            Ok(len) => len,
            Err(e) => { return Err(e); },
        };
        first.checked_add(second)
    }

    fn encode_value<W: Writer>(&self, writer: &mut W) -> (r: Result<(), Error>) {
        let ghost w0 = writer.written();
        let ghost room0 = writer.room();
        match self.modulus.encode(writer) {
            Ok(_) => {},
            Err(e) => {
                proof {
                    lemma_first_not_appended(
                        UIntBytes::spec_encode(self.modulus@),
                        UIntBytes::spec_encode(self.public_exponent@),
                        w0,
                        room0,
                        Err(e),
                        writer.written(),
                        writer.room(),
                    );
                }
                return Err(e);
            },
        }
        let r = self.public_exponent.encode(writer);
        proof {
            lemma_second_appended(
                UIntBytes::spec_encode(self.modulus@),
                UIntBytes::spec_encode(self.public_exponent@),
                w0,
                room0,
                r,
                writer.written(),
                writer.room(),
            );
        }
        r
    }
}

impl<'a> FixedTag for RsaPublicKey<'a> {
    open spec fn spec_fixed_tag() -> Tag {
        Tag::Sequence
    }

    proof fn lemma_fixed_tag_valid() {
    }

    fn fixed_tag() -> (r: Tag) {
        Tag::Sequence
    }
}

impl<'a> CanonicalValue<'a> for RsaPublicKey<'a> {
    /// Both numbers are numbers.
    open spec fn spec_valid_value(value: SpecRsaPublicKey) -> bool {
        UIntBytes::spec_valid(value.modulus) && UIntBytes::spec_valid(value.public_exponent)
    }

    proof fn lemma_encode_decode_value(value: SpecRsaPublicKey) {
        let first = UIntBytes::spec_encode(value.modulus);
        let second = UIntBytes::spec_encode(value.public_exponent);
        UIntBytes::lemma_encode_decode(value.modulus, second);
        UIntBytes::lemma_encode_decode(value.public_exponent, Seq::<u8>::empty());
        assert((first + second).skip(first.len() as int) == second);
        assert(second + Seq::<u8>::empty() == second);
    }

    proof fn lemma_decode_encode_value(header: Header, contents: Seq<u8>) {
        let first = UIntBytes::spec_decode(contents)->Ok_0.1;
        let rest = contents.skip(first as int);
        let second = UIntBytes::spec_decode(rest)->Ok_0.1;
        UIntBytes::lemma_decode_encode(contents);
        UIntBytes::lemma_decode_encode(rest);
        assert(contents == contents.take(first as int) + rest.take(second as int));
    }
}

impl<'a> TryFrom<&'a [u8]> for RsaPublicKey<'a> {
    type Error = Error;

    fn try_from(bytes: &'a [u8]) -> (r: Result<RsaPublicKey<'a>, Error>)
        ensures
            match r {
                Ok(key) => spec_from_der(bytes@.len(), RsaPublicKey::spec_decode(bytes@)) == Ok::<
                    SpecRsaPublicKey,
                    ErrorKind,
                >(key.deep_view()),
                Err(e) => spec_from_der(bytes@.len(), RsaPublicKey::spec_decode(bytes@)) == Err::<
                    SpecRsaPublicKey,
                    ErrorKind,
                >(e.kind),
            },
    {
        RsaPublicKey::from_der(bytes)
    }
}

impl<'a> TryFromSpecImpl<&'a [u8]> for RsaPublicKey<'a> {
    /// A key borrows its bytes and cannot be written down: see what
    /// `try_from` ensures.
    open spec fn obeys_try_from_spec() -> bool {
        false
    }

    open spec fn try_from_spec(bytes: &'a [u8]) -> Result<RsaPublicKey<'a>, Error> {
        arbitrary()
    }
}

impl TryFrom<RsaPublicKey<'_>> for Document {
    type Error = Error;

    fn try_from(key: RsaPublicKey<'_>) -> (r: Result<Document, Error>)
        ensures
            match r {
                Ok(document) => document@ == RsaPublicKey::spec_encode(key.deep_view())
                    && document@.len() <= MAX_LENGTH,
                Err(e) => RsaPublicKey::spec_encode(key.deep_view()).len() > MAX_LENGTH && e.kind
                    == ErrorKind::Overflow,
            },
    {
        Document::encode_msg(&key)
    }
}

impl TryFromSpecImpl<RsaPublicKey<'_>> for Document {
    /// A document owns a vector and cannot be written down: see what
    /// `try_from` ensures.
    open spec fn obeys_try_from_spec() -> bool {
        false
    }

    open spec fn try_from_spec(key: RsaPublicKey<'_>) -> Result<Document, Error> {
        arbitrary()
    }
}

impl TryFrom<&RsaPublicKey<'_>> for Document {
    type Error = Error;

    fn try_from(key: &RsaPublicKey<'_>) -> (r: Result<Document, Error>)
        ensures
            match r {
                Ok(document) => document@ == RsaPublicKey::spec_encode(key.deep_view())
                    && document@.len() <= MAX_LENGTH,
                Err(e) => RsaPublicKey::spec_encode(key.deep_view()).len() > MAX_LENGTH && e.kind
                    == ErrorKind::Overflow,
            },
    {
        Document::encode_msg(key)
    }
}

impl TryFromSpecImpl<&RsaPublicKey<'_>> for Document {
    /// A document owns a vector and cannot be written down: see what
    /// `try_from` ensures.
    open spec fn obeys_try_from_spec() -> bool {
        false
    }

    open spec fn try_from_spec(key: &RsaPublicKey<'_>) -> Result<Document, Error> {
        arbitrary()
    }
}

/// A SEQUENCE that holds more than the two numbers of a key is refused,
/// and so is the key: bytes behind the fields are not passed over.
pub proof fn lemma_key_with_trailing_bytes(contents: Seq<u8>)
    requires
        UIntBytes::spec_decode(contents) is Ok,
        UIntBytes::spec_decode(contents.skip(UIntBytes::spec_decode(contents)->Ok_0.1 as int))
            is Ok,
        contents.len() > UIntBytes::spec_decode(contents)->Ok_0.1 + UIntBytes::spec_decode(
            contents.skip(UIntBytes::spec_decode(contents)->Ok_0.1 as int),
        )->Ok_0.1,
    ensures
        spec_rsa_public_key(contents) is Err,
        spec_rsa_public_key(contents)->Err_0 is TrailingData,
{
}

} // verus!
