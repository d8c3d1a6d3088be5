//! ASN.1 `UTF8String`.

use crate::canonical::CanonicalValue;
use crate::decode::DecodeValue;
use crate::decoder::Decoder;
use crate::encode::EncodeValue;
use crate::error::{Error, ErrorKind};
use crate::header::Header;
use crate::length::Length;
use crate::reader::Reader;
use crate::tag::{FixedTag, Tag};
use crate::writer::{lemma_whole_is_in_pieces, Writer};
use vstd::prelude::*;
use vstd::string::StringSliceAdditionalSpecFns;
use vstd::utf8::valid_utf8;

verus! {

/// `core::str::from_utf8`: the bytes as a string slice, which it gives
/// exactly where they are UTF-8.
#[verifier::external_body]
fn str_from_utf8<'a>(bytes: &'a [u8]) -> (r: Option<&'a str>)
    ensures
        r is Some <==> valid_utf8(bytes@),
        r matches Some(s) ==> s.spec_bytes() == bytes@,
{
    match core::str::from_utf8(bytes) {
        Ok(s) => Some(s),
        Err(_) => None,
    }
}

/// The string that contents hold, as its bytes, if they are UTF-8.
pub open spec fn spec_utf8_bytes(contents: Seq<u8>) -> Result<Seq<u8>, ErrorKind> {
    if valid_utf8(contents) {
        Ok(contents)
    } else {
        Err(ErrorKind::Utf8)
    }
}

/// A string in UTF-8, borrowed from where it was read.
#[derive(Copy, Clone, Debug, Eq, PartialEq)]
pub struct Utf8String<'a> {
    inner: &'a str,
}

impl<'a> View for Utf8String<'a> {
    type V = Seq<u8>;

    /// The bytes of the string.
    closed spec fn view(&self) -> Seq<u8> {
        self.inner.spec_bytes()
    }
}

impl<'a> DeepView for Utf8String<'a> {
    type V = Seq<u8>;

    open spec fn deep_view(&self) -> Seq<u8> {
        self@
    }
}

impl<'a> Utf8String<'a> {
    /// The string with the given bytes, if they are UTF-8.
    pub fn new(bytes: &'a [u8]) -> (r: Result<Utf8String<'a>, Error>)
        ensures
            match r {
                Ok(string) => spec_utf8_bytes(bytes@) == Ok::<Seq<u8>, ErrorKind>(string@),
                Err(e) => spec_utf8_bytes(bytes@) == Err::<Seq<u8>, ErrorKind>(e.kind),
            },
    {
        match str_from_utf8(bytes) {
            Some(inner) => Ok(Utf8String { inner }),
            None => Err(Error::new(ErrorKind::Utf8)),
        }
    }

    /// The string.
    pub fn as_str(&self) -> (r: &'a str)
        ensures
            r.spec_bytes() == self@,
    {
        self.inner
    }

    /// The bytes of the string.
    pub fn as_bytes(&self) -> (r: &'a [u8])
        ensures
            r@ == self@,
            valid_utf8(self@),
    {
        proof {
            vstd::utf8::encode_utf8_valid_utf8(self.inner@);
        }
        self.inner.as_bytes()
    }

    /// The string, as one that owns its characters.
    pub fn to_string(&self) -> (r: String)
        ensures
            vstd::utf8::encode_utf8(r@) == self@,
    {
        self.inner.to_owned()
    }
}

impl<'a> DecodeValue<'a> for Utf8String<'a> {
    open spec fn spec_decode_value(header: Header, contents: Seq<u8>) -> Result<
        Seq<u8>,
        ErrorKind,
    > {
        spec_utf8_bytes(contents)
    }

    fn decode_value(decoder: &mut Decoder<'a>, header: Header) -> (r: Result<
        Utf8String<'a>,
        Error,
    >) {
        let bytes = match decoder.read_slice(header.length) {
            Ok(bytes) => bytes,
            Err(e) => { return Err(e); },
        };
        Utf8String::new(bytes)
    }
}

impl<'a> EncodeValue for Utf8String<'a> {
    open spec fn spec_encode_value(value: Seq<u8>) -> Seq<u8> {
        value
    }

    fn value_len(&self) -> (r: Result<Length, Error>) {
        Length::try_from_usize(self.as_bytes().len())
    }

    fn encode_value<W: Writer>(&self, writer: &mut W) -> (r: Result<(), Error>) {
        let r = writer.write(self.as_bytes());
        proof {
            lemma_whole_is_in_pieces(
                self@,
                old(writer).written(),
                old(writer).room(),
                r,
                writer.written(),
                writer.room(),
            );
        }
        r
    }
}

impl<'a> FixedTag for Utf8String<'a> {
    open spec fn spec_fixed_tag() -> Tag {
        Tag::Utf8String
    }

    proof fn lemma_fixed_tag_valid() {
    }

    fn fixed_tag() -> (r: Tag) {
        Tag::Utf8String
    }
}

impl<'a> CanonicalValue<'a> for Utf8String<'a> {
    open spec fn spec_valid_value(value: Seq<u8>) -> bool {
        valid_utf8(value)
    }

    proof fn lemma_encode_decode_value(value: Seq<u8>) {
    }

    proof fn lemma_decode_encode_value(header: Header, contents: Seq<u8>) {
    }
}

} // verus!
