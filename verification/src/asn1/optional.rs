//! ASN.1 `OPTIONAL`: a value that may be absent, as an `Option`.

use crate::decode::{Choice, Decode};
use crate::decoder::Decoder;
use crate::encode::Encode;
use crate::error::{Error, ErrorKind};
use crate::length::Length;
use crate::reader::Reader;
use crate::tag::Tag;
use crate::writer::Writer;
use vstd::prelude::*;

verus! {

impl<'a, T> Decode<'a> for Option<T> where T: Choice<'a> {
    /// An optional value is absent at the end of the input and before a tag
    /// that `T` does not decode, and then takes no bytes. Before a tag that
    /// `T` decodes it is what `T` decodes.
    open spec fn spec_decode(input: Seq<u8>) -> Result<(Option<T::V>, nat), ErrorKind> {
        if input.len() == 0 {
            Ok((None, 0nat))
        } else {
            match Tag::spec_from_octet(input[0]) {
                Err(kind) => Err(kind),
                Ok(tag) => if T::spec_can_decode(tag) {
                    match T::spec_decode(input) {
                        Err(kind) => Err(kind),
                        Ok((value, used)) => Ok((Some(value), used)),
                    }
                } else {
                    Ok((None, 0nat))
                },
            }
        }
    }

    fn decode(decoder: &mut Decoder<'a>) -> (r: Result<Option<T>, Error>)
        ensures
            r matches Ok(None) ==> *final(decoder) == *old(decoder),
    {
        if let Some(byte) = decoder.peek_byte() {
            let tag = match Tag::from_octet(byte) {
                Ok(tag) => tag,
                Err(e) => { return Err(e); },
            };
            if T::can_decode(tag) {
                return match T::decode(decoder) {
                    Ok(value) => Ok(Some(value)),
                    Err(e) => Err(e),
                };
            }
        }
        Ok(None)
    }
}

/// An optional value is absent at the end of the input and before a tag that
/// its type does not decode.
pub proof fn lemma_optional_absent<'a, T: Choice<'a>>(input: Seq<u8>)
    requires
        input.len() == 0 || (Tag::spec_from_octet(input[0]) is Ok && !T::spec_can_decode(
            Tag::spec_from_octet(input[0])->Ok_0,
        )),
    ensures
        Option::<T>::spec_decode(input) == Ok::<(Option<T::V>, nat), ErrorKind>((None, 0nat)),
{
}

impl<T> Encode for Option<T> where T: Encode {
    /// An absent value has no encoding: not a byte. A present one is encoded
    /// as `T` encodes it, with no other mark of its presence.
    open spec fn spec_encode(value: Option<T::V>) -> Seq<u8> {
        match value {
            Some(present) => T::spec_encode(present),
            None => Seq::empty(),
        }
    }

    fn encoded_len(&self) -> (r: Result<Length, Error>) {
        match self {
            Some(encodable) => encodable.encoded_len(),
            None => Ok(Length::from(0u8)),
        }
    }

    fn encode<W: Writer>(&self, writer: &mut W) -> (r: Result<(), Error>) {
        match self {
            Some(encodable) => encodable.encode(writer),
            None => {
                assert(old(writer).written() + Seq::<u8>::empty() == old(writer).written());
                Ok(())
            },
        }
    }
}

} // verus!
