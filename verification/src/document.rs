//! A DER-encoded value that owns its bytes.

use crate::decode::{spec_from_der, Decode};
use crate::encode::Encode;
use crate::error::{Error, ErrorKind};
use crate::length::MAX_LENGTH;
use vstd::prelude::*;

verus! {

/// The encoding of a value, held in memory of its own.
#[derive(Clone, Debug, Eq, PartialEq)]
pub struct Document {
    der_bytes: Vec<u8>,
}

impl View for Document {
    type V = Seq<u8>;

    closed spec fn view(&self) -> Seq<u8> {
        self.der_bytes@
    }
}

impl Document {
    /// The document that holds the encoding of `msg`.
    pub fn encode_msg<T: Encode>(msg: &T) -> (r: Result<Document, Error>)
        ensures
            match r {
                Ok(document) => document@ == T::spec_encode(msg.deep_view()) && document@.len()
                    <= MAX_LENGTH,
                Err(e) => T::spec_encode(msg.deep_view()).len() > MAX_LENGTH && e.kind
                    == ErrorKind::Overflow,
            },
    {
        match msg.to_vec() {
            Ok(der_bytes) => Ok(Document { der_bytes }),
            Err(e) => Err(e),
        }
    }

    /// The value that the document holds, decoded as a `T`.
    pub fn decode_msg<'a, T: Decode<'a>>(&'a self) -> (r: Result<T, Error>)
        ensures
            match r {
                Ok(value) => spec_from_der(self@.len(), T::spec_decode(self@)) == Ok::<
                    T::V,
                    ErrorKind,
                >(value.deep_view()),
                Err(e) => spec_from_der(self@.len(), T::spec_decode(self@)) == Err::<
                    T::V,
                    ErrorKind,
                >(e.kind),
            },
    {
        T::from_der(self.der_bytes.as_slice())
    }

    /// The bytes of the document.
    pub fn as_bytes(&self) -> (r: &[u8])
        ensures
            r@ == self@,
    {
        self.der_bytes.as_slice()
    }
}

} // verus!
