//! ASN.1 `OBJECT IDENTIFIER`, as the bytes of its encoding.

use crate::canonical::CanonicalValue;
use crate::decode::DecodeValue;
use crate::decoder::Decoder;
use crate::encode::EncodeValue;
use crate::error::{Error, ErrorKind};
use crate::header::Header;
use crate::length::Length;
use crate::reader::Reader;
use crate::tag::{FixedTag, Tag};
use crate::writer::{lemma_whole_is_in_pieces, Writer};
use vstd::prelude::*;
use vstd::slice::slice_to_vec;

verus! {

/// The largest number of bytes that an object identifier can have here.
pub const MAX_OID_SIZE: usize = 39;

/// Whether `bytes` are a sequence of arcs, each written to base 128 with as
/// few bytes as hold it: the last byte ends an arc, and no arc starts with a
/// byte that adds nothing to it.
pub open spec fn spec_oid_arcs(bytes: Seq<u8>) -> bool {
    &&& bytes.len() > 0
    &&& bytes[bytes.len() - 1] < 0x80
    &&& forall|i: int|
        0 <= i < bytes.len() && #[trigger] bytes[i] == 0x80 ==> i > 0 && bytes[i - 1] >= 0x80
}

/// The object identifier that contents hold, if they are no more than
/// `MAX_OID_SIZE` bytes and a sequence of arcs.
pub open spec fn spec_oid_bytes(contents: Seq<u8>) -> Result<Seq<u8>, ErrorKind> {
    if contents.len() > MAX_OID_SIZE {
        Err(ErrorKind::Length { tag: Tag::ObjectIdentifier })
    } else if !spec_oid_arcs(contents) {
        Err(ErrorKind::OidMalformed)
    } else {
        Ok(contents)
    }
}

/// An object identifier, held as the contents of its encoding.
#[derive(Debug, Eq, PartialEq)]
pub struct ObjectIdentifier {
    bytes: Vec<u8>,
}

impl Clone for ObjectIdentifier {
    fn clone(&self) -> (r: ObjectIdentifier)
        ensures
            r@ == self@,
    {
        proof {
            use_type_invariant(self);
        }
        ObjectIdentifier { bytes: slice_to_vec(self.bytes.as_slice()) }
    }
}

impl View for ObjectIdentifier {
    type V = Seq<u8>;

    closed spec fn view(&self) -> Seq<u8> {
        self.bytes@
    }
}

impl DeepView for ObjectIdentifier {
    type V = Seq<u8>;

    open spec fn deep_view(&self) -> Seq<u8> {
        self@
    }
}

impl ObjectIdentifier {
    /// The bytes are a sequence of arcs, and no more than `MAX_OID_SIZE`.
    #[verifier::type_invariant]
    pub open spec fn well_formed(self) -> bool {
        spec_oid_arcs(self@) && self@.len() <= MAX_OID_SIZE
    }

    /// The object identifier with the given encoded contents.
    pub fn from_bytes(bytes: &[u8]) -> (r: Result<ObjectIdentifier, Error>)
        ensures
            match r {
                Ok(oid) => spec_oid_bytes(bytes@) == Ok::<Seq<u8>, ErrorKind>(oid@),
                Err(e) => spec_oid_bytes(bytes@) == Err::<Seq<u8>, ErrorKind>(e.kind),
            },
    {
        if bytes.len() > MAX_OID_SIZE {
            return Err(Tag::ObjectIdentifier.length_error());
        }
        if bytes.len() == 0 || bytes[bytes.len() - 1] >= 0x80 {
            return Err(Error::new(ErrorKind::OidMalformed));
        }
        let mut i: usize = 0;
        while i < bytes.len()
            invariant
                i <= bytes@.len(),
                0 < bytes@.len() <= MAX_OID_SIZE,
                bytes@[bytes@.len() - 1] < 0x80,
                forall|j: int|
                    0 <= j < i && #[trigger] bytes@[j] == 0x80 ==> j > 0 && bytes@[j - 1] >= 0x80,
            decreases bytes@.len() - i,
        {
            if bytes[i] == 0x80 && (i == 0 || bytes[i - 1] < 0x80) {
                assert(!spec_oid_arcs(bytes@)) by {
                    assert(bytes@[i as int] == 0x80);
                }
                return Err(Error::new(ErrorKind::OidMalformed));
            }
            i = i + 1;
        }
        Ok(ObjectIdentifier { bytes: slice_to_vec(bytes) })
    }

    /// The encoded contents.
    pub fn as_bytes(&self) -> (r: &[u8])
        ensures
            r@ == self@,
            spec_oid_arcs(self@),
            self@.len() <= MAX_OID_SIZE,
    {
        proof {
            use_type_invariant(self);
        }
        self.bytes.as_slice()
    }
}

impl DecodeValue<'_> for ObjectIdentifier {
    open spec fn spec_decode_value(header: Header, contents: Seq<u8>) -> Result<
        Seq<u8>,
        ErrorKind,
    > {
        spec_oid_bytes(contents)
    }

    fn decode_value(decoder: &mut Decoder<'_>, header: Header) -> (r: Result<
        ObjectIdentifier,
        Error,
    >) {
        let bytes = match decoder.read_slice(header.length) {
            Ok(bytes) => bytes,
            Err(e) => { return Err(e); },
        };
        ObjectIdentifier::from_bytes(bytes)
    }
}

impl EncodeValue for ObjectIdentifier {
    open spec fn spec_encode_value(value: Seq<u8>) -> Seq<u8> {
        value
    }

    fn value_len(&self) -> (r: Result<Length, Error>) {
        Length::try_from_usize(self.as_bytes().len())
    }

    fn encode_value<W: Writer>(&self, writer: &mut W) -> (r: Result<(), Error>) {
        let r = writer.write(self.as_bytes());
        proof {
            lemma_whole_is_in_pieces(
                self@,
                old(writer).written(),
                old(writer).room(),
                r,
                writer.written(),
                writer.room(),
            );
        }
        r
    }
}

impl FixedTag for ObjectIdentifier {
    open spec fn spec_fixed_tag() -> Tag {
        Tag::ObjectIdentifier
    }

    proof fn lemma_fixed_tag_valid() {
    }

    fn fixed_tag() -> (r: Tag) {
        Tag::ObjectIdentifier
    }
}

impl CanonicalValue<'_> for ObjectIdentifier {
    open spec fn spec_valid_value(value: Seq<u8>) -> bool {
        spec_oid_arcs(value) && value.len() <= MAX_OID_SIZE
    }

    proof fn lemma_encode_decode_value(value: Seq<u8>) {
    }

    proof fn lemma_decode_encode_value(header: Header, contents: Seq<u8>) {
    }
}

} // verus!
