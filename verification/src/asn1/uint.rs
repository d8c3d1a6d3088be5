//! ASN.1 `INTEGER`, as far as it holds a number that is not negative.

use crate::canonical::CanonicalValue;
use crate::decode::DecodeValue;
use crate::decoder::Decoder;
use crate::encode::EncodeValue;
use crate::error::{Error, ErrorKind};
use crate::header::Header;
use crate::length::{Length, MAX_LENGTH};
use crate::reader::Reader;
use crate::tag::{FixedTag, Tag};
use crate::writer::{
    lemma_nothing_appended, lemma_piece_appended, lemma_whole_is_in_pieces, Writer,
};
use vstd::prelude::*;
use vstd::slice::slice_subrange;

verus! {

/// The bytes of a number without the zero bytes at its front, but for the
/// last byte.
pub open spec fn spec_strip_leading_zeroes(bytes: Seq<u8>) -> Seq<u8>
    decreases bytes.len(),
{
    if bytes.len() > 1 && bytes[0] == 0 {
        spec_strip_leading_zeroes(bytes.skip(1))
    } else {
        bytes
    }
}

/// Whether bytes have no zero byte at their front that another byte follows.
pub open spec fn spec_is_stripped(bytes: Seq<u8>) -> bool {
    bytes.len() <= 1 || bytes[0] != 0
}

/// Whether bytes are those of a number: at least one, and no zero byte at
/// their front that another byte follows.
pub open spec fn spec_is_uint(bytes: Seq<u8>) -> bool {
    bytes.len() >= 1 && spec_is_stripped(bytes)
}

/// The contents of the INTEGER that holds the number with the given bytes,
/// most significant first: a zero byte comes before a first byte from 0x80 on,
/// which else made the number a negative one.
pub open spec fn spec_uint_contents(bytes: Seq<u8>) -> Seq<u8> {
    if bytes.len() > 0 && bytes[0] >= 0x80 {
        seq![0u8] + bytes
    } else {
        bytes
    }
}

/// The bytes of the number that the contents of an INTEGER hold, if that is
/// not negative and the contents are the shortest for it.
pub open spec fn spec_uint_bytes(contents: Seq<u8>) -> Result<Seq<u8>, ErrorKind> {
    if contents.len() == 0 {
        Err(ErrorKind::Noncanonical { tag: Tag::Integer })
    } else if contents.len() == 1 && contents[0] == 0 {
        Ok(contents)
    } else if contents[0] == 0 {
        if contents[1] < 0x80 {
            Err(ErrorKind::Noncanonical { tag: Tag::Integer })
        } else {
            Ok(contents.skip(1))
        }
    } else if contents[0] >= 0x80 {
        Err(ErrorKind::Value { tag: Tag::Integer })
    } else {
        Ok(contents)
    }
}

/// The front of `bytes` without its leading zero bytes is what `bytes` are
/// without theirs.
proof fn lemma_strip_skip(bytes: Seq<u8>, start: int)
    requires
        0 <= start < bytes.len(),
        forall|i: int| 0 <= i < start ==> bytes[i] == 0,
    ensures
        spec_strip_leading_zeroes(bytes) == spec_strip_leading_zeroes(bytes.skip(start)),
    decreases start,
{
    if start > 0 {
        lemma_strip_skip(bytes.skip(1), start - 1);
        assert(bytes.skip(1).skip(start - 1) == bytes.skip(start));
    } else {
        assert(bytes.skip(0) == bytes);
    }
}

/// An unsigned integer of any size, as its bytes from the most significant
/// one, borrowed from where they were read.
#[derive(Copy, Clone, Debug, Eq, PartialEq)]
pub struct UIntBytes<'a> {
    inner: &'a [u8],
}

impl<'a> View for UIntBytes<'a> {
    type V = Seq<u8>;

    closed spec fn view(&self) -> Seq<u8> {
        self.inner@
    }
}

impl<'a> DeepView for UIntBytes<'a> {
    type V = Seq<u8>;

    open spec fn deep_view(&self) -> Seq<u8> {
        self@
    }
}

impl<'a> UIntBytes<'a> {
    /// There is at least one byte, there are no leading zero bytes, and the
    /// bytes are no more than the largest length.
    #[verifier::type_invariant]
    pub open spec fn well_formed(self) -> bool {
        spec_is_uint(self@) && self@.len() <= MAX_LENGTH
    }

    /// The number with the given bytes, most significant first, of which
    /// there must be one at least. Leading zero bytes are dropped.
    pub fn new(bytes: &'a [u8]) -> (r: Result<UIntBytes<'a>, Error>)
        ensures
            match r {
                Ok(uint) => {
                    &&& bytes@.len() > 0
                    &&& uint@ == spec_strip_leading_zeroes(bytes@)
                    &&& spec_is_uint(uint@)
                    &&& uint@.len() <= MAX_LENGTH
                },
                Err(e) => if bytes@.len() == 0 {
                    e.kind == (ErrorKind::Value { tag: Tag::Integer })
                } else {
                    e.kind == ErrorKind::Overflow && spec_strip_leading_zeroes(bytes@).len()
                        > MAX_LENGTH
                },
            },
    {
        if bytes.len() == 0 {
            return Err(Tag::Integer.value_error());
        }
        let mut start: usize = 0;
        while bytes.len() - start > 1 && bytes[start] == 0
            invariant
                start < bytes@.len(),
                forall|i: int| 0 <= i < start ==> bytes@[i] == 0,
            decreases bytes@.len() - start,
        {
            start = start + 1;
        }
        proof {
            lemma_strip_skip(bytes@, start as int);
        }
        let inner = slice_subrange(bytes, start, bytes.len());
        assert(inner@ == bytes@.skip(start as int));
        if inner.len() > MAX_LENGTH as usize {
            return Err(Error::new(ErrorKind::Overflow));
        }
        Ok(UIntBytes { inner })
    }

    /// The bytes of the number, most significant first.
    pub fn as_bytes(&self) -> (r: &'a [u8])
        ensures
            r@ == self@,
            spec_is_uint(self@),
            self@.len() <= MAX_LENGTH,
    {
        proof {
            use_type_invariant(self);
        }
        self.inner
    }

    /// The number of bytes.
    pub fn len(&self) -> (r: Length)
        ensures
            r@ == self@.len(),
            r.in_range(),
    {
        proof {
            use_type_invariant(self);
        }
        Length(self.inner.len() as u32)
    }
}

impl<'a> DecodeValue<'a> for UIntBytes<'a> {
    open spec fn spec_decode_value(header: Header, contents: Seq<u8>) -> Result<
        Seq<u8>,
        ErrorKind,
    > {
        spec_uint_bytes(contents)
    }

    fn decode_value(decoder: &mut Decoder<'a>, header: Header) -> (r: Result<
        UIntBytes<'a>,
        Error,
    >) {
        let bytes = match decoder.read_slice(header.length) {
            Ok(bytes) => bytes,
            Err(e) => { return Err(e); },
        };
        let digits = if bytes.len() == 0 {
            return Err(Tag::Integer.non_canonical_error());
        } else if bytes.len() == 1 && bytes[0] == 0 {
            bytes
        } else if bytes[0] == 0 {
            if bytes[1] < 0x80 {
                return Err(Tag::Integer.non_canonical_error());
            }
            slice_subrange(bytes, 1, bytes.len())
        } else if bytes[0] >= 0x80 {
            return Err(Tag::Integer.value_error());
        } else {
            bytes
        };
        assert(spec_strip_leading_zeroes(digits@) == digits@);
        let result = match UIntBytes::new(digits) {
            Ok(result) => result,
            Err(e) => { return Err(e); },
        };
        // The number must need as many bytes as the contents had.
        match result.value_len() {
            Ok(len) => if len.0 != header.length.0 {
                return Err(Tag::Integer.non_canonical_error());
            },
            Err(e) => { return Err(e); },
        }
        Ok(result)
    }
}

impl<'a> EncodeValue for UIntBytes<'a> {
    open spec fn spec_encode_value(value: Seq<u8>) -> Seq<u8> {
        spec_uint_contents(value)
    }

    fn value_len(&self) -> (r: Result<Length, Error>) {
        let bytes = self.as_bytes();
        if bytes[0] >= 0x80 {
            assert(spec_uint_contents(self@).len() == self@.len() + 1);
            self.len().checked_add(Length(1))
        } else {
            Ok(self.len())
        }
    }

    fn encode_value<W: Writer>(&self, writer: &mut W) -> (r: Result<(), Error>) {
        let bytes = self.as_bytes();
        let ghost w0 = writer.written();
        let ghost room0 = writer.room();
        if bytes[0] >= 0x80 {
            let ghost whole = seq![0u8] + bytes@;
            match writer.write_byte(0) {
                Ok(_) => {},
                Err(e) => {
                    proof {
                        lemma_nothing_appended(whole, w0, room0, Err(e));
                    }
                    return Err(e);
                },
            }
            let r = writer.write(bytes);
            proof {
                assert(w0.push(0u8) == w0 + seq![0u8]);
                assert(whole.take(whole.len() as int) == whole);
                lemma_whole_is_in_pieces(
                    bytes@,
                    w0 + seq![0u8],
                    (room0 - 1) as nat,
                    r,
                    writer.written(),
                    writer.room(),
                );
                lemma_piece_appended(
                    seq![0u8],
                    bytes@,
                    whole,
                    w0,
                    room0,
                    r,
                    writer.written(),
                    writer.room(),
                );
            }
            r
        } else {
            let r = writer.write(bytes);
            proof {
                lemma_whole_is_in_pieces(bytes@, w0, room0, r, writer.written(), writer.room());
            }
            r
        }
    }
}

impl<'a> FixedTag for UIntBytes<'a> {
    open spec fn spec_fixed_tag() -> Tag {
        Tag::Integer
    }

    proof fn lemma_fixed_tag_valid() {
    }

    fn fixed_tag() -> (r: Tag) {
        Tag::Integer
    }
}

impl<'a> CanonicalValue<'a> for UIntBytes<'a> {
    /// A number has at least one byte, and no leading zero byte.
    open spec fn spec_valid_value(value: Seq<u8>) -> bool {
        spec_is_uint(value)
    }

    proof fn lemma_encode_decode_value(value: Seq<u8>) {
        if value[0] >= 0x80 {
            assert(spec_uint_contents(value).skip(1) == value);
        }
    }

    proof fn lemma_decode_encode_value(header: Header, contents: Seq<u8>) {
        if contents.len() > 1 && contents[0] == 0 {
            assert(seq![0u8] + contents.skip(1) == contents);
        }
    }
}

} // verus!
