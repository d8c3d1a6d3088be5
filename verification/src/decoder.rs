//! A cursor over a byte slice.

use crate::error::{spec_end_of_input, Error, ErrorKind};
use crate::header::{spec_decode_header, Header};
use crate::length::{spec_decode_length, spec_long_form_value, Length, MAX_LENGTH};
use crate::reader::{spec_read_error, spec_unread, Reader};
use crate::tag::Tag;
use vstd::prelude::*;
use vstd::slice::slice_subrange;

verus! {

/// Reads DER from a byte slice. What it hands out is borrowed from the slice.
#[derive(Clone, Copy, Debug)]
pub struct Decoder<'a> {
    bytes: &'a [u8],
    position: usize,
}

impl<'a> Reader<'a> for Decoder<'a> {
    closed spec fn input(&self) -> Seq<u8> {
        self.bytes@
    }

    closed spec fn consumed(&self) -> nat {
        self.position as nat
    }

    /// A slice can always lend.
    open spec fn lends(&self) -> bool {
        true
    }

    fn input_len(&self) -> (r: Length) {
        proof {
            use_type_invariant(self);
        }
        Length(self.bytes.len() as u32)
    }

    fn peek_byte(&self) -> (r: Option<u8>) {
        proof {
            use_type_invariant(self);
        }
        if self.position < self.bytes.len() {
            Some(self.bytes[self.position])
        } else {
            None
        }
    }

    fn peek_header(&self) -> (r: Result<Header, Error>) {
        proof {
            use_type_invariant(self);
        }
        let mut ahead = *self;
        Header::decode(&mut ahead)
    }

    fn position(&self) -> (r: Length) {
        proof {
            use_type_invariant(self);
        }
        Length(self.position as u32)
    }

    fn read_slice(&mut self, len: Length) -> (r: Result<&'a [u8], Error>) {
        proof {
            use_type_invariant(&*self);
        }
        let left = self.bytes.len() - self.position;
        if len.0 as usize > left {
            return Err(
                Error::new(
                    ErrorKind::Incomplete { expected_len: len, actual_len: Length(left as u32) },
                ),
            );
        }
        let end = self.position + len.0 as usize;
        let slice = slice_subrange(self.bytes, self.position, end);
        assert(slice@ == self.unread().take(len@ as int));
        assert(self.bytes@.skip(end as int) == self.unread().skip(len@ as int));
        self.position = end;
        Ok(slice)
    }
}

impl<'a> Decoder<'a> {
    /// The part of the input that has not been read yet.
    pub open spec fn unread(&self) -> Seq<u8> {
        spec_unread(self.input(), self.consumed())
    }

    #[verifier::type_invariant]
    spec fn well_formed(self) -> bool {
        self.position <= self.bytes@.len() <= MAX_LENGTH
    }

    /// A decoder at the start of `bytes`, if they are no more than the
    /// largest length.
    pub fn new(bytes: &'a [u8]) -> (r: Result<Decoder<'a>, Error>)
        ensures
            match r {
                Ok(decoder) => {
                    &&& bytes@.len() <= MAX_LENGTH
                    &&& decoder.input() == bytes@
                    &&& decoder.consumed() == 0
                    &&& decoder.unread() == bytes@
                },
                Err(e) => bytes@.len() > MAX_LENGTH && e.kind == ErrorKind::Overflow,
            },
    {
        if bytes.len() > MAX_LENGTH as usize {
            Err(Error::new(ErrorKind::Overflow))
        } else {
            Ok(Decoder { bytes, position: 0 })
        }
    }

    /// Hands `value` back if the input has been read to its end, which is
    /// how a decoder refuses bytes that the values in it do not account for.
    pub fn finish<T>(self, value: T) -> (r: Result<T, Error>)
        ensures
            self.consumed() <= self.input().len() <= MAX_LENGTH,
            match r {
                Ok(same) => spec_finish(self.consumed(), self.input().len(), value) == Ok::<
                    T,
                    ErrorKind,
                >(same),
                Err(e) => spec_finish(self.consumed(), self.input().len(), value) == Err::<
                    T,
                    ErrorKind,
                >(e.kind),
            },
    {
        proof {
            use_type_invariant(&self);
        }
        if self.position == self.bytes.len() {
            Ok(value)
        } else {
            Err(
                Error::new(
                    ErrorKind::TrailingData {
                        decoded: Length(self.position as u32),
                        remaining: Length((self.bytes.len() - self.position) as u32),
                    },
                ),
            )
        }
    }

    /// Reads the header of a SEQUENCE and its contents, and hands out a
    /// decoder over the contents alone. The fields are decoded from that
    /// decoder, and its `finish` then refuses contents that the fields do not
    /// use up. Where it fails, it leaves the cursor where it is.
    pub fn sequence(&mut self) -> (r: Result<Decoder<'a>, Error>)
        ensures
            final(self).input() == old(self).input(),
            match r {
                Ok(body) => {
                    &&& spec_sequence_body(old(self).unread()) is Ok
                    &&& body.input() == spec_sequence_body(old(self).unread())->Ok_0.0
                    &&& body.consumed() == 0
                    &&& final(self).consumed() == old(self).consumed() + spec_sequence_body(
                        old(self).unread(),
                    )->Ok_0.1
                },
                Err(e) => {
                    &&& *final(self) == *old(self)
                    &&& spec_sequence_body(old(self).unread()) == Err::<(Seq<u8>, nat), ErrorKind>(
                        e.kind,
                    )
                },
            },
    {
        let start = *self;
        let header = match Header::decode(self) {
            Ok(header) => header,
            Err(e) => { return Err(e); },
        };
        match header.tag.assert_eq(Tag::Sequence) {
            Ok(_) => {},
            Err(e) => {
                *self = start;
                return Err(e);
            },
        }
        match self.read_nested(header.length) {
            Ok(body) => Ok(body),
            Err(e) => {
                *self = start;
                Err(e)
            },
        }
    }

    /// Reads `length` bytes and hands out a decoder over them alone: the
    /// contents of a value whose header has been read. Where it fails, it
    /// leaves the cursor where it is.
    pub fn read_nested(&mut self, length: Length) -> (r: Result<Decoder<'a>, Error>)
        ensures
            final(self).input() == old(self).input(),
            match r {
                Ok(body) => {
                    &&& spec_contents(length, old(self).unread()) is Ok
                    &&& body.input() == spec_contents(length, old(self).unread())->Ok_0
                    &&& body.consumed() == 0
                    &&& body.unread() == body.input()
                    &&& final(self).consumed() == old(self).consumed() + length@
                    &&& final(self).unread() == old(self).unread().skip(length@ as int)
                },
                Err(e) => {
                    &&& *final(self) == *old(self)
                    &&& spec_contents(length, old(self).unread()) == Err::<Seq<u8>, ErrorKind>(
                        e.kind,
                    )
                },
            },
    {
        let body = match self.read_slice(length) {
            Ok(body) => body,
            Err(e) => { return Err(e); },
        };
        Decoder::new(body)
    }
}

/// What `finish` makes of a value once `decoded` bytes of an input of `len`
/// bytes have been read: the value, if that is all of them.
pub open spec fn spec_finish<T>(decoded: nat, len: nat, value: T) -> Result<T, ErrorKind> {
    if decoded == len {
        Ok(value)
    } else {
        Err(
            ErrorKind::TrailingData {
                decoded: Length(decoded as u32),
                remaining: Length((len - decoded) as u32),
            },
        )
    }
}

/// The contents of a value, which follow its header at the start of
/// `unread`, if there are as many bytes as the header says.
pub open spec fn spec_contents(length: Length, unread: Seq<u8>) -> Result<Seq<u8>, ErrorKind> {
    if length@ > unread.len() {
        Err(spec_read_error(length@, unread.len()))
    } else {
        Ok(unread.take(length@ as int))
    }
}

/// The contents of the SEQUENCE at the start of `s`, and the number of bytes
/// that the SEQUENCE takes with its header.
pub open spec fn spec_sequence_body(s: Seq<u8>) -> Result<(Seq<u8>, nat), ErrorKind> {
    match spec_decode_header(s) {
        Err(kind) => Err(kind),
        Ok((header, used)) => if header.tag != Tag::Sequence {
            Err(ErrorKind::TagUnexpected { expected: Some(Tag::Sequence), actual: header.tag })
        } else {
            match spec_contents(header.length, s.skip(used as int)) {
                Err(kind) => Err(kind),
                Ok(contents) => Ok((contents, used + header.length@)),
            }
        },
    }
}

impl Tag {
    /// Reads an identifier octet.
    pub fn decode(decoder: &mut Decoder<'_>) -> (r: Result<Tag, Error>)
        ensures
            final(decoder).input() == old(decoder).input(),
            match r {
                Ok(tag) => {
                    &&& old(decoder).unread().len() > 0
                    &&& Tag::spec_from_octet(old(decoder).unread()[0]) == Ok::<Tag, ErrorKind>(tag)
                    &&& final(decoder).consumed() == old(decoder).consumed() + 1
                    &&& final(decoder).unread() == old(decoder).unread().skip(1)
                },
                Err(e) => {
                    &&& *final(decoder) == *old(decoder)
                    &&& if old(decoder).unread().len() > 0 {
                        Tag::spec_from_octet(old(decoder).unread()[0]) == Err::<Tag, ErrorKind>(
                            e.kind,
                        )
                    } else {
                        e.kind == spec_end_of_input()
                    }
                },
            },
    {
        match decoder.peek_byte() {
            Some(byte) => match Tag::from_octet(byte) {
                Ok(tag) => match decoder.read_byte() {
                    Ok(_) => Ok(tag),
                    Err(e) => Err(e),
                },
                Err(e) => Err(e),
            },
            None => Err(Error::incomplete(decoder.remaining_len())),
        }
    }
}

impl Length {
    /// Reads length octets, or fails and leaves the cursor where it is.
    pub fn decode(decoder: &mut Decoder<'_>) -> (r: Result<Length, Error>)
        ensures
            final(decoder).input() == old(decoder).input(),
            match r {
                Ok(length) => {
                    &&& spec_decode_length(old(decoder).unread()) is Ok
                    &&& length@ == spec_decode_length(old(decoder).unread())->Ok_0.0
                    &&& final(decoder).consumed() == old(decoder).consumed() + spec_decode_length(
                        old(decoder).unread(),
                    )->Ok_0.1
                    &&& final(decoder).unread() == old(decoder).unread().skip(
                        spec_decode_length(old(decoder).unread())->Ok_0.1 as int,
                    )
                },
                Err(e) => {
                    &&& *final(decoder) == *old(decoder)
                    &&& spec_decode_length(old(decoder).unread()) == Err::<(nat, nat), ErrorKind>(
                        e.kind,
                    )
                },
            },
    {
        let start = *decoder;
        let r = Length::decode_octets(decoder);
        if r.is_err() {
            *decoder = start;
        }
        r
    }

    /// Reads length octets, and leaves the cursor where it failed.
    fn decode_octets(decoder: &mut Decoder<'_>) -> (r: Result<Length, Error>)
        ensures
            final(decoder).input() == old(decoder).input(),
            match r {
                Ok(length) => {
                    &&& spec_decode_length(old(decoder).unread()) is Ok
                    &&& length@ == spec_decode_length(old(decoder).unread())->Ok_0.0
                    &&& final(decoder).consumed() == old(decoder).consumed() + spec_decode_length(
                        old(decoder).unread(),
                    )->Ok_0.1
                    &&& final(decoder).unread() == old(decoder).unread().skip(
                        spec_decode_length(old(decoder).unread())->Ok_0.1 as int,
                    )
                },
                Err(e) => spec_decode_length(old(decoder).unread()) == Err::<
                    (nat, nat),
                    ErrorKind,
                >(e.kind),
            },
    {
        let ghost s = decoder.unread();
        let first = match decoder.read_byte() {
            Ok(byte) => byte,
            Err(e) => { return Err(e); },
        };
        if first < 0x80 {
            return Ok(Length(first as u32));
        }
        if first == 0x80 {
            return Err(Error::new(ErrorKind::IndefiniteLength));
        }
        if first > 0x84 {
            return Err(Error::new(ErrorKind::Overlength));
        }
        let count = first - 0x80;
        let mut value: u32 = 0;
        let mut i: u8 = 0;
        while i < count
            invariant
                i <= count <= 4,
                count == first - 0x80,
                s == old(decoder).unread(),
                s.len() >= 1,
                s[0] == first,
                s.len() >= 1 + i,
                decoder.unread() == s.skip(1 + i),
                decoder.input() == old(decoder).input(),
                decoder.consumed() == old(decoder).consumed() + 1 + i,
                value == spec_long_form_value(s, i as nat),
                i < 4 ==> value < 0x100_0000,
            decreases count - i,
        {
            let byte = match decoder.read_byte() {
                Ok(byte) => byte,
                Err(e) => { return Err(e); },
            };
            proof {
                vstd::seq_lib::lemma_seq_skip_of_skip(s, 1 + i, 1);
            }
            value = value * 0x100 + byte as u32;
            i = i + 1;
        }
        let length = match Length::try_from_u32(value) {
            Ok(length) => length,
            Err(e) => { return Err(e); },
        };
        match length.initial_octet() {
            Some(octet) => {
                if octet == first {
                    Ok(length)
                } else {
                    Err(Error::new(ErrorKind::Overlength))
                }
            },
            None => Err(Error::new(ErrorKind::Overlength)),
        }
    }
}

impl Header {
    /// Reads a header: an identifier octet and length octets. Where it fails,
    /// it leaves the cursor where it is.
    pub fn decode(decoder: &mut Decoder<'_>) -> (r: Result<Header, Error>)
        ensures
            final(decoder).input() == old(decoder).input(),
            match r {
                Ok(header) => {
                    &&& spec_decode_header(old(decoder).unread()) is Ok
                    &&& header == spec_decode_header(old(decoder).unread())->Ok_0.0
                    &&& final(decoder).consumed() == old(decoder).consumed() + spec_decode_header(
                        old(decoder).unread(),
                    )->Ok_0.1
                    &&& final(decoder).unread() == old(decoder).unread().skip(
                        spec_decode_header(old(decoder).unread())->Ok_0.1 as int,
                    )
                },
                Err(e) => {
                    &&& *final(decoder) == *old(decoder)
                    &&& spec_decode_header(old(decoder).unread()) == Err::<
                        (Header, nat),
                        ErrorKind,
                    >(e.kind)
                },
            },
    {
        let ghost s = decoder.unread();
        let start = *decoder;
        let tag = match Tag::decode(decoder) {
            Ok(tag) => tag,
            Err(e) => { return Err(e); },
        };
        match Length::decode(decoder) {
            Ok(length) => {
                proof {
                    let used = spec_decode_length(s.skip(1))->Ok_0.1;
                    crate::length::lemma_length_octets_unique(s.skip(1));
                    vstd::seq_lib::lemma_seq_skip_of_skip(s, 1, used as int);
                }
                Ok(Header { tag, length })
            },
            Err(e) => {
                *decoder = start;
                if e.kind() == ErrorKind::Overlength {
                    Err(tag.length_error())
                } else {
                    Err(e)
                }
            },
        }
    }
}

} // verus!
