//! Reader trait.

use crate::error::{spec_incomplete, Error, ErrorKind};
use crate::header::{spec_decode_header, Header};
use crate::length::{Length, MAX_LENGTH};
use crate::tag::Tag;
use vstd::prelude::*;

verus! {

/// The part of an input that is left once `consumed` bytes of it have been
/// read.
pub open spec fn spec_unread(input: Seq<u8>, consumed: nat) -> Seq<u8> {
    input.skip(consumed as int)
}

/// What a read of `len` bytes reports where it fails: too little input comes
/// before a reader that cannot lend.
pub open spec fn spec_read_error(len: nat, left: nat) -> ErrorKind {
    if len > left {
        ErrorKind::Incomplete { expected_len: Length(len as u32), actual_len: Length(left as u32) }
    } else {
        ErrorKind::Reader
    }
}

/// Reads DER-encoded input from front to back.
///
/// A reader is a cursor into an input of at most `MAX_LENGTH` bytes. The
/// cursor never passes the end, a read moves it by exactly the bytes it
/// hands out, and a read that fails leaves the reader as it was.
///
/// A reader that cannot lend out its input fails every `read_slice` with
/// `ErrorKind::Reader`. The reads that copy are built on `read_slice` here and
/// fail alike; such a reader may have reads of its own that copy instead.
pub trait Reader<'i>: Clone + Sized {
    /// The whole of the input.
    spec fn input(&self) -> Seq<u8>;

    /// The number of bytes read so far.
    spec fn consumed(&self) -> nat;

    /// Whether the reader can lend out bytes of the input in one piece.
    spec fn lends(&self) -> bool;

    /// Get the length of the input.
    fn input_len(&self) -> (r: Length)
        ensures
            r@ == self.input().len(),
            r.in_range(),
    ;

    /// Peek at the next byte of input without modifying the cursor.
    fn peek_byte(&self) -> (r: Option<u8>)
        ensures
            self.consumed() <= self.input().len() <= MAX_LENGTH,
            r == if self.consumed() < self.input().len() {
                Some(self.input()[self.consumed() as int])
            } else {
                None::<u8>
            },
    ;

    /// Peek forward in the input data, attempting to decode a [`Header`] from
    /// the data at the current position in the decoder.
    ///
    /// Does not modify the decoder's state.
    fn peek_header(&self) -> (r: Result<Header, Error>)
        ensures
            self.consumed() <= self.input().len() <= MAX_LENGTH,
            ({
                let header = spec_decode_header(spec_unread(self.input(), self.consumed()));
                match r {
                    Ok(found) => header is Ok && header->Ok_0.0 == found,
                    Err(e) => header == Err::<(Header, nat), ErrorKind>(e.kind),
                }
            }),
    ;

    /// Get the position within the buffer.
    fn position(&self) -> (r: Length)
        ensures
            r@ == self.consumed(),
            self.consumed() <= self.input().len() <= MAX_LENGTH,
    ;

    /// Have we read all of the input data?
    fn is_finished(&self) -> (r: bool)
        ensures
            r == (self.consumed() == self.input().len()),
            self.consumed() <= self.input().len() <= MAX_LENGTH,
    {
        self.remaining_len().is_zero()
    }

    /// Peek at the next byte in the decoder and attempt to decode it as a
    /// [`Tag`] value. At the end of the input the error says that one byte
    /// more than the whole input was needed.
    ///
    /// Does not modify the decoder's state.
    fn peek_tag(&self) -> (r: Result<Tag, Error>)
        ensures
            self.consumed() <= self.input().len() <= MAX_LENGTH,
            if self.consumed() < self.input().len() {
                let tag = Tag::spec_from_octet(self.input()[self.consumed() as int]);
                match r {
                    Ok(found) => tag == Ok::<Tag, ErrorKind>(found),
                    Err(e) => tag == Err::<Tag, ErrorKind>(e.kind),
                }
            } else {
                r matches Err(e) && e.kind == spec_incomplete(Length(self.input().len() as u32))
            },
    {
        match self.peek_byte() {
            Some(byte) => Tag::from_octet(byte),
            None => Err(Error::incomplete(self.input_len())),
        }
    }

    /// Attempt to read data borrowed directly from the input as a slice,
    /// updating the internal cursor position.
    ///
    /// # Returns
    /// - `Ok(slice)` on success
    /// - `Err(ErrorKind::Incomplete)` if there is not enough data
    /// - `Err(ErrorKind::Reader)` if the reader can't borrow from the input
    fn read_slice(&mut self, len: Length) -> (r: Result<&'i [u8], Error>)
        ensures
            old(self).consumed() <= old(self).input().len() <= MAX_LENGTH,
            ({
                let unread = spec_unread(old(self).input(), old(self).consumed());
                &&& r is Ok <==> len@ <= unread.len() && old(self).lends()
                &&& match r {
                    Ok(slice) => {
                        &&& slice@ == unread.take(len@ as int)
                        &&& final(self).input() == old(self).input()
                        &&& final(self).consumed() == old(self).consumed() + len@
                        &&& final(self).lends() == old(self).lends()
                        &&& spec_unread(final(self).input(), final(self).consumed())
                            == unread.skip(len@ as int)
                    },
                    Err(e) => {
                        &&& *final(self) == *old(self)
                        &&& e.kind == spec_read_error(len@, unread.len())
                    },
                }
            }),
    ;

    /// Attempt to read input data, writing it into the provided buffer, and
    /// returning a slice on success.
    ///
    /// # Returns
    /// - `Ok(slice)` if there is sufficient data
    /// - `Err(ErrorKind::Incomplete)` if there is not enough data
    /// - `Err(ErrorKind::Overflow)` if the buffer is longer than any input
    fn read_into<'o>(&mut self, buf: &'o mut [u8]) -> (r: Result<&'o [u8], Error>)
        ensures
            old(self).consumed() <= old(self).input().len() <= MAX_LENGTH,
            ({
                let unread = spec_unread(old(self).input(), old(self).consumed());
                let len = old(buf)@.len();
                &&& r is Ok ==> len <= unread.len()
                &&& len <= unread.len() && old(self).lends() ==> r is Ok
                &&& match r {
                    Ok(slice) => {
                        &&& slice@ == unread.take(len as int)
                        &&& final(buf)@ == slice@
                        &&& final(self).input() == old(self).input()
                        &&& final(self).consumed() == old(self).consumed() + len
                        &&& final(self).lends() == old(self).lends()
                        &&& spec_unread(final(self).input(), final(self).consumed())
                            == unread.skip(len as int)
                    },
                    Err(e) => {
                        &&& *final(self) == *old(self)
                        &&& final(buf)@ == old(buf)@
                        &&& e.kind == if len > MAX_LENGTH {
                            ErrorKind::Overflow
                        } else {
                            spec_read_error(len, unread.len())
                        }
                    },
                }
            }),
        default_ensures
            r is Ok ==> old(self).lends(),
    {
        // No input is longer than the largest length, so a longer buffer
        // cannot be filled.
        let _ = self.position();
        let len = match Length::try_from_usize(buf.len()) {
            Ok(len) => len,
            Err(e) => { return Err(e); },
        };
        let input = match self.read_slice(len) {
            Ok(input) => input,
            Err(e) => { return Err(e); },
        };
        let mut i: usize = 0;
        while i < buf.len()
            invariant
                i <= buf@.len(),
                buf@.len() == input@.len(),
                forall|j: int| 0 <= j < i ==> buf@[j] == input@[j],
            decreases buf@.len() - i,
        {
            buf[i] = input[i];
            i = i + 1;
        }
        assert(buf@ == input@);
        Ok(buf)
    }

    /// Read a single byte.
    fn read_byte(&mut self) -> (r: Result<u8, Error>)
        ensures
            old(self).consumed() <= old(self).input().len() <= MAX_LENGTH,
            ({
                let unread = spec_unread(old(self).input(), old(self).consumed());
                &&& r is Ok ==> unread.len() > 0
                &&& unread.len() > 0 && old(self).lends() ==> r is Ok
                &&& match r {
                    Ok(byte) => {
                        &&& byte == unread[0]
                        &&& final(self).input() == old(self).input()
                        &&& final(self).consumed() == old(self).consumed() + 1
                        &&& final(self).lends() == old(self).lends()
                        &&& spec_unread(final(self).input(), final(self).consumed())
                            == unread.skip(1)
                    },
                    Err(e) => {
                        &&& *final(self) == *old(self)
                        &&& e.kind == spec_read_error(1, unread.len())
                    },
                }
            }),
    {
        let mut buf = [0u8];
        match self.read_into(&mut buf) {
            Ok(_) => Ok(buf[0]),
            Err(e) => Err(e),
        }
    }

    /// Get the number of bytes still remaining in the buffer.
    fn remaining_len(&self) -> (r: Length)
        ensures
            r@ == self.input().len() - self.consumed(),
            self.consumed() <= self.input().len() <= MAX_LENGTH,
    {
        let position = self.position();
        self.input_len().saturating_sub(position)
    }
}

} // verus!
