//! A writer into a byte slice.

use crate::error::{Error, ErrorKind};
use crate::length::{Length, MAX_LENGTH};
use crate::writer::Writer;
use vstd::prelude::*;
use vstd::slice::slice_subrange;

verus! {

/// Writes DER into a byte slice, from its start, and hands out the part
/// written at the end.
pub struct Encoder<'a> {
    bytes: &'a mut [u8],
    position: usize,
    limit: usize,
}

impl<'a> Writer for Encoder<'a> {
    closed spec fn written(&self) -> Seq<u8> {
        self.bytes@.take(self.position as int)
    }

    closed spec fn room(&self) -> nat {
        (self.limit - self.position) as nat
    }

    fn room_left(&self) -> (r: Length) {
        proof {
            use_type_invariant(self);
        }
        Length((self.limit - self.position) as u32)
    }

    fn write(&mut self, slice: &[u8]) -> (r: Result<(), Error>) {
        proof {
            use_type_invariant(&*self);
        }
        if slice.len() > self.limit - self.position {
            return Err(Error::new(ErrorKind::Overlength));
        }
        let start = self.position;
        let mut i: usize = 0;
        while i < slice.len()
            invariant
                i <= slice@.len(),
                start + slice@.len() <= self.limit <= self.bytes@.len(),
                self.limit <= MAX_LENGTH,
                self.limit == old(self).limit,
                self.position == start,
                start == old(self).position,
                self.bytes@.len() == old(self).bytes@.len(),
                self.bytes@.take(start + i) == old(self).bytes@.take(start as int) + slice@.take(
                    i as int,
                ),
            decreases slice@.len() - i,
        {
            let ghost before = self.bytes@;
            self.bytes[start + i] = slice[i];
            assert(self.bytes@.take(start + i + 1) == before.take(start + i).push(slice@[i as int]));
            assert(slice@.take(i + 1) == slice@.take(i as int).push(slice@[i as int]));
            i = i + 1;
        }
        assert(slice@.take(slice@.len() as int) == slice@);
        self.position = start + slice.len();
        Ok(())
    }
}

impl<'a> Encoder<'a> {
    #[verifier::type_invariant]
    spec fn well_formed(self) -> bool {
        self.position <= self.limit <= self.bytes@.len() && self.limit <= MAX_LENGTH
    }

    /// An encoder that writes into `bytes`, from their start, as far as they
    /// reach and no further than the largest length.
    pub fn new(bytes: &'a mut [u8]) -> (r: Encoder<'a>)
        ensures
            r.written() == Seq::<u8>::empty(),
            r.room() == if old(bytes)@.len() <= MAX_LENGTH {
                old(bytes)@.len()
            } else {
                MAX_LENGTH as nat
            },
    {
        let limit = if bytes.len() <= MAX_LENGTH as usize {
            bytes.len()
        } else {
            MAX_LENGTH as usize
        };
        Encoder { bytes, position: 0, limit }
    }

    /// The bytes written, which lie at the start of the slice that the
    /// encoder was made with.
    pub fn finish(self) -> (r: Result<&'a [u8], Error>)
        ensures
            r matches Ok(slice) && slice@ == self.written(),
    {
        proof {
            use_type_invariant(&self);
        }
        let position = self.position;
        let bytes: &'a [u8] = self.bytes;
        Ok(slice_subrange(bytes, 0, position))
    }
}

} // verus!
