//! Writer trait.

use crate::error::{Error, ErrorKind};
use crate::header::{spec_header_octets, Header};
use crate::length::{spec_length_octets, Length, MAX_LENGTH};
use crate::tag::Tag;
use vstd::prelude::*;

verus! {

/// Takes DER-encoded output, front to back.
///
/// A writer holds what was written so far and has room for a number of
/// further bytes, at most `MAX_LENGTH` of them. A write either appends all of
/// its bytes or fails and changes nothing.
pub trait Writer {
    /// The bytes written so far.
    spec fn written(&self) -> Seq<u8>;

    /// The number of bytes that can still be written.
    spec fn room(&self) -> nat;

    /// Get the number of bytes that can still be written.
    fn room_left(&self) -> (r: Length)
        ensures
            r@ == self.room(),
            r.in_range(),
    ;

    /// Write the given bytes.
    fn write(&mut self, slice: &[u8]) -> (r: Result<(), Error>)
        ensures
            r is Ok <==> slice@.len() <= old(self).room(),
            match r {
                Ok(_) => {
                    &&& final(self).written() == old(self).written() + slice@
                    &&& final(self).room() == old(self).room() - slice@.len()
                },
                Err(e) => {
                    &&& e.kind == ErrorKind::Overlength
                    &&& final(self).written() == old(self).written()
                    &&& final(self).room() == old(self).room()
                },
            },
    ;

    /// Write a single byte.
    fn write_byte(&mut self, byte: u8) -> (r: Result<(), Error>)
        ensures
            r is Ok <==> 1 <= old(self).room(),
            match r {
                Ok(_) => {
                    &&& final(self).written() == old(self).written().push(byte)
                    &&& final(self).room() == old(self).room() - 1
                },
                Err(e) => {
                    &&& e.kind == ErrorKind::Overlength
                    &&& final(self).written() == old(self).written()
                    &&& final(self).room() == old(self).room()
                },
            },
    {
        let buf = [byte];
        let r = self.write(&buf);
        assert(old(self).written() + buf@ == old(self).written().push(byte));
        r
    }
}

/// What a writer holds after an attempt to append `bytes` as a whole: all of
/// them after what it held, or what it held. The attempt fails if the bytes
/// are more than the largest length, and else if they are more than the room
/// that the writer had.
pub open spec fn spec_appended(
    bytes: Seq<u8>,
    written: Seq<u8>,
    room: nat,
    r: Result<(), Error>,
    now_written: Seq<u8>,
    now_room: nat,
) -> bool {
    &&& r is Ok <==> bytes.len() <= room
    &&& match r {
        Ok(_) => now_written == written + bytes && now_room == room - bytes.len(),
        Err(e) => {
            &&& now_written == written
            &&& now_room == room
            &&& e.kind == if bytes.len() > MAX_LENGTH {
                ErrorKind::Overflow
            } else {
                ErrorKind::Overlength
            }
        },
    }
}

/// What a writer holds after an attempt to append `bytes` piece by piece: all
/// of them after what it held, or those at their front that it had room for
/// before a piece did not fit, or was longer than the largest length.
pub open spec fn spec_appended_in_pieces(
    bytes: Seq<u8>,
    written: Seq<u8>,
    room: nat,
    r: Result<(), Error>,
    now_written: Seq<u8>,
    now_room: nat,
) -> bool {
    &&& r is Ok <==> bytes.len() <= room
    &&& match r {
        Ok(_) => now_written == written + bytes && now_room == room - bytes.len(),
        Err(e) => {
            &&& exists|k: int|
                0 <= k <= bytes.len() && now_written == written + #[trigger] bytes.take(k)
            &&& now_written.len() + now_room == written.len() + room
            &&& e.kind == ErrorKind::Overflow || e.kind == ErrorKind::Overlength
            &&& e.kind == ErrorKind::Overflow ==> bytes.len() > MAX_LENGTH
        },
    }
}

/// Bytes appended whole or not at all are appended piece by piece, in one
/// piece.
pub proof fn lemma_whole_is_in_pieces(
    bytes: Seq<u8>,
    written: Seq<u8>,
    room: nat,
    r: Result<(), Error>,
    now_written: Seq<u8>,
    now_room: nat,
)
    requires
        r is Ok <==> bytes.len() <= room,
        r is Ok ==> now_written == written + bytes && now_room == room - bytes.len(),
        r matches Err(e) ==> now_written == written && now_room == room && (e.kind
            == ErrorKind::Overlength || (e.kind == ErrorKind::Overflow && bytes.len()
            > MAX_LENGTH)),
    ensures
        spec_appended_in_pieces(bytes, written, room, r, now_written, now_room),
{
    assert(written + bytes.take(0) == written);
}

/// Where the first piece could not be appended, nothing of the whole was.
pub proof fn lemma_nothing_appended(
    whole: Seq<u8>,
    written: Seq<u8>,
    room: nat,
    r: Result<(), Error>,
)
    requires
        whole.len() > room,
        r matches Err(e) && (e.kind == ErrorKind::Overlength || (e.kind == ErrorKind::Overflow
            && whole.len() > MAX_LENGTH)),
    ensures
        spec_appended_in_pieces(whole, written, room, r, written, room),
{
    assert(written + whole.take(0) == written);
}

/// A piece of a whole that is appended piece by piece behind the pieces
/// before it: where it is appended, the whole is appended up to the end of
/// the piece, and where it is not, the whole is appended piece by piece and
/// fails as the piece does.
pub proof fn lemma_piece_appended(
    done: Seq<u8>,
    piece: Seq<u8>,
    whole: Seq<u8>,
    written: Seq<u8>,
    room: nat,
    r: Result<(), Error>,
    now_written: Seq<u8>,
    now_room: nat,
)
    requires
        done.len() <= room,
        done.len() + piece.len() <= whole.len(),
        whole.take((done.len() + piece.len()) as int) == done + piece,
        spec_appended_in_pieces(
            piece,
            written + done,
            (room - done.len()) as nat,
            r,
            now_written,
            now_room,
        ),
    ensures
        r is Ok ==> done.len() + piece.len() <= room && now_written == written + (done + piece)
            && now_room == room - done.len() - piece.len(),
        r is Err || whole.len() == done.len() + piece.len() ==> spec_appended_in_pieces(
            whole,
            written,
            room,
            r,
            now_written,
            now_room,
        ),
{
    if r is Ok {
        assert((written + done) + piece == written + (done + piece));
        if whole.len() == done.len() + piece.len() {
            assert(whole.take(whole.len() as int) == whole);
        }
    } else {
        let k = choose|k: int|
            0 <= k <= piece.len() && now_written == (written + done) + #[trigger] piece.take(k);
        assert(whole.take(done.len() + k) == done + piece.take(k)) by {
            assert(whole.take(done.len() + k) == whole.take(
                (done.len() + piece.len()) as int,
            ).take(done.len() + k));
        }
        assert((written + done) + piece.take(k) == written + whole.take(done.len() + k));
    }
}

/// Where the first of two pieces that are each appended whole or not at all
/// is not appended, nothing of the two is.
pub proof fn lemma_first_not_appended(
    first: Seq<u8>,
    second: Seq<u8>,
    written: Seq<u8>,
    room: nat,
    r: Result<(), Error>,
    now_written: Seq<u8>,
    now_room: nat,
)
    requires
        r is Err,
        spec_appended(first, written, room, r, now_written, now_room),
    ensures
        spec_appended_in_pieces(first + second, written, room, r, now_written, now_room),
{
    lemma_nothing_appended(first + second, written, room, r);
}

/// Where the first of two pieces is appended, the two are appended as far as
/// the second is.
pub proof fn lemma_second_appended(
    first: Seq<u8>,
    second: Seq<u8>,
    written: Seq<u8>,
    room: nat,
    r: Result<(), Error>,
    now_written: Seq<u8>,
    now_room: nat,
)
    requires
        first.len() <= room,
        spec_appended(
            second,
            written + first,
            (room - first.len()) as nat,
            r,
            now_written,
            now_room,
        ),
    ensures
        spec_appended_in_pieces(first + second, written, room, r, now_written, now_room),
{
    lemma_whole_is_in_pieces(
        second,
        written + first,
        (room - first.len()) as nat,
        r,
        now_written,
        now_room,
    );
    assert((first + second).take((first + second).len() as int) == first + second);
    lemma_piece_appended(first, second, first + second, written, room, r, now_written, now_room);
}

impl Writer for Vec<u8> {
    open spec fn written(&self) -> Seq<u8> {
        self@
    }

    /// A vector grows up to the largest length.
    open spec fn room(&self) -> nat {
        if self@.len() <= MAX_LENGTH {
            (MAX_LENGTH - self@.len()) as nat
        } else {
            0
        }
    }

    fn room_left(&self) -> (r: Length) {
        if self.len() <= MAX_LENGTH as usize {
            Length(MAX_LENGTH - self.len() as u32)
        } else {
            Length(0)
        }
    }

    fn write(&mut self, slice: &[u8]) -> (r: Result<(), Error>) {
        if slice.len() > self.room_left().0 as usize {
            return Err(Error::new(ErrorKind::Overlength));
        }
        let mut i: usize = 0;
        while i < slice.len()
            invariant
                i <= slice@.len(),
                self@ == old(self)@ + slice@.take(i as int),
            decreases slice@.len() - i,
        {
            self.push(slice[i]);
            assert(slice@.take(i + 1) == slice@.take(i as int).push(slice@[i as int]));
            i = i + 1;
        }
        assert(slice@.take(slice@.len() as int) == slice@);
        Ok(())
    }
}

impl Tag {
    /// Writes the identifier octet.
    pub fn encode<W: Writer>(self, writer: &mut W) -> (r: Result<(), Error>)
        requires
            self.valid(),
        ensures
            spec_appended(
                seq![self.spec_octet()],
                old(writer).written(),
                old(writer).room(),
                r,
                final(writer).written(),
                final(writer).room(),
            ),
    {
        let r = writer.write_byte(self.octet());
        assert(old(writer).written().push(self.spec_octet()) == old(writer).written()
            + seq![self.spec_octet()]);
        r
    }
}

impl Length {
    /// Writes the length octets, if the length is one that the library
    /// supports.
    pub fn encode<W: Writer>(self, writer: &mut W) -> (r: Result<(), Error>)
        ensures
            match r {
                Err(e) if !self.in_range() => {
                    &&& e.kind == ErrorKind::Overflow
                    &&& final(writer).written() == old(writer).written()
                    &&& final(writer).room() == old(writer).room()
                },
                _ => self.in_range() && spec_appended(
                    spec_length_octets(self@),
                    old(writer).written(),
                    old(writer).room(),
                    r,
                    final(writer).written(),
                    final(writer).room(),
                ),
            },
    {
        let n = self.0;
        if n < 0x80 {
            let buf = [n as u8];
            assert(buf@ == spec_length_octets(self@));
            writer.write(&buf)
        } else if n < 0x100 {
            let buf = [0x81u8, n as u8];
            assert(buf@ == spec_length_octets(self@));
            writer.write(&buf)
        } else if n < 0x1_0000 {
            let buf = [0x82u8, (n / 0x100) as u8, (n % 0x100) as u8];
            assert(buf@ == spec_length_octets(self@));
            writer.write(&buf)
        } else if n < 0x100_0000 {
            let buf = [0x83u8, (n / 0x1_0000) as u8, (n / 0x100 % 0x100) as u8, (n % 0x100) as u8];
            assert(buf@ == spec_length_octets(self@));
            writer.write(&buf)
        } else if n <= MAX_LENGTH {
            let buf = [
                0x84u8,
                (n / 0x100_0000) as u8,
                (n / 0x1_0000 % 0x100) as u8,
                (n / 0x100 % 0x100) as u8,
                (n % 0x100) as u8,
            ];
            assert(buf@ == spec_length_octets(self@));
            writer.write(&buf)
        } else {
            Err(Error::new(ErrorKind::Overflow))
        }
    }
}

impl Header {
    /// Writes the header, if its length is one that the library supports:
    /// all of it or, where the writer has no room for all, nothing.
    pub fn encode<W: Writer>(&self, writer: &mut W) -> (r: Result<(), Error>)
        requires
            self.tag.valid(),
        ensures
            match r {
                Err(e) if !self.length.in_range() => {
                    &&& e.kind == ErrorKind::Overflow
                    &&& final(writer).written() == old(writer).written()
                    &&& final(writer).room() == old(writer).room()
                },
                _ => self.length.in_range() && spec_appended(
                    spec_header_octets(*self),
                    old(writer).written(),
                    old(writer).room(),
                    r,
                    final(writer).written(),
                    final(writer).room(),
                ),
            },
    {
        let len = match self.encoded_len() {
            Ok(len) => len,
            Err(e) => { return Err(e); },
        };
        if len.0 > writer.room_left().0 {
            return Err(Error::new(ErrorKind::Overlength));
        }
        match self.tag.encode(writer) {
            Ok(_) => {},
            Err(e) => { return Err(e); },
        }
        let r = self.length.encode(writer);
        assert(old(writer).written() + seq![self.tag.spec_octet()] + spec_length_octets(
            self.length@,
        ) == old(writer).written() + spec_header_octets(*self));
        r
    }
}

} // verus!
