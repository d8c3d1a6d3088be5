//! The tag and the length that stand before every value.

use crate::error::{Error, ErrorKind};
use crate::length::{spec_decode_length, spec_length_octets, Length};
use crate::tag::Tag;
use vstd::prelude::*;

verus! {

/// The tag of a value and the length of its contents.
#[derive(Clone, Copy, Debug, PartialEq, Eq, Structural)]
pub struct Header {
    pub tag: Tag,
    pub length: Length,
}

/// The octets of a header: the identifier octet, then the length octets.
pub open spec fn spec_header_octets(header: Header) -> Seq<u8> {
    seq![header.tag.spec_octet()] + spec_length_octets(header.length@)
}

/// The error of a header whose length octets fail with `kind`: length octets
/// that are not the shortest are reported with the tag they follow.
pub open spec fn spec_header_length_error(tag: Tag, kind: ErrorKind) -> ErrorKind {
    if kind == ErrorKind::Overlength {
        ErrorKind::Length { tag }
    } else {
        kind
    }
}

/// The header at the start of `s` and the number of octets that hold it.
pub open spec fn spec_decode_header(s: Seq<u8>) -> Result<(Header, nat), ErrorKind> {
    if s.len() == 0 {
        Err(crate::error::spec_end_of_input())
    } else {
        match Tag::spec_from_octet(s[0]) {
            Err(kind) => Err(kind),
            Ok(tag) => match spec_decode_length(s.skip(1)) {
                Err(kind) => Err(spec_header_length_error(tag, kind)),
                Ok((n, used)) => Ok((Header { tag, length: Length(n as u32) }, 1 + used)),
            },
        }
    }
}

impl Header {
    /// Whether the header can be encoded.
    pub open spec fn valid(self) -> bool {
        self.tag.valid() && self.length.in_range()
    }

    /// The header of a value with the given tag and length.
    pub fn new(tag: Tag, length: Length) -> (r: Header)
        ensures
            r == (Header { tag, length }),
    {
        Header { tag, length }
    }

    /// The number of octets that encode this header.
    pub fn encoded_len(&self) -> (r: Result<Length, Error>)
        ensures
            r == if self.length.in_range() {
                Ok::<Length, Error>(Length(spec_header_octets(*self).len() as u32))
            } else {
                Err::<Length, Error>(Error { kind: ErrorKind::Overflow })
            },
    {
        match self.length.encoded_len() {
            Ok(len) => Ok(Length(len.0 + 1)),
            Err(e) => Err(e),
        }
    }
}

/// The octets of a header decode to that header and take all of themselves,
/// whatever follows them.
pub proof fn lemma_header_round_trip(header: Header, rest: Seq<u8>)
    requires
        header.valid(),
    ensures
        spec_decode_header(spec_header_octets(header) + rest) == Ok::<(Header, nat), ErrorKind>(
            (header, spec_header_octets(header).len()),
        ),
{
    let s = spec_header_octets(header) + rest;
    crate::tag::lemma_tag_octet_round_trip(header.tag);
    crate::length::lemma_length_round_trip(header.length@, rest);
    assert(s.skip(1) == spec_length_octets(header.length@) + rest);
    assert(header.length == Length(header.length@ as u32));
}

/// Octets that decode to a header are the octets of that header: no header
/// has a second encoding.
pub proof fn lemma_header_octets_unique(s: Seq<u8>)
    requires
        spec_decode_header(s) is Ok,
    ensures
        ({
            let (header, used) = spec_decode_header(s)->Ok_0;
            &&& header.valid()
            &&& used <= s.len()
            &&& s.subrange(0, used as int) == spec_header_octets(header)
        }),
{
    let (header, used) = spec_decode_header(s)->Ok_0;
    crate::tag::lemma_octet_tag_round_trip(s[0]);
    crate::length::lemma_length_octets_unique(s.skip(1));
    assert(s.subrange(0, used as int) == seq![s[0]] + s.skip(1).subrange(0, used - 1));
}

} // verus!
