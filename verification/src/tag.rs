//! ASN.1 tags, as far as one identifier octet holds them.

use crate::error::{Error, ErrorKind};
use vstd::prelude::*;

verus! {

/// The largest tag number that fits into the identifier octet.
pub const MAX_TAG_NUMBER: u8 = 30;

/// The number of a tag outside the universal class.
#[derive(Clone, Copy, Debug, PartialEq, Eq, Structural)]
pub struct TagNumber(pub u8);

impl TagNumber {
    /// The tag number `value`, if one octet can hold it.
    pub fn new(value: u8) -> (r: Result<TagNumber, Error>)
        ensures
            r == if value <= MAX_TAG_NUMBER {
                Ok::<TagNumber, Error>(TagNumber(value))
            } else {
                Err::<TagNumber, Error>(Error { kind: ErrorKind::TagNumberInvalid })
            },
    {
        if value <= MAX_TAG_NUMBER {
            Ok(TagNumber(value))
        } else {
            Err(Error::new(ErrorKind::TagNumberInvalid))
        }
    }

    /// The number as an integer.
    pub fn value(self) -> (r: u8)
        ensures
            r == self.0,
    {
        self.0
    }
}

/// The class of a tag: the two highest bits of the identifier octet.
#[derive(Clone, Copy, Debug, PartialEq, Eq, Structural)]
pub enum Class {
    Universal,
    Application,
    ContextSpecific,
    Private,
}

/// An ASN.1 tag.
#[derive(Clone, Copy, Debug, PartialEq, Eq, Structural)]
pub enum Tag {
    Boolean,
    Integer,
    BitString,
    OctetString,
    Null,
    ObjectIdentifier,
    Enumerated,
    Utf8String,
    Sequence,
    SetOf,
    NumericString,
    PrintableString,
    Ia5String,
    UtcTime,
    GeneralizedTime,
    VisibleString,
    BmpString,
    Application { constructed: bool, number: TagNumber },
    ContextSpecific { constructed: bool, number: TagNumber },
    Private { constructed: bool, number: TagNumber },
}

/// The identifier octet of a tag of a class other than the universal one:
/// `base` holds the class bits.
pub open spec fn spec_tagged_octet(base: int, constructed: bool, number: TagNumber) -> u8 {
    (base + (if constructed { 0x20int } else { 0int }) + number.0) as u8
}

impl Tag {
    /// Whether one identifier octet can hold the tag.
    pub open spec fn valid(self) -> bool {
        match self {
            Tag::Application { number, .. } => number.0 <= MAX_TAG_NUMBER,
            Tag::ContextSpecific { number, .. } => number.0 <= MAX_TAG_NUMBER,
            Tag::Private { number, .. } => number.0 <= MAX_TAG_NUMBER,
            _ => true,
        }
    }

    /// The identifier octet of a valid tag.
    pub open spec fn spec_octet(self) -> u8 {
        match self {
            Tag::Boolean => 0x01,
            Tag::Integer => 0x02,
            Tag::BitString => 0x03,
            Tag::OctetString => 0x04,
            Tag::Null => 0x05,
            Tag::ObjectIdentifier => 0x06,
            Tag::Enumerated => 0x0a,
            Tag::Utf8String => 0x0c,
            Tag::Sequence => 0x30,
            Tag::SetOf => 0x31,
            Tag::NumericString => 0x12,
            Tag::PrintableString => 0x13,
            Tag::Ia5String => 0x16,
            Tag::UtcTime => 0x17,
            Tag::GeneralizedTime => 0x18,
            Tag::VisibleString => 0x1a,
            Tag::BmpString => 0x1e,
            Tag::Application { constructed, number } => spec_tagged_octet(0x40, constructed, number),
            Tag::ContextSpecific { constructed, number } => spec_tagged_octet(
                0x80,
                constructed,
                number,
            ),
            Tag::Private { constructed, number } => spec_tagged_octet(0xc0, constructed, number),
        }
    }

    /// The tag that an identifier octet stands for. The low five bits all set
    /// announce a tag number in further octets, which is not supported; bit six
    /// says whether the encoding is constructed, and an octet that sets it for a
    /// universal type that is always primitive (or clears it for SEQUENCE or
    /// SET OF) stands for no tag.
    pub open spec fn spec_from_octet(byte: u8) -> Result<Tag, ErrorKind> {
        let constructed = (byte / 0x20) % 2 == 1;
        let number = TagNumber(byte % 0x20);
        if byte % 0x20 == 0x1f {
            Err(ErrorKind::TagNumberInvalid)
        } else if byte == 0x01 {
            Ok(Tag::Boolean)
        } else if byte == 0x02 {
            Ok(Tag::Integer)
        } else if byte == 0x03 {
            Ok(Tag::BitString)
        } else if byte == 0x04 {
            Ok(Tag::OctetString)
        } else if byte == 0x05 {
            Ok(Tag::Null)
        } else if byte == 0x06 {
            Ok(Tag::ObjectIdentifier)
        } else if byte == 0x0a {
            Ok(Tag::Enumerated)
        } else if byte == 0x0c {
            Ok(Tag::Utf8String)
        } else if byte == 0x12 {
            Ok(Tag::NumericString)
        } else if byte == 0x13 {
            Ok(Tag::PrintableString)
        } else if byte == 0x16 {
            Ok(Tag::Ia5String)
        } else if byte == 0x17 {
            Ok(Tag::UtcTime)
        } else if byte == 0x18 {
            Ok(Tag::GeneralizedTime)
        } else if byte == 0x1a {
            Ok(Tag::VisibleString)
        } else if byte == 0x1e {
            Ok(Tag::BmpString)
        } else if byte == 0x30 {
            Ok(Tag::Sequence)
        } else if byte == 0x31 {
            Ok(Tag::SetOf)
        } else if 0x40 <= byte < 0x80 {
            Ok(Tag::Application { constructed, number })
        } else if 0x80 <= byte < 0xc0 {
            Ok(Tag::ContextSpecific { constructed, number })
        } else if 0xc0 <= byte {
            Ok(Tag::Private { constructed, number })
        } else {
            Err(ErrorKind::TagUnknown { byte })
        }
    }

    /// Whether values with this tag hold other values.
    pub open spec fn spec_is_constructed(self) -> bool {
        match self {
            Tag::Sequence | Tag::SetOf => true,
            Tag::Application { constructed, .. } => constructed,
            Tag::ContextSpecific { constructed, .. } => constructed,
            Tag::Private { constructed, .. } => constructed,
            _ => false,
        }
    }

    /// The class of the tag.
    pub open spec fn spec_class(self) -> Class {
        match self {
            Tag::Application { .. } => Class::Application,
            Tag::ContextSpecific { .. } => Class::ContextSpecific,
            Tag::Private { .. } => Class::Private,
            _ => Class::Universal,
        }
    }

    /// Decodes an identifier octet.
    pub fn from_octet(byte: u8) -> (r: Result<Tag, Error>)
        ensures
            r matches Ok(tag) ==> Tag::spec_from_octet(byte) == Ok::<Tag, ErrorKind>(tag)
                && tag.valid() && tag.spec_octet() == byte,
            r matches Err(e) ==> Tag::spec_from_octet(byte) == Err::<Tag, ErrorKind>(e.kind),
    {
        let constructed = (byte / 0x20) % 2 == 1;
        let number = match TagNumber::new(byte % 0x20) {
            Ok(number) => number,
            Err(e) => { return Err(e); },
        };
        match byte {
            0x01 => Ok(Tag::Boolean),
            0x02 => Ok(Tag::Integer),
            0x03 => Ok(Tag::BitString),
            0x04 => Ok(Tag::OctetString),
            0x05 => Ok(Tag::Null),
            0x06 => Ok(Tag::ObjectIdentifier),
            0x0a => Ok(Tag::Enumerated),
            0x0c => Ok(Tag::Utf8String),
            0x12 => Ok(Tag::NumericString),
            0x13 => Ok(Tag::PrintableString),
            0x16 => Ok(Tag::Ia5String),
            0x17 => Ok(Tag::UtcTime),
            0x18 => Ok(Tag::GeneralizedTime),
            0x1a => Ok(Tag::VisibleString),
            0x1e => Ok(Tag::BmpString),
            0x30 => Ok(Tag::Sequence),
            0x31 => Ok(Tag::SetOf),
            0x40..=0x7e => Ok(Tag::Application { constructed, number }),
            0x80..=0xbe => Ok(Tag::ContextSpecific { constructed, number }),
            0xc0..=0xfe => Ok(Tag::Private { constructed, number }),
            _ => Err(Error::new(ErrorKind::TagUnknown { byte })),
        }
    }

    /// The identifier octet of the tag.
    pub fn octet(self) -> (r: u8)
        requires
            self.valid(),
        ensures
            r == self.spec_octet(),
    {
        match self {
            Tag::Boolean => 0x01,
            Tag::Integer => 0x02,
            Tag::BitString => 0x03,
            Tag::OctetString => 0x04,
            Tag::Null => 0x05,
            Tag::ObjectIdentifier => 0x06,
            Tag::Enumerated => 0x0a,
            Tag::Utf8String => 0x0c,
            Tag::Sequence => 0x30,
            Tag::SetOf => 0x31,
            Tag::NumericString => 0x12,
            Tag::PrintableString => 0x13,
            Tag::Ia5String => 0x16,
            Tag::UtcTime => 0x17,
            Tag::GeneralizedTime => 0x18,
            Tag::VisibleString => 0x1a,
            Tag::BmpString => 0x1e,
            Tag::Application { constructed, number } => tagged_octet(0x40, constructed, number),
            Tag::ContextSpecific { constructed, number } => tagged_octet(0x80, constructed, number),
            Tag::Private { constructed, number } => tagged_octet(0xc0, constructed, number),
        }
    }

    /// Whether values with this tag hold other values.
    pub fn is_constructed(self) -> (r: bool)
        ensures
            r == self.spec_is_constructed(),
    {
        match self {
            Tag::Sequence | Tag::SetOf => true,
            Tag::Application { constructed, .. } => constructed,
            Tag::ContextSpecific { constructed, .. } => constructed,
            Tag::Private { constructed, .. } => constructed,
            _ => false,
        }
    }

    /// The class of the tag.
    pub fn class(self) -> (r: Class)
        ensures
            r == self.spec_class(),
    {
        match self {
            Tag::Application { .. } => Class::Application,
            Tag::ContextSpecific { .. } => Class::ContextSpecific,
            Tag::Private { .. } => Class::Private,
            _ => Class::Universal,
        }
    }

    /// Hands the tag back if it is the expected one.
    pub fn assert_eq(self, expected: Tag) -> (r: Result<Tag, Error>)
        ensures
            r == if self == expected {
                Ok::<Tag, Error>(self)
            } else {
                Err::<Tag, Error>(
                    Error { kind: ErrorKind::TagUnexpected { expected: Some(expected), actual: self } },
                )
            },
    {
        if self == expected {
            Ok(self)
        } else {
            Err(Error::new(ErrorKind::TagUnexpected { expected: Some(expected), actual: self }))
        }
    }

    /// The error for contents that are no value of the type with this tag.
    pub fn value_error(self) -> (r: Error)
        ensures
            r.kind == (ErrorKind::Value { tag: self }),
    {
        Error::new(ErrorKind::Value { tag: self })
    }

    /// The error for length octets that are not the shortest ones.
    pub fn length_error(self) -> (r: Error)
        ensures
            r.kind == (ErrorKind::Length { tag: self }),
    {
        Error::new(ErrorKind::Length { tag: self })
    }

    /// The error for contents that are not in canonical form.
    pub fn non_canonical_error(self) -> (r: Error)
        ensures
            r.kind == (ErrorKind::Noncanonical { tag: self }),
    {
        Error::new(ErrorKind::Noncanonical { tag: self })
    }
}

fn tagged_octet(base: u8, constructed: bool, number: TagNumber) -> (r: u8)
    requires
        base == 0x40 || base == 0x80 || base == 0xc0,
        number.0 <= MAX_TAG_NUMBER,
    ensures
        r == spec_tagged_octet(base as int, constructed, number),
{
    let flag: u8 = if constructed { 0x20 } else { 0 };
    base + flag + number.0
}

/// A valid tag is the one that its identifier octet decodes to.
pub proof fn lemma_tag_octet_round_trip(tag: Tag)
    requires
        tag.valid(),
    ensures
        Tag::spec_from_octet(tag.spec_octet()) == Ok::<Tag, ErrorKind>(tag),
{
    match tag {
        Tag::Application { constructed, number } => {
            assert(number == TagNumber(number.0));
        },
        Tag::ContextSpecific { constructed, number } => {
            assert(number == TagNumber(number.0));
        },
        Tag::Private { constructed, number } => {
            assert(number == TagNumber(number.0));
        },
        _ => {},
    }
}

/// An identifier octet that decodes is the octet of the tag it decodes to, so
/// no two octets stand for one tag.
pub proof fn lemma_octet_tag_round_trip(byte: u8)
    requires
        Tag::spec_from_octet(byte) is Ok,
    ensures
        Tag::spec_from_octet(byte)->Ok_0.valid(),
        Tag::spec_from_octet(byte)->Ok_0.spec_octet() == byte,
{
}

/// Types whose values all carry one tag.
pub trait FixedTag {
    /// The tag of every value of the type.
    spec fn spec_fixed_tag() -> Tag;

    /// The tag fits into one identifier octet.
    proof fn lemma_fixed_tag_valid()
        ensures
            Self::spec_fixed_tag().valid(),
    ;

    /// The tag of every value of the type.
    fn fixed_tag() -> (r: Tag)
        ensures
            r == Self::spec_fixed_tag(),
    ;
}

} // verus!
