//! Lengths, and the length octets of DER.

use crate::error::{Error, ErrorKind};
use vstd::prelude::*;
use vstd::std_specs::convert::{FromSpecImpl, TryFromSpecImpl};

verus! {

/// The largest length supported: one byte less than 256 MiB.
pub const MAX_LENGTH: u32 = 0x0fff_ffff;

/// A number of bytes.
#[derive(Clone, Copy, Debug, PartialEq, Eq, PartialOrd, Ord, Structural)]
pub struct Length(pub u32);

impl View for Length {
    type V = nat;

    open spec fn view(&self) -> nat {
        self.0 as nat
    }
}

impl From<u8> for Length {
    fn from(value: u8) -> (r: Length) {
        Length(value as u32)
    }
}

impl FromSpecImpl<u8> for Length {
    open spec fn obeys_from_spec() -> bool {
        true
    }

    open spec fn from_spec(value: u8) -> Length {
        Length(value as u32)
    }
}

impl From<u16> for Length {
    fn from(value: u16) -> (r: Length) {
        Length(value as u32)
    }
}

impl FromSpecImpl<u16> for Length {
    open spec fn obeys_from_spec() -> bool {
        true
    }

    open spec fn from_spec(value: u16) -> Length {
        Length(value as u32)
    }
}

impl TryFrom<u32> for Length {
    type Error = Error;

    fn try_from(value: u32) -> (r: Result<Length, Error>) {
        Length::try_from_u32(value)
    }
}

impl TryFromSpecImpl<u32> for Length {
    open spec fn obeys_try_from_spec() -> bool {
        true
    }

    open spec fn try_from_spec(value: u32) -> Result<Length, Error> {
        if value <= MAX_LENGTH {
            Ok(Length(value))
        } else {
            Err(Error { kind: ErrorKind::Overflow })
        }
    }
}

impl TryFrom<usize> for Length {
    type Error = Error;

    fn try_from(value: usize) -> (r: Result<Length, Error>) {
        Length::try_from_usize(value)
    }
}

impl TryFromSpecImpl<usize> for Length {
    open spec fn obeys_try_from_spec() -> bool {
        true
    }

    open spec fn try_from_spec(value: usize) -> Result<Length, Error> {
        if value <= MAX_LENGTH {
            Ok(Length(value as u32))
        } else {
            Err(Error { kind: ErrorKind::Overflow })
        }
    }
}

/// The length octets of DER for a length `n` below 2^32: one octet below 128,
/// else an octet that counts the octets that follow, and `n` in as few octets
/// as hold it, most significant first.
pub open spec fn spec_length_octets(n: nat) -> Seq<u8> {
    if n < 0x80 {
        seq![n as u8]
    } else if n < 0x100 {
        seq![0x81u8, n as u8]
    } else if n < 0x1_0000 {
        seq![0x82u8, (n / 0x100) as u8, (n % 0x100) as u8]
    } else if n < 0x100_0000 {
        seq![0x83u8, (n / 0x1_0000) as u8, (n / 0x100 % 0x100) as u8, (n % 0x100) as u8]
    } else {
        seq![
            0x84u8,
            (n / 0x100_0000) as u8,
            (n / 0x1_0000 % 0x100) as u8,
            (n / 0x100 % 0x100) as u8,
            (n % 0x100) as u8,
        ]
    }
}

/// The number that the first `count` octets behind the first one of `s` hold,
/// most significant first.
pub open spec fn spec_long_form_value(s: Seq<u8>, count: nat) -> nat
    recommends
        count <= 4,
        count < s.len(),
{
    if count == 0 {
        0
    } else if count == 1 {
        s[1] as nat
    } else if count == 2 {
        s[1] as nat * 0x100 + s[2] as nat
    } else if count == 3 {
        s[1] as nat * 0x1_0000 + s[2] as nat * 0x100 + s[3] as nat
    } else {
        s[1] as nat * 0x100_0000 + s[2] as nat * 0x1_0000 + s[3] as nat * 0x100 + s[4] as nat
    }
}

/// The number of octets that the long form needs for a length `n` of at least
/// 128 and below 2^32.
pub open spec fn spec_long_form_count(n: nat) -> nat {
    if n < 0x100 {
        1
    } else if n < 0x1_0000 {
        2
    } else if n < 0x100_0000 {
        3
    } else {
        4
    }
}

/// The length at the start of `s` and the number of octets that hold it.
/// The indefinite form is refused, and so are more than four octets of
/// length, a length beyond the largest supported, the long form for a length
/// below 128 and the long form with more octets than the length needs.
pub open spec fn spec_decode_length(s: Seq<u8>) -> Result<(nat, nat), ErrorKind> {
    if s.len() == 0 {
        Err(crate::error::spec_end_of_input())
    } else if s[0] < 0x80 {
        Ok((s[0] as nat, 1nat))
    } else if s[0] == 0x80 {
        Err(ErrorKind::IndefiniteLength)
    } else if s[0] > 0x84 {
        Err(ErrorKind::Overlength)
    } else {
        let count = (s[0] - 0x80) as nat;
        let value = spec_long_form_value(s, count);
        if s.len() < 1 + count {
            Err(crate::error::spec_end_of_input())
        } else if value > MAX_LENGTH {
            Err(ErrorKind::Overflow)
        } else if value < 0x80 || spec_long_form_count(value) != count {
            Err(ErrorKind::Overlength)
        } else {
            Ok((value, 1 + count))
        }
    }
}

impl Length {
    /// Whether the length is within what the library supports.
    pub open spec fn in_range(self) -> bool {
        self.0 <= MAX_LENGTH
    }

    /// The length of `value` bytes.
    pub fn new(value: u16) -> (r: Length)
        ensures
            r@ == value,
            r.in_range(),
    {
        Length(value as u32)
    }

    /// The length of `value` bytes, if that is supported.
    pub fn try_from_u32(value: u32) -> (r: Result<Length, Error>)
        ensures
            r == if value <= MAX_LENGTH {
                Ok::<Length, Error>(Length(value))
            } else {
                Err::<Length, Error>(Error { kind: ErrorKind::Overflow })
            },
    {
        if value <= MAX_LENGTH {
            Ok(Length(value))
        } else {
            Err(Error::new(ErrorKind::Overflow))
        }
    }

    /// The length of `value` bytes, if that is supported.
    pub fn try_from_usize(value: usize) -> (r: Result<Length, Error>)
        ensures
            r == if value <= MAX_LENGTH {
                Ok::<Length, Error>(Length(value as u32))
            } else {
                Err::<Length, Error>(Error { kind: ErrorKind::Overflow })
            },
    {
        if value <= MAX_LENGTH as usize {
            Ok(Length(value as u32))
        } else {
            Err(Error::new(ErrorKind::Overflow))
        }
    }

    /// The length as a `usize`.
    pub fn to_usize(self) -> (r: usize)
        ensures
            r == self@,
    {
        self.0 as usize
    }

    /// Whether the length is zero.
    pub fn is_zero(self) -> (r: bool)
        ensures
            r == (self@ == 0),
    {
        self.0 == 0
    }

    /// The sum of two lengths, if that is supported.
    pub fn checked_add(self, other: Length) -> (r: Result<Length, Error>)
        ensures
            r == if self@ + other@ <= MAX_LENGTH {
                Ok::<Length, Error>(Length((self@ + other@) as u32))
            } else {
                Err::<Length, Error>(Error { kind: ErrorKind::Overflow })
            },
    {
        match self.0.checked_add(other.0) {
            Some(sum) => Length::try_from_u32(sum),
            None => Err(Error::new(ErrorKind::Overflow)),
        }
    }

    /// The difference of two lengths, or zero where `other` is the longer one.
    pub fn saturating_sub(self, other: Length) -> (r: Length)
        ensures
            r@ == if self@ >= other@ {
                self@ - other@
            } else {
                0
            },
            self.in_range() ==> r.in_range(),
    {
        if self.0 >= other.0 {
            Length(self.0 - other.0)
        } else {
            Length(0)
        }
    }

    /// The number of length octets that encode this length.
    pub fn encoded_len(self) -> (r: Result<Length, Error>)
        ensures
            r == if self.in_range() {
                Ok::<Length, Error>(Length(spec_length_octets(self@).len() as u32))
            } else {
                Err::<Length, Error>(Error { kind: ErrorKind::Overflow })
            },
    {
        if self.0 < 0x80 {
            Ok(Length(1))
        } else if self.0 < 0x100 {
            Ok(Length(2))
        } else if self.0 < 0x1_0000 {
            Ok(Length(3))
        } else if self.0 < 0x100_0000 {
            Ok(Length(4))
        } else if self.0 <= MAX_LENGTH {
            Ok(Length(5))
        } else {
            Err(Error::new(ErrorKind::Overflow))
        }
    }

    /// The first length octet where more than one is needed.
    pub fn initial_octet(self) -> (r: Option<u8>)
        ensures
            r == if self@ < 0x80 {
                None::<u8>
            } else {
                Some(spec_length_octets(self@)[0])
            },
    {
        if self.0 < 0x80 {
            None
        } else if self.0 < 0x100 {
            Some(0x81)
        } else if self.0 < 0x1_0000 {
            Some(0x82)
        } else if self.0 < 0x100_0000 {
            Some(0x83)
        } else {
            Some(0x84)
        }
    }
}

/// A number below 2^32 is the sum of its four octets, each at its place.
proof fn lemma_octets_of(n: u32)
    ensures
        n / 0x100_0000 < 0x100,
        n == (n / 0x100_0000) * 0x100_0000 + (n / 0x1_0000 % 0x100) * 0x1_0000 + (n / 0x100
            % 0x100) * 0x100 + n % 0x100,
        n < 0x100_0000 ==> n / 0x1_0000 < 0x100 && n == (n / 0x1_0000) * 0x1_0000 + (n / 0x100
            % 0x100) * 0x100 + n % 0x100,
        n < 0x1_0000 ==> n / 0x100 < 0x100 && n == (n / 0x100) * 0x100 + n % 0x100,
{
    assert(n / 0x100_0000 < 0x100) by (bit_vector);
    assert(n == (n / 0x100_0000) * 0x100_0000 + (n / 0x1_0000 % 0x100) * 0x1_0000 + (n / 0x100
        % 0x100) * 0x100 + n % 0x100) by (bit_vector);
    assert(n < 0x100_0000 ==> n / 0x1_0000 < 0x100 && n == (n / 0x1_0000) * 0x1_0000 + (n / 0x100
        % 0x100) * 0x100 + n % 0x100) by (bit_vector);
    assert(n < 0x1_0000 ==> n / 0x100 < 0x100 && n == (n / 0x100) * 0x100 + n % 0x100)
        by (bit_vector);
}

/// The length octets of a length decode to that length and take all of
/// themselves, whatever follows them.
pub proof fn lemma_length_round_trip(n: nat, rest: Seq<u8>)
    requires
        n <= MAX_LENGTH,
    ensures
        spec_decode_length(spec_length_octets(n) + rest) == Ok::<(nat, nat), ErrorKind>(
            (n, spec_length_octets(n).len()),
        ),
{
    let octets = spec_length_octets(n);
    let s = octets + rest;
    lemma_octets_of(n as u32);
    assert(forall|i: int| 0 <= i < octets.len() ==> s[i] == octets[i]);
    if n < 0x80 {
        assert(s[0] == n);
    } else if n < 0x100 {
        assert(s[0] == 0x81 && s[1] == n);
    } else if n < 0x1_0000 {
        assert(s[0] == 0x82 && s[1] == n / 0x100 && s[2] == n % 0x100);
    } else if n < 0x100_0000 {
        assert(s[0] == 0x83 && s[1] == n / 0x1_0000 && s[2] == n / 0x100 % 0x100 && s[3] == n
            % 0x100);
    } else {
        assert(s[0] == 0x84 && s[1] == n / 0x100_0000 && s[2] == n / 0x1_0000 % 0x100 && s[3] == n
            / 0x100 % 0x100 && s[4] == n % 0x100);
    }
}

/// Four octets are the octets of the number they hold.
proof fn lemma_number_of(b3: u32, b2: u32, b1: u32, b0: u32)
    requires
        b3 < 0x100,
        b2 < 0x100,
        b1 < 0x100,
        b0 < 0x100,
    ensures
        ({
            let n = b3 * 0x100_0000 + b2 * 0x1_0000 + b1 * 0x100 + b0;
            &&& n / 0x100_0000 == b3
            &&& n / 0x1_0000 % 0x100 == b2
            &&& n / 0x100 % 0x100 == b1
            &&& n % 0x100 == b0
            &&& b3 == 0 ==> n / 0x1_0000 == b2
            &&& b3 == 0 && b2 == 0 ==> n / 0x100 == b1
        }),
{
    assert(b3 < 0x100 && b2 < 0x100 && b1 < 0x100 && b0 < 0x100 ==> ({
        let n = b3 * 0x100_0000 + b2 * 0x1_0000 + b1 * 0x100 + b0;
        &&& n / 0x100_0000 == b3
        &&& n / 0x1_0000 % 0x100 == b2
        &&& n / 0x100 % 0x100 == b1
        &&& n % 0x100 == b0
        &&& b3 == 0 ==> n / 0x1_0000 == b2
        &&& b3 == 0 && b2 == 0 ==> n / 0x100 == b1
    })) by (bit_vector);
}

/// The length octets of a smaller length and those of a larger one differ
/// before either ends, and where they first do, those of the smaller length
/// have the smaller octet. The place is returned.
pub proof fn lemma_length_octets_ordered(a: nat, b: nat) -> (k: int)
    requires
        a < b <= MAX_LENGTH,
    ensures
        0 <= k < spec_length_octets(a).len(),
        k < spec_length_octets(b).len(),
        forall|i: int| 0 <= i < k ==> spec_length_octets(a)[i] == spec_length_octets(b)[i],
        spec_length_octets(a)[k] < spec_length_octets(b)[k],
{
    let x = spec_length_octets(a);
    let y = spec_length_octets(b);
    lemma_octets_of(a as u32);
    lemma_octets_of(b as u32);
    if x.len() != y.len() || x.len() == 1 {
        0
    } else if x[1] != y[1] {
        1
    } else if x.len() == 2 {
        1
    } else if x[2] != y[2] {
        2
    } else if x.len() == 3 {
        2
    } else if x[3] != y[3] {
        3
    } else {
        4
    }
}

/// Octets that decode to a length are the length octets of that length: no
/// length has a second encoding, such as one with a leading zero octet or the
/// long form for a length below 128.
pub proof fn lemma_length_octets_unique(s: Seq<u8>)
    requires
        spec_decode_length(s) is Ok,
    ensures
        ({
            let (n, used) = spec_decode_length(s)->Ok_0;
            &&& n <= MAX_LENGTH
            &&& used <= s.len()
            &&& s.subrange(0, used as int) == spec_length_octets(n)
        }),
{
    let (n, used) = spec_decode_length(s)->Ok_0;
    let octets = spec_length_octets(n);
    let prefix = s.subrange(0, used as int);
    assert(forall|i: int| 0 <= i < used ==> prefix[i] == s[i]);
    if s[0] < 0x80 {
    } else if used == 2 {
    } else if used == 3 {
        lemma_number_of(0, 0, s[1] as u32, s[2] as u32);
    } else if used == 4 {
        lemma_number_of(0, s[1] as u32, s[2] as u32, s[3] as u32);
    } else {
        lemma_number_of(s[1] as u32, s[2] as u32, s[3] as u32, s[4] as u32);
    }
    assert(prefix.len() == octets.len());
    assert(forall|i: int| 0 <= i < used ==> prefix[i] == octets[i]);
    assert(prefix =~= octets);
}

} // verus!
