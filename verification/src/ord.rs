//! The order of values that DER sorts the elements of a SET OF by.
//!
//! An encoder of a SET OF writes its elements in this order. Nothing here
//! decodes a SET OF, and so nothing holds incoming elements against the
//! order: a decoder that is to refuse elements out of order compares each
//! with the one before it by `DerOrd::der_cmp`.

use core::cmp::Ordering;
use crate::asn1::uint::{spec_uint_contents, UIntBytes};
use crate::asn1::utc_time::{lemma_utc_contents_len, spec_utc_contents, UtcTime};
use crate::encode::{Encode, EncodeValue};
use crate::error::{Error, ErrorKind};
use crate::length::{lemma_length_octets_ordered, spec_length_octets, MAX_LENGTH};
use crate::tag::FixedTag;
use vstd::prelude::*;

verus! {

/// How a length compares with another.
pub open spec fn order_of_lengths(a: nat, b: nat) -> Ordering {
    if a < b {
        Ordering::Less
    } else if a == b {
        Ordering::Equal
    } else {
        Ordering::Greater
    }
}

/// How a string of bytes compares with another: the first byte in which the
/// two differ decides, and a string comes before those that it starts.
pub open spec fn order_of_bytes(a: Seq<u8>, b: Seq<u8>) -> Ordering
    decreases a.len(),
{
    if a.len() == 0 && b.len() == 0 {
        Ordering::Equal
    } else if a.len() == 0 {
        Ordering::Less
    } else if b.len() == 0 {
        Ordering::Greater
    } else if a[0] < b[0] {
        Ordering::Less
    } else if a[0] > b[0] {
        Ordering::Greater
    } else {
        order_of_bytes(a.skip(1), b.skip(1))
    }
}

/// Compares a string of bytes with another.
pub fn cmp_bytes(a: &[u8], b: &[u8]) -> (r: Ordering)
    ensures
        r == order_of_bytes(a@, b@),
{
    let mut i: usize = 0;
    let ghost mut k: int = 0;
    proof {
        assert(a@.skip(0) == a@ && b@.skip(0) == b@);
    }
    while i < a.len() && i < b.len()
        invariant
            k == i,
            0 <= k <= a@.len(),
            k <= b@.len(),
            order_of_bytes(a@, b@) == order_of_bytes(a@.skip(k), b@.skip(k)),
        decreases a@.len() - k,
    {
        if a[i] < b[i] {
            return Ordering::Less;
        }
        if a[i] > b[i] {
            return Ordering::Greater;
        }
        proof {
            assert(a@.skip(k).skip(1) == a@.skip(k + 1));
            assert(b@.skip(k).skip(1) == b@.skip(k + 1));
            k = k + 1;
        }
        i = i + 1;
    }
    if i < b.len() {
        Ordering::Less
    } else if i < a.len() {
        Ordering::Greater
    } else {
        Ordering::Equal
    }
}

/// How two values of a type with one tag compare, from the lengths of their
/// contents and from how the contents compare: their headers differ in the
/// length alone, the header with the shorter length comes first, and the
/// contents decide between equal lengths. Contents longer than the largest
/// length have no header.
pub open spec fn order_of_tagged(
    a_len: nat,
    b_len: nat,
    contents: Result<Ordering, ErrorKind>,
) -> Result<Ordering, ErrorKind> {
    if a_len > MAX_LENGTH || b_len > MAX_LENGTH {
        Err(ErrorKind::Overflow)
    } else if a_len == b_len {
        contents
    } else {
        Ok(order_of_lengths(a_len, b_len))
    }
}

/// The order of the values of a type, by which DER sorts them.
pub trait DerOrd {
    /// How `self` compares with `other`, or why the two cannot be compared.
    spec fn der_order(&self, other: &Self) -> Result<Ordering, ErrorKind>;

    /// Compares `self` with `other`.
    fn der_cmp(&self, other: &Self) -> (r: Result<Ordering, Error>)
        ensures
            match r {
                Ok(ordering) => self.der_order(other) == Ok::<Ordering, ErrorKind>(ordering),
                Err(e) => self.der_order(other) == Err::<Ordering, ErrorKind>(e.kind),
            },
    ;
}

/// The order of the contents of values of one type.
pub trait ValueOrd {
    /// How the contents of `self` compare with those of `other`.
    spec fn value_order(&self, other: &Self) -> Result<Ordering, ErrorKind>;

    /// Compares the contents of `self` with those of `other`.
    fn value_cmp(&self, other: &Self) -> (r: Result<Ordering, Error>)
        ensures
            match r {
                Ok(ordering) => self.value_order(other) == Ok::<Ordering, ErrorKind>(ordering),
                Err(e) => self.value_order(other) == Err::<Ordering, ErrorKind>(e.kind),
            },
    ;
}

impl<T> DerOrd for T where T: EncodeValue + ValueOrd + FixedTag {
    open spec fn der_order(&self, other: &Self) -> Result<Ordering, ErrorKind> {
        order_of_tagged(
            T::spec_encode_value(self.deep_view()).len(),
            T::spec_encode_value(other.deep_view()).len(),
            self.value_order(other),
        )
    }

    fn der_cmp(&self, other: &Self) -> (r: Result<Ordering, Error>) {
        let a = match self.value_len() {
            Ok(len) => len,
            Err(e) => { return Err(e); },
        };
        let b = match other.value_len() {
            Ok(len) => len,
            Err(e) => { return Err(e); },
        };
        if a.0 < b.0 {
            Ok(Ordering::Less)
        } else if a.0 > b.0 {
            Ok(Ordering::Greater)
        } else {
            self.value_cmp(other)
        }
    }
}

impl<T> DerOrd for Option<T> where T: DerOrd {
    /// An absent value comes before every present one and is equal to an
    /// absent one, as nothing is encoded of either; two present values
    /// compare as `T` compares them.
    open spec fn der_order(&self, other: &Self) -> Result<Ordering, ErrorKind> {
        match self {
            Some(a) => match other {
                Some(b) => a.der_order(b),
                None => Ok(Ordering::Greater),
            },
            None => match other {
                Some(_) => Ok(Ordering::Less),
                None => Ok(Ordering::Equal),
            },
        }
    }

    fn der_cmp(&self, other: &Self) -> (r: Result<Ordering, Error>) {
        match self {
            Some(a) => match other {
                Some(b) => a.der_cmp(b),
                None => Ok(Ordering::Greater),
            },
            None => match other {
                Some(_) => Ok(Ordering::Less),
                None => Ok(Ordering::Equal),
            },
        }
    }
}

impl ValueOrd for UtcTime {
    /// The contents compare as strings of bytes: within a century the
    /// earlier time comes first, and the years from 2000 come before those
    /// up to 1999, as their two digits do.
    open spec fn value_order(&self, other: &Self) -> Result<Ordering, ErrorKind> {
        Ok(order_of_bytes(spec_utc_contents(self@), spec_utc_contents(other@)))
    }

    fn value_cmp(&self, other: &Self) -> (r: Result<Ordering, Error>) {
        let mut a: Vec<u8> = Vec::new();
        let mut b: Vec<u8> = Vec::new();
        proof {
            lemma_utc_contents_len(self@);
            lemma_utc_contents_len(other@);
        }
        match self.encode_value(&mut a) {
            Ok(_) => {},
            Err(e) => { return Err(e); },
        }
        match other.encode_value(&mut b) {
            Ok(_) => {},
            Err(e) => { return Err(e); },
        }
        assert(a@ == spec_utc_contents(self@) && b@ == spec_utc_contents(other@)) by {
            assert(Seq::<u8>::empty() + spec_utc_contents(self@) == spec_utc_contents(self@));
            assert(Seq::<u8>::empty() + spec_utc_contents(other@) == spec_utc_contents(other@));
        }
        Ok(cmp_bytes(a.as_slice(), b.as_slice()))
    }
}

impl<'a> ValueOrd for UIntBytes<'a> {
    /// The contents compare as strings of bytes.
    open spec fn value_order(&self, other: &Self) -> Result<Ordering, ErrorKind> {
        Ok(order_of_bytes(spec_uint_contents(self@), spec_uint_contents(other@)))
    }

    fn value_cmp(&self, other: &Self) -> (r: Result<Ordering, Error>) {
        let a = self.as_bytes();
        let b = other.as_bytes();
        let a_padded = a[0] >= 0x80;
        let b_padded = b[0] >= 0x80;
        if a_padded == b_padded {
            proof {
                if a_padded {
                    assert(spec_uint_contents(a@).skip(1) == a@);
                    assert(spec_uint_contents(b@).skip(1) == b@);
                    assert(spec_uint_contents(a@)[0] == 0 && spec_uint_contents(b@)[0] == 0);
                } else {
                    assert(spec_uint_contents(a@) == a@ && spec_uint_contents(b@) == b@);
                }
            }
            Ok(cmp_bytes(a, b))
        } else if a_padded {
            // The contents of `self` start with a zero byte, and have a
            // second byte.
            proof {
                reveal_with_fuel(order_of_bytes, 3);
                assert(spec_uint_contents(a@).skip(1) == a@);
                assert(spec_uint_contents(a@)[0] == 0);
                assert(spec_uint_contents(b@) == b@);
                if b@.len() == 1 {
                    assert(b@.skip(1).len() == 0);
                }
            }
            if b[0] == 0 {
                Ok(Ordering::Greater)
            } else {
                Ok(Ordering::Less)
            }
        } else {
            proof {
                reveal_with_fuel(order_of_bytes, 3);
                assert(spec_uint_contents(b@).skip(1) == b@);
                assert(spec_uint_contents(b@)[0] == 0);
                assert(spec_uint_contents(a@) == a@);
                if a@.len() == 1 {
                    assert(a@.skip(1).len() == 0);
                }
            }
            if a[0] == 0 {
                Ok(Ordering::Less)
            } else {
                Ok(Ordering::Greater)
            }
        }
    }
}

/// Two strings of bytes compare as what is left of them behind a common
/// front.
pub proof fn lemma_order_behind_common_front(front: Seq<u8>, a: Seq<u8>, b: Seq<u8>)
    ensures
        order_of_bytes(front + a, front + b) == order_of_bytes(a, b),
    decreases front.len(),
{
    if front.len() == 0 {
        assert(front + a == a && front + b == b);
    } else {
        lemma_order_behind_common_front(front.skip(1), a, b);
        assert((front + a).skip(1) == front.skip(1) + a);
        assert((front + b).skip(1) == front.skip(1) + b);
    }
}

/// A string of bytes comes before another if it has the smaller byte where
/// the two first differ.
pub proof fn lemma_order_at_first_difference(a: Seq<u8>, b: Seq<u8>, k: int)
    requires
        0 <= k < a.len(),
        k < b.len(),
        forall|i: int| 0 <= i < k ==> a[i] == b[i],
        a[k] != b[k],
    ensures
        order_of_bytes(a, b) == if a[k] < b[k] {
            Ordering::Less
        } else {
            Ordering::Greater
        },
    decreases k,
{
    if k > 0 {
        assert(a[0] == b[0]);
        assert forall|i: int| 0 <= i < k - 1 implies a.skip(1)[i] == b.skip(1)[i] by {
            assert(a[i + 1] == b[i + 1]);
        }
        lemma_order_at_first_difference(a.skip(1), b.skip(1), k - 1);
    }
}

/// Values of a type with one tag whose contents compare as strings of bytes
/// compare as their encodings do, as strings of bytes: the order of the
/// values is the order in which DER puts the elements of a SET OF.
pub proof fn lemma_order_of_encodings<T: EncodeValue + ValueOrd + FixedTag>(a: T, b: T)
    requires
        T::spec_encode_value(a.deep_view()).len() <= MAX_LENGTH,
        T::spec_encode_value(b.deep_view()).len() <= MAX_LENGTH,
        a.value_order(&b) == Ok::<Ordering, ErrorKind>(
            order_of_bytes(
                T::spec_encode_value(a.deep_view()),
                T::spec_encode_value(b.deep_view()),
            ),
        ),
    ensures
        a.der_order(&b) == Ok::<Ordering, ErrorKind>(
            order_of_bytes(T::spec_encode(a.deep_view()), T::spec_encode(b.deep_view())),
        ),
{
    let tag = seq![T::spec_fixed_tag().spec_octet()];
    let x = T::spec_encode_value(a.deep_view());
    let y = T::spec_encode_value(b.deep_view());
    let x_len = spec_length_octets(x.len());
    let y_len = spec_length_octets(y.len());
    assert(T::spec_encode(a.deep_view()) == tag + (x_len + x));
    assert(T::spec_encode(b.deep_view()) == tag + (y_len + y));
    lemma_order_behind_common_front(tag, x_len + x, y_len + y);
    if x.len() == y.len() {
        lemma_order_behind_common_front(x_len, x, y);
    } else if x.len() < y.len() {
        let k = lemma_length_octets_ordered(x.len(), y.len());
        assert forall|i: int| 0 <= i < k implies (x_len + x)[i] == (y_len + y)[i] by {
            assert(x_len[i] == y_len[i]);
        }
        assert((x_len + x)[k] == x_len[k] && (y_len + y)[k] == y_len[k]);
        lemma_order_at_first_difference(x_len + x, y_len + y, k);
    } else {
        let k = lemma_length_octets_ordered(y.len(), x.len());
        assert forall|i: int| 0 <= i < k implies (x_len + x)[i] == (y_len + y)[i] by {
            assert(x_len[i] == y_len[i]);
        }
        assert((x_len + x)[k] == x_len[k] && (y_len + y)[k] == y_len[k]);
        lemma_order_at_first_difference(x_len + x, y_len + y, k);
    }
}

/// Two times compare as their encodings do, as strings of bytes.
pub proof fn lemma_order_of_times(a: UtcTime, b: UtcTime)
    ensures
        a.der_order(&b) == Ok::<Ordering, ErrorKind>(
            order_of_bytes(UtcTime::spec_encode(a@), UtcTime::spec_encode(b@)),
        ),
{
    lemma_utc_contents_len(a@);
    lemma_utc_contents_len(b@);
    lemma_order_of_encodings(a, b);
}

/// Two numbers compare as their encodings do, as strings of bytes.
pub proof fn lemma_order_of_numbers(a: UIntBytes<'_>, b: UIntBytes<'_>)
    requires
        spec_uint_contents(a@).len() <= MAX_LENGTH,
        spec_uint_contents(b@).len() <= MAX_LENGTH,
    ensures
        a.der_order(&b) == Ok::<Ordering, ErrorKind>(
            order_of_bytes(UIntBytes::spec_encode(a@), UIntBytes::spec_encode(b@)),
        ),
{
    lemma_order_of_encodings(a, b);
}

/// The order with its sides exchanged.
pub open spec fn order_reversed(ordering: Ordering) -> Ordering {
    match ordering {
        Ordering::Less => Ordering::Greater,
        Ordering::Equal => Ordering::Equal,
        Ordering::Greater => Ordering::Less,
    }
}

/// Where the values of a type compare the other way round when they are
/// exchanged, optional values of the type do: no value comes before itself,
/// and none both before and after another.
pub proof fn lemma_optional_order_reversed<T: DerOrd>(a: Option<T>, b: Option<T>)
    requires
        a is Some && b is Some && a->0.der_order(&b->0) is Ok ==> b->0.der_order(&a->0) == Ok::<
            Ordering,
            ErrorKind,
        >(order_reversed(a->0.der_order(&b->0)->Ok_0)),
        a.der_order(&b) is Ok,
    ensures
        b.der_order(&a) == Ok::<Ordering, ErrorKind>(order_reversed(a.der_order(&b)->Ok_0)),
{
}

/// An absent value compares as less than every present one and as equal to
/// an absent one, and two present values compare as the values themselves
/// do.
pub proof fn lemma_optional_order<T: DerOrd>(a: Option<T>, b: Option<T>)
    ensures
        a is None && b is None ==> a.der_order(&b) == Ok::<Ordering, ErrorKind>(Ordering::Equal),
        a is None && b is Some ==> a.der_order(&b) == Ok::<Ordering, ErrorKind>(Ordering::Less),
        a is Some && b is None ==> a.der_order(&b) == Ok::<Ordering, ErrorKind>(Ordering::Greater),
        a is Some && b is Some ==> a.der_order(&b) == a->0.der_order(&b->0),
{
}

} // verus!
