//! A codec for the Distinguished Encoding Rules (DER) of ASN.1.
//!
//! Every value has exactly one encoding. The decoders accept that encoding and
//! nothing else, and the contracts say so over sequences of bytes: each type
//! has a function from bytes to the value they hold and one from a value to
//! its bytes, the executable code is proved against the two, and the two are
//! proved to undo each other.
//!
//! A value is read through a [`Decoder`], a cursor over the bytes, and
//! written through a [`Writer`]. The contents of a constructed value are read
//! through a decoder of their own that ends where they end, so that no field
//! reads past the value that holds it and no byte of it is left unread. No
//! type here holds values of its own type: decoding goes as deep as the type
//! says and no deeper, whatever the input.

pub mod asn1;
pub mod canonical;
pub mod datetime;
pub mod decode;
pub mod decoder;
pub mod document;
pub mod encode;
pub mod encoder;
pub mod error;
pub mod header;
pub mod length;
pub mod ord;
pub mod pkcs1;
pub mod reader;
pub mod tag;
pub mod writer;
pub mod x509;

pub use crate::asn1::any::Any;
pub use crate::asn1::context_specific::ContextSpecific;
pub use crate::asn1::oid::ObjectIdentifier;
pub use crate::asn1::uint::UIntBytes;
pub use crate::asn1::utc_time::UtcTime;
pub use crate::asn1::utf8_string::Utf8String;
pub use crate::datetime::DateTime;
pub use crate::decode::{Choice, Decode, DecodeValue};
pub use crate::decoder::Decoder;
pub use crate::document::Document;
pub use crate::encode::{Encode, EncodeValue};
pub use crate::encoder::Encoder;
pub use crate::error::{Error, ErrorKind};
pub use crate::header::Header;
pub use crate::length::Length;
pub use crate::ord::{DerOrd, ValueOrd};
pub use crate::pkcs1::public_key::RsaPublicKey;
pub use crate::reader::Reader;
pub use crate::tag::{Class, FixedTag, Tag, TagNumber};
pub use crate::writer::Writer;
pub use crate::x509::other_name::OtherName;
