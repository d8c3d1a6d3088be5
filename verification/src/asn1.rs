//! The ASN.1 types that the library encodes and decodes.

pub mod any;
pub mod context_specific;
pub mod oid;
pub mod optional;
pub mod uint;
pub mod utc_time;
pub mod utf8_string;
