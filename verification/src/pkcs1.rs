//! PKCS#1: the RSA public key.

pub mod public_key;
