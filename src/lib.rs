//! Finite-field arithmetic over GF(2^8) with the AES reduction polynomial,
//! an AES-128 single-block encryptor and Lagrange secret reconstruction,
//! all proved against mathematical models of the field.

pub mod field_spec;
pub mod galois_fields;
pub mod traits;
pub mod field_element;
pub mod aes_spec;
pub mod s_box;
pub mod aes_round;
pub mod expand_key;
pub mod aes_encrypt;
pub mod lagrange;
pub mod laws;
