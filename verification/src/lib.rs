//! A local encrypted credential store: named username/password records are
//! persisted as a single encrypted blob, protected end-to-end by one master
//! passphrase.
//!
//! The crate covers the cryptographic envelope: passphrase verification,
//! key derivation, authenticated encryption, and the on-disk envelope
//! format. File and terminal I/O stay with the caller, which hands the
//! library file contents as plain bytes and writes back what it returns.

pub mod codec;
pub mod data;
pub mod error;
pub mod security;

use vstd::prelude::*;

verus! {

/// Number of bytes in the nonce that prefixes every on-disk envelope.
pub const NONCE_LEN: usize = 12;

/// Number of bytes in a derived symmetric key (256 bits).
pub const KEY_LEN: usize = 32;

/// Number of bytes in the authentication tag appended to every ciphertext.
pub const TAG_LEN: usize = 16;

} // verus!
