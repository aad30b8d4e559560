//! Typed failures of the credential store's cryptographic core.

use vstd::prelude::*;

verus! {

/// Every failure the core can surface. None of these is transient: retrying
/// an operation with the same inputs cannot succeed.
#[derive(Clone, Copy, Debug, PartialEq, Eq, Structural)]
pub enum Error {
    /// A candidate passphrase did not match the verification artifact.
    /// User-correctable, not fatal.
    PassphraseMismatch,
    /// The verification artifact string is structurally invalid.
    /// A fatal configuration error.
    MalformedArtifact,
    /// The on-disk envelope is shorter than its fixed-size nonce prefix.
    CorruptEnvelope,
    /// The authentication tag did not verify: wrong passphrase, or the
    /// envelope was tampered with or corrupted.
    AuthenticationFailed,
    /// Authentication passed but the payload could not be decoded into a
    /// record collection: a format mismatch, not a security failure.
    CorruptPayload,
    /// An underlying filesystem operation failed.
    IoFailure,
    /// A cryptographic primitive failed outright (catastrophic, fatal).
    CryptoFailure,
}

} // verus!
