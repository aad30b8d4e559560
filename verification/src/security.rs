//! The cryptographic primitives of the store: passphrase hashing and
//! verification, key derivation, and authenticated encryption.
//!
//! Each primitive is performed by an outside cryptography crate behind a
//! small trusted wrapper; the contracts of the public functions are stated
//! over uninterpreted names for the wrappers' results.

use vstd::prelude::*;

use crate::error::Error;
use crate::{KEY_LEN, NONCE_LEN, TAG_LEN};

use aes_gcm::aead::Aead;
use aes_gcm::aead::AeadCore;
use aes_gcm::aead::KeyInit;
use argon2::PasswordHasher;
use argon2::PasswordVerifier;

verus! {

// ------------------------------------------------------------------
// Names for the results of the outside primitives
// ------------------------------------------------------------------

/// Whether `argon2::PasswordHash::new` accepts an artifact string as a
/// structurally valid PHC-format password hash.
pub uninterp spec fn artifact_well_formed(artifact: Seq<char>) -> bool;

/// The outcome of `argon2::Argon2::verify_password` for a passphrase
/// against a well-formed artifact: it recomputes the hash from the salt
/// and parameters embedded in the artifact, so it depends on the
/// passphrase and the artifact alone.
pub uninterp spec fn artifact_matches(passphrase: Seq<char>, artifact: Seq<char>) -> bool;

/// The 32-byte key that HKDF-SHA256 expands from the given key material
/// and domain-separation label.
pub uninterp spec fn derived_key(ikm: Seq<char>, label: Seq<u8>) -> Seq<u8>;

/// What `aes_gcm::Aes256Gcm::decrypt` returns for a key, ciphertext and
/// nonce: `Some(plaintext)` when the authentication tag verifies, `None`
/// otherwise.
pub uninterp spec fn aead_open(key: Seq<u8>, ciphertext: Seq<u8>, nonce: Seq<u8>) -> Option<
    Seq<u8>,
>;

// ------------------------------------------------------------------
// Trusted wrappers around the outside crates
// ------------------------------------------------------------------

/// Relies on `argon2::Argon2::hash_password` with a fresh OS-random salt:
/// the returned PHC string parses back as a well-formed hash and verifies
/// the passphrase it was created from.
#[verifier::external_body]
fn argon2_hash(passphrase: &str) -> (r: Option<String>)
    ensures
        r is Some ==> artifact_well_formed(r->0@),
        r is Some ==> artifact_matches(passphrase@, r->0@),
{
    let salt = argon2::password_hash::SaltString::generate(&mut aes_gcm::aead::OsRng);
    match argon2::Argon2::default().hash_password(passphrase.as_bytes(), &salt) {
        Ok(hash) => Some(hash.to_string()),
        Err(_) => None,
    }
}

/// Relies on `argon2::PasswordHash::new`, which fails exactly on a
/// structurally invalid PHC string, and `argon2::Argon2::verify_password`,
/// whose outcome is a function of the passphrase and the parsed artifact.
#[verifier::external_body]
fn argon2_verify(passphrase: &str, artifact: &str) -> (r: Option<bool>)
    ensures
        r is Some <==> artifact_well_formed(artifact@),
        r is Some ==> r->0 == artifact_matches(passphrase@, artifact@),
{
    match argon2::PasswordHash::new(artifact) {
        Ok(parsed) => Some(
            argon2::Argon2::default().verify_password(passphrase.as_bytes(), &parsed).is_ok(),
        ),
        Err(_) => None,
    }
}

/// Relies on `hkdf::Hkdf::<sha2::Sha256>`: extract-and-expand is a
/// deterministic function of the key material and the info label, and
/// expanding to 32 bytes (well under HKDF's 255-block bound) cannot fail.
#[verifier::external_body]
fn hkdf_expand_32(ikm: &str, label: &[u8]) -> (r: Vec<u8>)
    ensures
        r@ == derived_key(ikm@, label@),
        r@.len() == KEY_LEN,
{
    let hkdf = hkdf::Hkdf::<sha2::Sha256>::new(None, ikm.as_bytes());
    let mut okm = [0u8; 32];
    hkdf.expand(label, &mut okm).expect("HKDF expand of 32 bytes is within bounds");
    okm.to_vec()
}

/// Relies on `aes_gcm::Aes256Gcm::encrypt` with a fresh OS-random 96-bit
/// nonce: the ciphertext carries a 16-byte tag appended, and decrypting it
/// with the same key and nonce returns the plaintext.
#[verifier::external_body]
fn aes_gcm_seal(key: &[u8], plaintext: &[u8]) -> (r: Option<(Vec<u8>, Vec<u8>)>)
    requires
        key@.len() == KEY_LEN,
    ensures
        r is Some ==> (r->0).1@.len() == NONCE_LEN,
        r is Some ==> (r->0).0@.len() == plaintext@.len() + TAG_LEN,
        r is Some ==> aead_open(key@, (r->0).0@, (r->0).1@) == Some(plaintext@),
{
    let key = aes_gcm::Key::<aes_gcm::Aes256Gcm>::from_slice(key);
    let cipher = aes_gcm::Aes256Gcm::new(key);
    let nonce = aes_gcm::Aes256Gcm::generate_nonce(&mut aes_gcm::aead::OsRng);
    match cipher.encrypt(&nonce, plaintext) {
        Ok(ciphertext) => Some((ciphertext, nonce.to_vec())),
        Err(_) => None,
    }
}

/// Relies on `aes_gcm::Aes256Gcm::decrypt`: authenticated decryption is a
/// deterministic function of key, ciphertext and nonce; it fails atomically
/// when the tag does not verify and never returns unauthenticated bytes.
#[verifier::external_body]
fn aes_gcm_open(key: &[u8], ciphertext: &[u8], nonce: &[u8]) -> (r: Option<Vec<u8>>)
    requires
        key@.len() == KEY_LEN,
        nonce@.len() == NONCE_LEN,
    ensures
        r is Some <==> aead_open(key@, ciphertext@, nonce@) is Some,
        r is Some ==> Some(r->0@) == aead_open(key@, ciphertext@, nonce@),
{
    let key = aes_gcm::Key::<aes_gcm::Aes256Gcm>::from_slice(key);
    let cipher = aes_gcm::Aes256Gcm::new(key);
    let nonce = aes_gcm::Nonce::from_slice(nonce);
    cipher.decrypt(nonce, ciphertext).ok()
}

// ------------------------------------------------------------------
// Passphrase verification
// ------------------------------------------------------------------

/// What verifying a passphrase against an artifact returns: the match
/// outcome for a well-formed artifact, `MalformedArtifact` otherwise.
pub open spec fn verify_spec(passphrase: Seq<char>, artifact: Seq<char>) -> Result<bool, Error> {
    if artifact_well_formed(artifact) {
        Ok(artifact_matches(passphrase, artifact))
    } else {
        Err(Error::MalformedArtifact)
    }
}

/// Produces a verification artifact for a passphrase: a salted, slow,
/// self-describing password hash. Fails only if the hashing primitive
/// itself fails, which is catastrophic.
pub fn hash_password(passphrase: &str) -> (r: Result<String, Error>)
    ensures
        r is Ok ==> artifact_well_formed(r->Ok_0@),
        r is Ok ==> artifact_matches(passphrase@, r->Ok_0@),
        r is Err ==> r->Err_0 == Error::CryptoFailure,
{
    match argon2_hash(passphrase) {
        Some(artifact) => Ok(artifact),
        None => Err(Error::CryptoFailure),
    }
}

/// Checks a candidate passphrase against a verification artifact. A
/// mismatch is `Ok(false)`, not an error; only a structurally invalid
/// artifact is an error.
pub fn verify_password(passphrase: &str, artifact: &str) -> (r: Result<bool, Error>)
    ensures
        r == verify_spec(passphrase@, artifact@),
{
    match argon2_verify(passphrase, artifact) {
        Some(outcome) => Ok(outcome),
        None => Err(Error::MalformedArtifact),
    }
}

/// A passphrase verifies against any artifact created from it: what
/// `hash_password` ensures of its output makes `verify_spec` return
/// `Ok(true)` for the passphrase it was given.
pub proof fn lemma_verify_created_artifact(passphrase: Seq<char>, artifact: Seq<char>)
    requires
        artifact_well_formed(artifact),
        artifact_matches(passphrase, artifact),
    ensures
        verify_spec(passphrase, artifact) == Ok::<bool, Error>(true),
{
}

// ------------------------------------------------------------------
// Key derivation
// ------------------------------------------------------------------

/// A 256-bit symmetric key, derived from a verification artifact and never
/// persisted.
pub struct SymmetricKey {
    pub bytes: Vec<u8>,
}

impl View for SymmetricKey {
    type V = Seq<u8>;

    open spec fn view(&self) -> Seq<u8> {
        self.bytes@
    }
}

impl SymmetricKey {
    /// A key is well formed when it holds exactly 256 bits.
    pub open spec fn wf(&self) -> bool {
        self@.len() == KEY_LEN
    }
}

/// The fixed domain-separation label under which the store derives its
/// encryption key.
pub open spec fn key_context_label() -> Seq<u8> {
    vstd::utf8::encode_utf8("aes256-gcm encryption key"@)
}

/// The fixed domain-separation label, as bytes.
pub fn key_context_label_bytes() -> (r: Vec<u8>)
    ensures
        r@ == key_context_label(),
{
    let label = "aes256-gcm encryption key";
    vstd::slice::slice_to_vec(label.as_bytes())
}

/// Derives a symmetric key from a verification artifact under a
/// domain-separation label, by HKDF-SHA256 extract-and-expand.
pub fn derive_key(artifact: &str, context_label: &[u8]) -> (r: SymmetricKey)
    ensures
        r@ == derived_key(artifact@, context_label@),
        r.wf(),
{
    SymmetricKey { bytes: hkdf_expand_32(artifact, context_label) }
}

/// Derives the store's encryption key from a verification artifact under
/// the fixed context label.
pub fn derive_key_from_hash(password_hash: &str) -> (r: SymmetricKey)
    ensures
        r@ == derived_key(password_hash@, key_context_label()),
        r.wf(),
{
    let label = key_context_label_bytes();
    derive_key(password_hash, label.as_slice())
}

/// Key derivation is deterministic: identical artifacts and labels yield
/// identical keys, so encryption and decryption in separate runs agree on
/// the key without it ever being persisted.
pub proof fn lemma_derive_deterministic(a1: Seq<char>, l1: Seq<u8>, a2: Seq<char>, l2: Seq<u8>)
    requires
        a1 == a2,
        l1 == l2,
    ensures
        derived_key(a1, l1) == derived_key(a2, l2),
{
}

// ------------------------------------------------------------------
// Authenticated encryption
// ------------------------------------------------------------------

/// What a successful seal guarantees of its ciphertext and nonce: the
/// nonce is 96 bits, the ciphertext carries the 128-bit tag, and opening
/// with the same key and nonce returns exactly the plaintext.
pub open spec fn seal_produces(
    key: Seq<u8>,
    plaintext: Seq<u8>,
    ciphertext: Seq<u8>,
    nonce: Seq<u8>,
) -> bool {
    &&& nonce.len() == NONCE_LEN
    &&& ciphertext.len() == plaintext.len() + TAG_LEN
    &&& aead_open(key, ciphertext, nonce) == Some(plaintext)
}

/// What opening a ciphertext returns: the authenticated plaintext, or
/// `AuthenticationFailed` as the single failure mode.
pub open spec fn open_spec(key: Seq<u8>, ciphertext: Seq<u8>, nonce: Seq<u8>) -> Result<
    Seq<u8>,
    Error,
> {
    match aead_open(key, ciphertext, nonce) {
        Some(plaintext) => Ok(plaintext),
        None => Err(Error::AuthenticationFailed),
    }
}

/// Encrypts a payload under a key with a fresh random 96-bit nonce,
/// returning the ciphertext (tag appended) and the nonce used. The caller
/// must keep the nonce beside the ciphertext: without it the ciphertext is
/// unrecoverable. Fails only if the cipher primitive itself fails, which
/// is catastrophic.
pub fn encrypt(key: &SymmetricKey, plaintext: &[u8]) -> (r: Result<(Vec<u8>, Vec<u8>), Error>)
    requires
        key.wf(),
    ensures
        r is Ok ==> seal_produces(key@, plaintext@, (r->Ok_0).0@, (r->Ok_0).1@),
        r is Err ==> r->Err_0 == Error::CryptoFailure,
{
    match aes_gcm_seal(key.bytes.as_slice(), plaintext) {
        Some(sealed) => Ok(sealed),
        None => Err(Error::CryptoFailure),
    }
}

/// Decrypts a ciphertext under a key and nonce. Fails with
/// `AuthenticationFailed` whenever the tag does not verify — wrong key,
/// wrong nonce, or tampered ciphertext — and never returns
/// unauthenticated bytes.
pub fn decrypt(key: &SymmetricKey, ciphertext: &[u8], nonce: &[u8]) -> (r: Result<Vec<u8>, Error>)
    requires
        key.wf(),
        nonce@.len() == NONCE_LEN,
    ensures
        r is Ok <==> open_spec(key@, ciphertext@, nonce@) is Ok,
        r is Ok ==> r->Ok_0@ == open_spec(key@, ciphertext@, nonce@)->Ok_0,
        r is Err ==> r->Err_0 == open_spec(key@, ciphertext@, nonce@)->Err_0,
{
    match aes_gcm_open(key.bytes.as_slice(), ciphertext, nonce) {
        Some(plaintext) => Ok(plaintext),
        None => Err(Error::AuthenticationFailed),
    }
}

/// Round trip: whatever ciphertext and nonce a seal produced for a key and
/// payload, opening them under the same key returns exactly that payload.
pub proof fn lemma_seal_open_round_trip(
    key: Seq<u8>,
    plaintext: Seq<u8>,
    ciphertext: Seq<u8>,
    nonce: Seq<u8>,
)
    requires
        seal_produces(key, plaintext, ciphertext, nonce),
    ensures
        open_spec(key, ciphertext, nonce) == Ok::<Seq<u8>, Error>(plaintext),
{
}

} // verus!
