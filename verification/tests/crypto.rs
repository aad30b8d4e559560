//! Tests of passphrase verification, key derivation, and the
//! authenticated cipher.

use credstore::error::Error;
use credstore::security::{
    decrypt, derive_key, derive_key_from_hash, encrypt, hash_password, verify_password,
};

#[test]
fn passphrase_verifies_against_own_artifact() {
    let artifact = hash_password("correct-horse").unwrap();
    assert!(artifact.starts_with("$argon2"));
    assert_eq!(verify_password("correct-horse", &artifact), Ok(true));
}

#[test]
fn wrong_passphrase_is_a_mismatch_not_an_error() {
    let artifact = hash_password("correct-horse").unwrap();
    assert_eq!(verify_password("battery-staple", &artifact), Ok(false));
    assert_eq!(verify_password("", &artifact), Ok(false));
}

#[test]
fn malformed_artifact_is_an_error() {
    assert_eq!(
        verify_password("anything", "not a PHC string"),
        Err(Error::MalformedArtifact)
    );
    assert_eq!(verify_password("anything", ""), Err(Error::MalformedArtifact));
}

#[test]
fn fresh_salts_give_distinct_artifacts() {
    let a1 = hash_password("same passphrase").unwrap();
    let a2 = hash_password("same passphrase").unwrap();
    assert_ne!(a1, a2);
    assert_eq!(verify_password("same passphrase", &a1), Ok(true));
    assert_eq!(verify_password("same passphrase", &a2), Ok(true));
}

#[test]
fn key_derivation_is_deterministic() {
    let k1 = derive_key("some-artifact-string", b"context label");
    let k2 = derive_key("some-artifact-string", b"context label");
    assert_eq!(k1.bytes, k2.bytes);
    assert_eq!(k1.bytes.len(), 32);

    let k3 = derive_key_from_hash("some-artifact-string");
    let k4 = derive_key_from_hash("some-artifact-string");
    assert_eq!(k3.bytes, k4.bytes);
    assert_eq!(k3.bytes.len(), 32);
}

#[test]
fn key_derivation_separates_labels_and_artifacts() {
    let k1 = derive_key("some-artifact-string", b"label one");
    let k2 = derive_key("some-artifact-string", b"label two");
    assert_ne!(k1.bytes, k2.bytes);

    let k3 = derive_key("another-artifact", b"label one");
    assert_ne!(k1.bytes, k3.bytes);

    // The fixed-label derivation agrees with the general one on its label.
    let k4 = derive_key("some-artifact-string", b"aes256-gcm encryption key");
    let k5 = derive_key_from_hash("some-artifact-string");
    assert_eq!(k4.bytes, k5.bytes);
    // The key is not just the artifact's bytes handed back.
    assert_ne!(k5.bytes, b"some-artifact-string".to_vec());
}

#[test]
fn seal_open_round_trip() {
    let key = derive_key_from_hash("artifact-for-round-trip");
    let plaintext = b"This is a secret message for testing encryption.";
    let (ciphertext, nonce) = encrypt(&key, plaintext).unwrap();
    assert_eq!(nonce.len(), 12);
    assert_eq!(ciphertext.len(), plaintext.len() + 16);
    assert_ne!(&ciphertext[..plaintext.len()], &plaintext[..]);
    let opened = decrypt(&key, &ciphertext, &nonce).unwrap();
    assert_eq!(opened, plaintext.to_vec());
}

#[test]
fn seal_open_round_trip_empty_payload() {
    let key = derive_key_from_hash("artifact-for-empty");
    let (ciphertext, nonce) = encrypt(&key, b"").unwrap();
    assert_eq!(ciphertext.len(), 16);
    let opened = decrypt(&key, &ciphertext, &nonce).unwrap();
    assert!(opened.is_empty());
}

#[test]
fn fresh_nonces_differ_between_seals() {
    let key = derive_key_from_hash("artifact-for-nonces");
    let (c1, n1) = encrypt(&key, b"same plaintext").unwrap();
    let (c2, n2) = encrypt(&key, b"same plaintext").unwrap();
    assert_ne!(n1, n2);
    assert_ne!(c1, c2);
}

#[test]
fn tampering_with_any_ciphertext_bit_fails_authentication() {
    let key = derive_key_from_hash("artifact-for-tamper");
    let plaintext = b"payload";
    let (ciphertext, nonce) = encrypt(&key, plaintext).unwrap();
    for i in 0..ciphertext.len() {
        for bit in 0..8 {
            let mut tampered = ciphertext.clone();
            tampered[i] ^= 1u8 << bit;
            assert_eq!(
                decrypt(&key, &tampered, &nonce),
                Err(Error::AuthenticationFailed)
            );
        }
    }
}

#[test]
fn tampering_with_any_nonce_bit_fails_authentication() {
    let key = derive_key_from_hash("artifact-for-nonce-tamper");
    let (ciphertext, nonce) = encrypt(&key, b"payload").unwrap();
    for i in 0..nonce.len() {
        for bit in 0..8 {
            let mut tampered = nonce.clone();
            tampered[i] ^= 1u8 << bit;
            assert_eq!(
                decrypt(&key, &ciphertext, &tampered),
                Err(Error::AuthenticationFailed)
            );
        }
    }
}

#[test]
fn opening_under_a_different_key_fails_authentication() {
    let k1 = derive_key_from_hash("first-artifact");
    let k2 = derive_key_from_hash("second-artifact");
    let (ciphertext, nonce) = encrypt(&k1, b"payload").unwrap();
    assert_eq!(
        decrypt(&k2, &ciphertext, &nonce),
        Err(Error::AuthenticationFailed)
    );
}
