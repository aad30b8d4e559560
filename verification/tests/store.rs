//! Tests of the payload codec and the encrypted store envelope.

use credstore::codec::{decode_store, encode_store};
use credstore::data::{PasswordDatabase, PasswordEntry};
use credstore::error::Error;
use credstore::security::{decrypt, derive_key_from_hash, encrypt, hash_password};

fn entry(name: &str, username: &str, secret: &[u8], iv: &[u8]) -> PasswordEntry {
    PasswordEntry {
        name: name.to_string(),
        username: username.to_string(),
        encrypted_password: secret.to_vec(),
        iv: iv.to_vec(),
    }
}

fn sample_db() -> PasswordDatabase {
    PasswordDatabase {
        entries: vec![
            entry("email", "alice", b"\x01\x02\x03", b"twelve bytes"),
            entry("", "", b"", b""),
            entry("email", "bob-duplicate-name", b"\xff\x00\xfe", b"more than twelve bytes"),
            entry("caf\u{e9} \u{2615}", "non-ascii \u{1f511}", b"\x00", b"iv"),
        ],
    }
}

fn assert_same_entries(a: &PasswordDatabase, b: &PasswordDatabase) {
    assert_eq!(a.entries.len(), b.entries.len());
    for (x, y) in a.entries.iter().zip(b.entries.iter()) {
        assert_eq!(x.name, y.name);
        assert_eq!(x.username, y.username);
        assert_eq!(x.encrypted_password, y.encrypted_password);
        assert_eq!(x.iv, y.iv);
    }
}

fn blob(data: &[u8]) -> Vec<u8> {
    let mut out = (data.len() as u64).to_le_bytes().to_vec();
    out.extend_from_slice(data);
    out
}

#[test]
fn codec_round_trips_the_empty_collection() {
    let db = PasswordDatabase { entries: vec![] };
    let payload = encode_store(&db);
    assert_eq!(payload, vec![0u8; 8]);
    let decoded = decode_store(&payload).unwrap();
    assert!(decoded.entries.is_empty());
}

#[test]
fn codec_round_trips_records() {
    let db = sample_db();
    let payload = encode_store(&db);
    let decoded = decode_store(&payload).unwrap();
    assert_same_entries(&db, &decoded);
}

#[test]
fn codec_encoding_is_the_documented_format() {
    let db = PasswordDatabase {
        entries: vec![entry("email", "alice", b"sec", b"nonce-bytes!")],
    };
    let mut expected = 1u64.to_le_bytes().to_vec();
    expected.extend_from_slice(&blob(b"email"));
    expected.extend_from_slice(&blob(b"alice"));
    expected.extend_from_slice(&blob(b"sec"));
    expected.extend_from_slice(&blob(b"nonce-bytes!"));
    assert_eq!(encode_store(&db), expected);
}

#[test]
fn codec_rejects_malformed_payloads() {
    // Too short for a count.
    assert!(decode_store(b"").is_none());
    assert!(decode_store(b"1234567").is_none());
    // Count promises a record that is not there.
    assert!(decode_store(&1u64.to_le_bytes()).is_none());
    // Trailing garbage after a well-formed payload.
    let mut payload = encode_store(&sample_db());
    payload.push(0);
    assert!(decode_store(&payload).is_none());
    // A name field that is not valid UTF-8.
    let mut bad = 1u64.to_le_bytes().to_vec();
    bad.extend_from_slice(&blob(b"\xff\xfe"));
    bad.extend_from_slice(&blob(b"user"));
    bad.extend_from_slice(&blob(b"sec"));
    bad.extend_from_slice(&blob(b"twelve bytes"));
    assert!(decode_store(&bad).is_none());
    // A length prefix that overruns the input.
    let mut overrun = 1u64.to_le_bytes().to_vec();
    overrun.extend_from_slice(&u64::MAX.to_le_bytes());
    overrun.extend_from_slice(b"short");
    assert!(decode_store(&overrun).is_none());
}

#[test]
fn store_round_trips_through_the_envelope() {
    let artifact = "artifact-for-store-round-trip";
    let db = sample_db();
    let envelope = db.save(artifact).unwrap();
    let loaded = PasswordDatabase::load(artifact, Some(&envelope)).unwrap();
    assert_same_entries(&db, &loaded);
}

#[test]
fn store_round_trips_the_empty_collection() {
    let artifact = "artifact-for-empty-store";
    let db = PasswordDatabase::default();
    let envelope = db.save(artifact).unwrap();
    assert!(envelope.len() >= 12 + 16);
    let loaded = PasswordDatabase::load(artifact, Some(&envelope)).unwrap();
    assert!(loaded.entries.is_empty());
}

#[test]
fn load_without_a_backing_file_yields_the_empty_store() {
    let loaded = PasswordDatabase::load("any-artifact", None).unwrap();
    assert!(loaded.entries.is_empty());
}

#[test]
fn load_rejects_a_truncated_envelope() {
    let artifact = "artifact-for-truncation";
    let envelope = sample_db().save(artifact).unwrap();
    for len in [0usize, 1, 5, 11] {
        let truncated = &envelope[..len];
        assert!(matches!(
            PasswordDatabase::load(artifact, Some(truncated)),
            Err(Error::CorruptEnvelope)
        ));
    }
}

#[test]
fn load_rejects_any_flipped_byte() {
    let artifact = "artifact-for-byte-flips";
    let envelope = sample_db().save(artifact).unwrap();
    for i in 0..envelope.len() {
        let mut tampered = envelope.clone();
        tampered[i] ^= 0x01;
        assert!(matches!(
            PasswordDatabase::load(artifact, Some(&tampered)),
            Err(Error::AuthenticationFailed)
        ));
    }
}

#[test]
fn load_rejects_an_authentic_but_undecodable_payload() {
    let artifact = "artifact-for-corrupt-payload";
    let key = derive_key_from_hash(artifact);
    let (ciphertext, nonce) = encrypt(&key, b"not a canonical payload").unwrap();
    let mut envelope = nonce;
    envelope.extend_from_slice(&ciphertext);
    assert!(matches!(
        PasswordDatabase::load(artifact, Some(&envelope)),
        Err(Error::CorruptPayload)
    ));
}

#[test]
fn scenario_save_restart_load() {
    // Artifact from the master passphrase.
    let artifact = hash_password("correct-horse").unwrap();

    // One record whose secret is "hunter2", encrypted under the derived key.
    let key = derive_key_from_hash(&artifact);
    let (encrypted_secret, iv) = encrypt(&key, b"hunter2").unwrap();
    let db = PasswordDatabase {
        entries: vec![PasswordEntry {
            name: "email".to_string(),
            username: "alice".to_string(),
            encrypted_password: encrypted_secret,
            iv,
        }],
    };
    let envelope = db.save(&artifact).unwrap();

    // A fresh process re-derives everything from the artifact alone.
    let loaded = PasswordDatabase::load(&artifact, Some(&envelope)).unwrap();
    assert_eq!(loaded.entries.len(), 1);
    let record = &loaded.entries[0];
    assert_eq!(record.name, "email");
    assert_eq!(record.username, "alice");
    let key_again = derive_key_from_hash(&artifact);
    let secret = decrypt(&key_again, &record.encrypted_password, &record.iv).unwrap();
    assert_eq!(secret, b"hunter2".to_vec());

    // The wrong passphrase yields a different artifact, hence a different
    // key, and the load fails authentication.
    let wrong_artifact = hash_password("wrong").unwrap();
    assert!(matches!(
        PasswordDatabase::load(&wrong_artifact, Some(&envelope)),
        Err(Error::AuthenticationFailed)
    ));
}
