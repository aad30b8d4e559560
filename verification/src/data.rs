//! The record collection and its encrypted persistence envelope.
//!
//! The caller owns the backing file: it hands `load` the file's contents
//! (or `None` when the file does not exist) and writes the envelope that
//! `save` returns back to disk in full.

use vstd::prelude::*;

use crate::codec::{decode_store, enc_store, encode_store, lemma_parse_store_of_enc, parse_store,
    store_sizes_ok};
use crate::error::Error;
use crate::security::{aead_open, decrypt, derive_key_from_hash, derived_key, encrypt,
    key_context_label, open_spec, seal_produces};
use crate::NONCE_LEN;

verus! {

/// One stored credential: a display name, a username, one secret encrypted
/// under a key derived from the master passphrase, and the nonce used for
/// that encryption (12 bytes, never reused with the same key).
#[derive(Debug, Clone)]
pub struct PasswordEntry {
    pub name: String,
    pub username: String,
    pub encrypted_password: Vec<u8>,
    pub iv: Vec<u8>,
}

/// The mathematical value of one credential record.
pub ghost struct EntryView {
    pub name: Seq<char>,
    pub username: Seq<char>,
    pub encrypted_password: Seq<u8>,
    pub iv: Seq<u8>,
}

impl View for PasswordEntry {
    type V = EntryView;

    open spec fn view(&self) -> EntryView {
        EntryView {
            name: self.name@,
            username: self.username@,
            encrypted_password: self.encrypted_password@,
            iv: self.iv@,
        }
    }
}

/// The values of a sequence of records.
pub open spec fn entries_view(entries: Seq<PasswordEntry>) -> Seq<EntryView> {
    Seq::new(entries.len(), |i: int| entries[i]@)
}

/// The credential collection. Insertion order is preserved; names need not
/// be unique — that is the caller's policy.
#[derive(Debug, Clone)]
pub struct PasswordDatabase {
    pub entries: Vec<PasswordEntry>,
}

impl View for PasswordDatabase {
    type V = Seq<EntryView>;

    open spec fn view(&self) -> Seq<EntryView> {
        entries_view(self.entries@)
    }
}

impl Default for PasswordDatabase {
    /// The empty collection.
    fn default() -> (r: Self)
        ensures
            r@ == Seq::<EntryView>::empty(),
    {
        let db = PasswordDatabase { entries: Vec::new() };
        assert(db@ =~= Seq::<EntryView>::empty());
        db
    }
}

/// What loading file contents under an artifact returns: the empty
/// collection when there is no file; `CorruptEnvelope` when the file is
/// shorter than the nonce prefix; `AuthenticationFailed` when the
/// ciphertext does not authenticate under the derived key; and
/// `CorruptPayload` when the authenticated payload is not a canonical
/// encoding.
pub open spec fn load_spec(contents: Option<Seq<u8>>, artifact: Seq<char>) -> Result<
    Seq<EntryView>,
    Error,
> {
    match contents {
        None => Ok(Seq::empty()),
        Some(env) => {
            if env.len() < NONCE_LEN {
                Err(Error::CorruptEnvelope)
            } else {
                let key = derived_key(artifact, key_context_label());
                match aead_open(key, env.skip(NONCE_LEN as int), env.take(NONCE_LEN as int)) {
                    None => Err(Error::AuthenticationFailed),
                    Some(payload) => match parse_store(payload) {
                        None => Err(Error::CorruptPayload),
                        Some(entries) => Ok(entries),
                    },
                }
            }
        },
    }
}

/// What `save` guarantees of the envelope it returns: a 12-byte nonce
/// prefix, followed by a ciphertext that opens under the key derived from
/// the artifact to the canonical encoding of the collection.
pub open spec fn saved_envelope(entries: Seq<EntryView>, artifact: Seq<char>, env: Seq<u8>) -> bool {
    &&& env.len() >= NONCE_LEN
    &&& seal_produces(
        derived_key(artifact, key_context_label()),
        enc_store(entries),
        env.skip(NONCE_LEN as int),
        env.take(NONCE_LEN as int),
    )
}

/// The value of an optional byte slice.
pub open spec fn contents_view(contents: Option<&[u8]>) -> Option<Seq<u8>> {
    match contents {
        None => None,
        Some(bytes) => Some(bytes@),
    }
}

impl PasswordDatabase {
    /// Loads the collection from the backing file's contents, handed in by
    /// the caller (`None` when the file does not exist: the first-run case,
    /// which yields the empty collection, not an error).
    pub fn load(master_password_hash: &str, contents: Option<&[u8]>) -> (r: Result<
        PasswordDatabase,
        Error,
    >)
        ensures
            r is Ok <==> load_spec(contents_view(contents), master_password_hash@) is Ok,
            r is Ok ==> Ok::<_, Error>(r->Ok_0@) == load_spec(
                contents_view(contents),
                master_password_hash@,
            ),
            r is Err ==> r->Err_0 == load_spec(
                contents_view(contents),
                master_password_hash@,
            )->Err_0,
    {
        let data = match contents {
            None => {
                return Ok(PasswordDatabase::default());
            },
            Some(data) => data,
        };
        if data.len() < NONCE_LEN {
            return Err(Error::CorruptEnvelope);
        }
        let mut nonce: Vec<u8> = Vec::new();
        let mut i: usize = 0;
        while i < NONCE_LEN
            invariant
                data@.len() >= NONCE_LEN,
                i <= NONCE_LEN,
                nonce@ == data@.take(i as int),
            decreases NONCE_LEN - i,
        {
            nonce.push(data[i]);
            assert(nonce@ =~= data@.take(i as int + 1));
            i = i + 1;
        }
        let mut ciphertext: Vec<u8> = Vec::new();
        let mut j: usize = NONCE_LEN;
        while j < data.len()
            invariant
                data@.len() >= NONCE_LEN,
                NONCE_LEN <= j <= data@.len(),
                ciphertext@ == data@.subrange(NONCE_LEN as int, j as int),
            decreases data@.len() - j,
        {
            ciphertext.push(data[j]);
            assert(ciphertext@ =~= data@.subrange(NONCE_LEN as int, j as int + 1));
            j = j + 1;
        }
        assert(nonce@ =~= data@.take(NONCE_LEN as int));
        assert(ciphertext@ =~= data@.skip(NONCE_LEN as int));
        let key = derive_key_from_hash(master_password_hash);
        let payload = match decrypt(&key, ciphertext.as_slice(), nonce.as_slice()) {
            Ok(payload) => payload,
            Err(e) => {
                return Err(e);
            },
        };
        match decode_store(payload.as_slice()) {
            Some(db) => Ok(db),
            None => Err(Error::CorruptPayload),
        }
    }

    /// Serializes the collection, encrypts it under the key derived from
    /// the artifact with a fresh random nonce, and returns the envelope
    /// `nonce || ciphertext` for the caller to write to the backing file,
    /// replacing its full contents. Fails only if the cipher primitive
    /// itself fails, which is catastrophic.
    pub fn save(&self, master_password_hash: &str) -> (r: Result<Vec<u8>, Error>)
        ensures
            r is Ok ==> saved_envelope(self@, master_password_hash@, r->Ok_0@),
            r is Err ==> r->Err_0 == Error::CryptoFailure,
    {
        let payload = encode_store(self);
        let key = derive_key_from_hash(master_password_hash);
        let sealed = match encrypt(&key, payload.as_slice()) {
            Ok(sealed) => sealed,
            Err(e) => {
                return Err(e);
            },
        };
        let ciphertext = sealed.0;
        let mut envelope = sealed.1;
        let ghost nonce_view = envelope@;
        let mut i: usize = 0;
        while i < ciphertext.len()
            invariant
                i <= ciphertext@.len(),
                envelope@ == nonce_view + ciphertext@.take(i as int),
            decreases ciphertext@.len() - i,
        {
            envelope.push(ciphertext[i]);
            assert(envelope@ =~= nonce_view + ciphertext@.take(i as int + 1));
            i = i + 1;
        }
        assert(ciphertext@.take(ciphertext@.len() as int) =~= ciphertext@);
        assert(envelope@.take(NONCE_LEN as int) =~= nonce_view);
        assert(envelope@.skip(NONCE_LEN as int) =~= ciphertext@);
        Ok(envelope)
    }
}

// ------------------------------------------------------------------
// Laws of the store
// ------------------------------------------------------------------

/// Store round trip: loading an envelope that `save` produced for a
/// collection, under the same artifact, returns exactly that collection.
/// The size bounds hold of every collection a machine can hold.
pub proof fn lemma_store_round_trip(entries: Seq<EntryView>, artifact: Seq<char>, env: Seq<u8>)
    requires
        saved_envelope(entries, artifact, env),
        store_sizes_ok(entries),
    ensures
        load_spec(Some(env), artifact) == Ok::<Seq<EntryView>, Error>(entries),
{
    lemma_parse_store_of_enc(entries);
}

/// First run: with no backing file, loading yields the empty collection,
/// not an error.
pub proof fn lemma_load_first_run(artifact: Seq<char>)
    ensures
        load_spec(None, artifact) == Ok::<Seq<EntryView>, Error>(Seq::empty()),
{
}

/// Corruption: an envelope shorter than the nonce prefix is rejected as
/// corrupt, whatever the artifact.
pub proof fn lemma_load_truncated(env: Seq<u8>, artifact: Seq<char>)
    requires
        env.len() < NONCE_LEN,
    ensures
        load_spec(Some(env), artifact) == Err::<Seq<EntryView>, Error>(Error::CorruptEnvelope),
{
}

/// A failed decryption surfaces as `AuthenticationFailed` and exposes no
/// records: a well-formed envelope loads successfully only if its
/// ciphertext authenticates under the derived key.
pub proof fn lemma_load_requires_authentication(env: Seq<u8>, artifact: Seq<char>)
    requires
        env.len() >= NONCE_LEN,
        aead_open(
            derived_key(artifact, key_context_label()),
            env.skip(NONCE_LEN as int),
            env.take(NONCE_LEN as int),
        ) is None,
    ensures
        load_spec(Some(env), artifact) == Err::<Seq<EntryView>, Error>(Error::AuthenticationFailed),
{
}

} // verus!
