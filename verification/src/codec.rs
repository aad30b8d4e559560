//! Canonical binary encoding of the record collection.
//!
//! The payload that the store encrypts is a length-prefixed encoding:
//! a record count, then for each record its four fields, each prefixed by
//! its byte length as a little-endian 64-bit integer. Strings are encoded
//! as UTF-8. Decoding is proved to be a left inverse of encoding.

use vstd::prelude::*;

use crate::data::{entries_view, EntryView, PasswordDatabase, PasswordEntry};

verus! {

// ------------------------------------------------------------------
// Little-endian 64-bit integers
// ------------------------------------------------------------------

/// The eight little-endian bytes of a 64-bit integer.
pub open spec fn enc_u64(n: u64) -> Seq<u8> {
    seq![
        (n & 0xff) as u8,
        ((n >> 8) & 0xff) as u8,
        ((n >> 16) & 0xff) as u8,
        ((n >> 24) & 0xff) as u8,
        ((n >> 32) & 0xff) as u8,
        ((n >> 40) & 0xff) as u8,
        ((n >> 48) & 0xff) as u8,
        ((n >> 56) & 0xff) as u8,
    ]
}

/// The 64-bit integer read from the first eight bytes, little endian.
pub open spec fn dec_u64(b: Seq<u8>) -> u64
    recommends
        b.len() >= 8,
{
    (b[0] as u64) | ((b[1] as u64) << 8) | ((b[2] as u64) << 16) | ((b[3] as u64) << 24) | (
    (b[4] as u64) << 32) | ((b[5] as u64) << 40) | ((b[6] as u64) << 48) | ((b[7] as u64) << 56)
}

/// Reading back the eight little-endian bytes of an integer returns it.
pub proof fn lemma_u64_round_trip(n: u64)
    ensures
        dec_u64(enc_u64(n)) == n,
{
    assert((((n & 0xff) as u8) as u64) | (((((n >> 8) & 0xff) as u8) as u64) << 8) | (((((n >> 16)
        & 0xff) as u8) as u64) << 16) | (((((n >> 24) & 0xff) as u8) as u64) << 24) | (((((n >> 32)
        & 0xff) as u8) as u64) << 32) | (((((n >> 40) & 0xff) as u8) as u64) << 40) | (((((n >> 48)
        & 0xff) as u8) as u64) << 48) | (((((n >> 56) & 0xff) as u8) as u64) << 56) == n)
        by (bit_vector);
}

// ------------------------------------------------------------------
// Specification of the wire format
// ------------------------------------------------------------------

/// A byte blob on the wire: its length, then its bytes.
pub open spec fn enc_blob(data: Seq<u8>) -> Seq<u8> {
    enc_u64(data.len() as u64) + data
}

/// A string on the wire: its UTF-8 bytes as a blob.
pub open spec fn enc_str(s: Seq<char>) -> Seq<u8> {
    enc_blob(vstd::utf8::encode_utf8(s))
}

/// One record on the wire: name, username, encrypted secret, nonce.
pub open spec fn enc_entry(e: EntryView) -> Seq<u8> {
    enc_str(e.name) + enc_str(e.username) + enc_blob(e.encrypted_password) + enc_blob(e.iv)
}

/// A sequence of records on the wire, one after the other.
pub open spec fn enc_entries(entries: Seq<EntryView>) -> Seq<u8>
    decreases entries.len(),
{
    if entries.len() == 0 {
        Seq::empty()
    } else {
        enc_entry(entries[0]) + enc_entries(entries.drop_first())
    }
}

/// The whole payload: the record count, then the records.
pub open spec fn enc_store(entries: Seq<EntryView>) -> Seq<u8> {
    enc_u64(entries.len() as u64) + enc_entries(entries)
}

/// Parses a blob; returns the blob and the remaining input.
pub open spec fn parse_blob(b: Seq<u8>) -> Option<(Seq<u8>, Seq<u8>)> {
    if b.len() < 8 {
        None
    } else {
        let n = dec_u64(b.subrange(0, 8)) as int;
        if b.len() - 8 < n {
            None
        } else {
            Some((b.subrange(8, 8 + n), b.subrange(8 + n, b.len() as int)))
        }
    }
}

/// Parses a string: a blob that must hold valid UTF-8.
pub open spec fn parse_str(b: Seq<u8>) -> Option<(Seq<char>, Seq<u8>)> {
    match parse_blob(b) {
        Some((raw, rest)) => if vstd::utf8::valid_utf8(raw) {
            Some((vstd::utf8::decode_utf8(raw), rest))
        } else {
            None
        },
        None => None,
    }
}

/// Parses one record: its four fields in order.
pub open spec fn parse_entry(b: Seq<u8>) -> Option<(EntryView, Seq<u8>)> {
    match parse_str(b) {
        None => None,
        Some((name, r1)) => match parse_str(r1) {
            None => None,
            Some((username, r2)) => match parse_blob(r2) {
                None => None,
                Some((encrypted_password, r3)) => match parse_blob(r3) {
                    None => None,
                    Some((iv, r4)) => Some(
                        (EntryView { name, username, encrypted_password, iv }, r4),
                    ),
                },
            },
        },
    }
}

/// Parses exactly `n` records, one after the other.
pub open spec fn parse_entries(b: Seq<u8>, n: nat) -> Option<(Seq<EntryView>, Seq<u8>)>
    decreases n,
{
    if n == 0 {
        Some((Seq::empty(), b))
    } else {
        match parse_entry(b) {
            None => None,
            Some((e, rest)) => match parse_entries(rest, (n - 1) as nat) {
                None => None,
                Some((entries, rest2)) => Some((seq![e] + entries, rest2)),
            },
        }
    }
}

/// Parses a whole payload: the count, that many records, and nothing left.
pub open spec fn parse_store(b: Seq<u8>) -> Option<Seq<EntryView>> {
    if b.len() < 8 {
        None
    } else {
        match parse_entries(b.skip(8), dec_u64(b.subrange(0, 8)) as nat) {
            Some((entries, rest)) => if rest.len() == 0 {
                Some(entries)
            } else {
                None
            },
            None => None,
        }
    }
}

// ------------------------------------------------------------------
// Size bounds (met by every collection a machine can hold)
// ------------------------------------------------------------------

/// Every field of the record is short enough for its length prefix.
pub open spec fn entry_sizes_ok(e: EntryView) -> bool {
    &&& vstd::utf8::encode_utf8(e.name).len() <= u64::MAX
    &&& vstd::utf8::encode_utf8(e.username).len() <= u64::MAX
    &&& e.encrypted_password.len() <= u64::MAX
    &&& e.iv.len() <= u64::MAX
}

/// The collection and each of its records are short enough to encode.
pub open spec fn store_sizes_ok(entries: Seq<EntryView>) -> bool {
    &&& entries.len() <= u64::MAX
    &&& forall|i: int| 0 <= i < entries.len() ==> entry_sizes_ok(#[trigger] entries[i])
}

// ------------------------------------------------------------------
// Round trip: parsing an encoding returns what was encoded
// ------------------------------------------------------------------

proof fn lemma_parse_blob_of_enc(data: Seq<u8>, rest: Seq<u8>)
    requires
        data.len() <= u64::MAX,
    ensures
        parse_blob(enc_blob(data) + rest) == Some((data, rest)),
{
    let whole = enc_blob(data) + rest;
    lemma_u64_round_trip(data.len() as u64);
    assert(whole.subrange(0, 8) =~= enc_u64(data.len() as u64));
    assert(whole.subrange(8, 8 + data.len() as int) =~= data);
    assert(whole.subrange(8 + data.len() as int, whole.len() as int) =~= rest);
}

proof fn lemma_parse_str_of_enc(s: Seq<char>, rest: Seq<u8>)
    requires
        vstd::utf8::encode_utf8(s).len() <= u64::MAX,
    ensures
        parse_str(enc_str(s) + rest) == Some((s, rest)),
{
    lemma_parse_blob_of_enc(vstd::utf8::encode_utf8(s), rest);
    vstd::utf8::encode_utf8_valid_utf8(s);
    vstd::utf8::encode_utf8_decode_utf8(s);
}

proof fn lemma_parse_entry_of_enc(e: EntryView, rest: Seq<u8>)
    requires
        entry_sizes_ok(e),
    ensures
        parse_entry(enc_entry(e) + rest) == Some((e, rest)),
{
    let t3 = enc_blob(e.iv) + rest;
    let t2 = enc_blob(e.encrypted_password) + t3;
    let t1 = enc_str(e.username) + t2;
    assert(enc_entry(e) + rest =~= enc_str(e.name) + t1);
    lemma_parse_str_of_enc(e.name, t1);
    lemma_parse_str_of_enc(e.username, t2);
    lemma_parse_blob_of_enc(e.encrypted_password, t3);
    lemma_parse_blob_of_enc(e.iv, rest);
}

#[verifier::rlimit(50)]
proof fn lemma_parse_entries_of_enc(entries: Seq<EntryView>, rest: Seq<u8>)
    requires
        forall|i: int| 0 <= i < entries.len() ==> entry_sizes_ok(#[trigger] entries[i]),
    ensures
        parse_entries(enc_entries(entries) + rest, entries.len()) == Some((entries, rest)),
    decreases entries.len(),
{
    if entries.len() == 0 {
        assert(enc_entries(entries) + rest =~= rest);
        assert(parse_entries(rest, 0) == Some((Seq::<EntryView>::empty(), rest)));
        assert(entries =~= Seq::<EntryView>::empty());
    } else {
        let e = entries[0];
        let tail = entries.drop_first();
        let whole = enc_entries(entries) + rest;
        let tail_bytes = enc_entries(tail) + rest;
        assert(whole =~= enc_entry(e) + tail_bytes);
        lemma_parse_entry_of_enc(e, tail_bytes);
        assert(parse_entry(whole) == Some((e, tail_bytes)));
        lemma_parse_entries_of_enc(tail, rest);
        assert(parse_entries(tail_bytes, tail.len()) == Some((tail, rest)));
        assert(tail.len() == (entries.len() - 1) as nat);
        assert(parse_entries(whole, entries.len()) == Some((seq![e] + tail, rest)));
        assert(seq![e] + tail =~= entries);
    }
}

/// Decoding is a left inverse of encoding: parsing the canonical encoding
/// of any record collection yields exactly that collection.
pub proof fn lemma_parse_store_of_enc(entries: Seq<EntryView>)
    requires
        store_sizes_ok(entries),
    ensures
        parse_store(enc_store(entries)) == Some(entries),
{
    let whole = enc_store(entries);
    lemma_u64_round_trip(entries.len() as u64);
    assert(whole.subrange(0, 8) =~= enc_u64(entries.len() as u64));
    assert(whole.skip(8) =~= enc_entries(entries) + Seq::<u8>::empty());
    lemma_parse_entries_of_enc(entries, Seq::empty());
}

// ------------------------------------------------------------------
// Executable encoder
// ------------------------------------------------------------------

fn push_u64(out: &mut Vec<u8>, n: u64)
    ensures
        final(out)@ == old(out)@ + enc_u64(n),
{
    proof {
        lemma_mask_byte(n);
        lemma_mask_byte(n >> 8);
        lemma_mask_byte(n >> 16);
        lemma_mask_byte(n >> 24);
        lemma_mask_byte(n >> 32);
        lemma_mask_byte(n >> 40);
        lemma_mask_byte(n >> 48);
        lemma_mask_byte(n >> 56);
    }
    out.push((n & 0xff) as u8);
    out.push(((n >> 8) & 0xff) as u8);
    out.push(((n >> 16) & 0xff) as u8);
    out.push(((n >> 24) & 0xff) as u8);
    out.push(((n >> 32) & 0xff) as u8);
    out.push(((n >> 40) & 0xff) as u8);
    out.push(((n >> 48) & 0xff) as u8);
    out.push(((n >> 56) & 0xff) as u8);
    assert(out@ =~= old(out)@ + enc_u64(n));
}

proof fn lemma_mask_byte(x: u64)
    ensures
        x & 0xff < 256,
{
    assert(x & 0xff < 256) by (bit_vector);
}

fn push_blob(out: &mut Vec<u8>, data: &[u8])
    ensures
        final(out)@ == old(out)@ + enc_blob(data@),
{
    push_u64(out, data.len() as u64);
    let ghost mid = out@;
    let mut i: usize = 0;
    while i < data.len()
        invariant
            i <= data@.len(),
            out@ == mid + data@.take(i as int),
        decreases data@.len() - i,
    {
        out.push(data[i]);
        assert(out@ =~= mid + data@.take(i as int + 1));
        i = i + 1;
    }
    assert(data@.take(data@.len() as int) =~= data@);
    assert(out@ =~= old(out)@ + enc_blob(data@));
}

fn push_str_blob(out: &mut Vec<u8>, s: &str)
    ensures
        final(out)@ == old(out)@ + enc_str(s@),
{
    push_blob(out, s.as_bytes());
}

proof fn lemma_enc_entries_push(entries: Seq<EntryView>, e: EntryView)
    ensures
        enc_entries(entries.push(e)) == enc_entries(entries) + enc_entry(e),
    decreases entries.len(),
{
    if entries.len() == 0 {
        assert(entries.push(e)[0] == e);
        assert(entries.push(e).drop_first() =~= Seq::<EntryView>::empty());
        assert(enc_entries(Seq::<EntryView>::empty()) =~= Seq::<u8>::empty());
        assert(enc_entries(entries.push(e)) =~= enc_entry(e) + Seq::<u8>::empty());
        assert(enc_entries(entries.push(e)) =~= enc_entries(entries) + enc_entry(e));
    } else {
        assert(entries.push(e)[0] == entries[0]);
        assert(entries.push(e).drop_first() =~= entries.drop_first().push(e));
        lemma_enc_entries_push(entries.drop_first(), e);
        assert(enc_entries(entries.push(e)) =~= enc_entry(entries[0]) + (enc_entries(
            entries.drop_first(),
        ) + enc_entry(e)));
        assert(enc_entry(entries[0]) + (enc_entries(entries.drop_first()) + enc_entry(e)) =~= (
        enc_entry(entries[0]) + enc_entries(entries.drop_first())) + enc_entry(e));
    }
}

/// Encodes a record collection as the canonical payload.
#[verifier::rlimit(50)]
pub fn encode_store(db: &PasswordDatabase) -> (r: Vec<u8>)
    ensures
        r@ == enc_store(db@),
{
    let mut out: Vec<u8> = Vec::new();
    let count = db.entries.len();
    push_u64(&mut out, count as u64);
    let mut i: usize = 0;
    while i < count
        invariant
            count == db.entries@.len(),
            i <= count,
            out@ == enc_u64(count as u64) + enc_entries(db@.take(i as int)),
        decreases count - i,
    {
        let ghost prev = out@;
        let ghost ev = db@[i as int];
        let entry = &db.entries[i];
        assert(entry@ == ev);
        push_str_blob(&mut out, entry.name.as_str());
        push_str_blob(&mut out, entry.username.as_str());
        push_blob(&mut out, entry.encrypted_password.as_slice());
        push_blob(&mut out, entry.iv.as_slice());
        proof {
            assert(out@ =~= prev + enc_entry(ev));
            lemma_enc_entries_push(db@.take(i as int), ev);
            assert(db@.take(i as int).push(ev) =~= db@.take(i as int + 1));
            assert(out@ =~= enc_u64(count as u64) + enc_entries(db@.take(i as int + 1)));
        }
        i = i + 1;
    }
    assert(db@.take(count as int) =~= db@);
    out
}

// ------------------------------------------------------------------
// Executable decoder
// ------------------------------------------------------------------

/// Relies on `String::from_utf8`: it succeeds exactly on valid UTF-8 and
/// returns the characters that the bytes encode.
#[verifier::external_body]
fn bytes_to_string(bytes: Vec<u8>) -> (r: Option<String>)
    ensures
        r is Some <==> vstd::utf8::valid_utf8(bytes@),
        r is Some ==> r->0@ == vstd::utf8::decode_utf8(bytes@),
{
    String::from_utf8(bytes).ok()
}

fn read_u64(bytes: &[u8], pos: usize) -> (r: u64)
    requires
        pos + 8 <= bytes@.len(),
    ensures
        r == dec_u64(bytes@.subrange(pos as int, pos as int + 8)),
{
    let r = (bytes[pos] as u64) | ((bytes[pos + 1] as u64) << 8) | ((bytes[pos + 2] as u64) << 16)
        | ((bytes[pos + 3] as u64) << 24) | ((bytes[pos + 4] as u64) << 32) | ((bytes[pos
        + 5] as u64) << 40) | ((bytes[pos + 6] as u64) << 48) | ((bytes[pos + 7] as u64) << 56);
    proof {
        let s = bytes@.subrange(pos as int, pos as int + 8);
        assert(s[0] == bytes@[pos as int]);
        assert(s[1] == bytes@[pos as int + 1]);
        assert(s[2] == bytes@[pos as int + 2]);
        assert(s[3] == bytes@[pos as int + 3]);
        assert(s[4] == bytes@[pos as int + 4]);
        assert(s[5] == bytes@[pos as int + 5]);
        assert(s[6] == bytes@[pos as int + 6]);
        assert(s[7] == bytes@[pos as int + 7]);
    }
    r
}

fn read_blob(bytes: &[u8], pos: usize) -> (r: Option<(Vec<u8>, usize)>)
    requires
        pos <= bytes@.len(),
    ensures
        r is Some ==> pos <= (r->0).1 <= bytes@.len() && parse_blob(bytes@.skip(pos as int))
            == Some(((r->0).0@, bytes@.skip((r->0).1 as int))),
        r is None ==> parse_blob(bytes@.skip(pos as int)) is None,
{
    let ghost s = bytes@.skip(pos as int);
    let total = bytes.len();
    let remaining = total - pos;
    if remaining < 8 {
        return None;
    }
    let n = read_u64(bytes, pos);
    proof {
        assert(s.subrange(0, 8) =~= bytes@.subrange(pos as int, pos as int + 8));
    }
    if n > (remaining - 8) as u64 {
        return None;
    }
    let len = n as usize;
    let start = pos + 8;
    assert(start + len <= total);
    let mut v: Vec<u8> = Vec::new();
    let mut i: usize = 0;
    while i < len
        invariant
            total == bytes@.len(),
            start + len <= total,
            i <= len,
            v@ == bytes@.subrange(start as int, start as int + i as int),
        decreases len - i,
    {
        v.push(bytes[start + i]);
        assert(v@ =~= bytes@.subrange(start as int, start as int + i as int + 1));
        i = i + 1;
    }
    proof {
        assert(v@ =~= s.subrange(8, 8 + n as int));
        assert(bytes@.skip((start + len) as int) =~= s.subrange(8 + n as int, s.len() as int));
    }
    Some((v, start + len))
}

fn read_str(bytes: &[u8], pos: usize) -> (r: Option<(String, usize)>)
    requires
        pos <= bytes@.len(),
    ensures
        r is Some ==> pos <= (r->0).1 <= bytes@.len() && parse_str(bytes@.skip(pos as int))
            == Some(((r->0).0@, bytes@.skip((r->0).1 as int))),
        r is None ==> parse_str(bytes@.skip(pos as int)) is None,
{
    match read_blob(bytes, pos) {
        None => None,
        Some((raw, next)) => match bytes_to_string(raw) {
            None => None,
            Some(s) => Some((s, next)),
        },
    }
}

fn read_entry(bytes: &[u8], pos: usize) -> (r: Option<(PasswordEntry, usize)>)
    requires
        pos <= bytes@.len(),
    ensures
        r is Some ==> pos <= (r->0).1 <= bytes@.len() && parse_entry(bytes@.skip(pos as int))
            == Some(((r->0).0@, bytes@.skip((r->0).1 as int))),
        r is None ==> parse_entry(bytes@.skip(pos as int)) is None,
{
    let name = match read_str(bytes, pos) {
        None => {
            return None;
        },
        Some(x) => x,
    };
    let username = match read_str(bytes, name.1) {
        None => {
            return None;
        },
        Some(x) => x,
    };
    let encrypted_password = match read_blob(bytes, username.1) {
        None => {
            return None;
        },
        Some(x) => x,
    };
    let iv = match read_blob(bytes, encrypted_password.1) {
        None => {
            return None;
        },
        Some(x) => x,
    };
    let entry = PasswordEntry {
        name: name.0,
        username: username.0,
        encrypted_password: encrypted_password.0,
        iv: iv.0,
    };
    Some((entry, iv.1))
}

/// The result of parsing a prefix, prepended to the result of parsing the
/// records that follow it.
spec fn prepend_entries(
    prefix: Seq<EntryView>,
    r: Option<(Seq<EntryView>, Seq<u8>)>,
) -> Option<(Seq<EntryView>, Seq<u8>)> {
    match r {
        None => None,
        Some((entries, rest)) => Some((prefix + entries, rest)),
    }
}

/// Decodes a payload back into a record collection; `None` exactly when
/// the bytes are not a canonical payload.
pub fn decode_store(bytes: &[u8]) -> (r: Option<PasswordDatabase>)
    ensures
        r is Some ==> parse_store(bytes@) == Some(r->0@),
        r is None ==> parse_store(bytes@) is None,
{
    if bytes.len() < 8 {
        return None;
    }
    let count = read_u64(bytes, 0);
    proof {
        assert(bytes@.subrange(0 as int, 0 as int + 8) =~= bytes@.subrange(0, 8));
    }
    let mut entries: Vec<PasswordEntry> = Vec::new();
    let mut pos: usize = 8;
    let mut k: u64 = 0;
    proof {
        assert(entries_view(entries@) =~= Seq::<EntryView>::empty());
        lemma_prepend_empty(parse_entries(bytes@.skip(8), count as nat));
    }
    while k < count
        invariant
            bytes@.len() >= 8,
            count == dec_u64(bytes@.subrange(0, 8)),
            k <= count,
            pos <= bytes@.len(),
            parse_entries(bytes@.skip(8), count as nat) == prepend_entries(
                entries_view(entries@),
                parse_entries(bytes@.skip(pos as int), (count - k) as nat),
            ),
        decreases count - k,
    {
        match read_entry(bytes, pos) {
            None => {
                assert(parse_entries(bytes@.skip(pos as int), (count - k) as nat) is None);
                return None;
            },
            Some((e, next)) => {
                proof {
                    let c = (count - k) as nat;
                    let x = parse_entries(bytes@.skip(next as int), (c - 1) as nat);
                    assert(parse_entries(bytes@.skip(pos as int), c) == prepend_entries(
                        seq![e@],
                        x,
                    ));
                    lemma_prepend_prepend(entries_view(entries@), e@, x);
                    assert(entries_view(entries@).push(e@) =~= entries_view(entries@.push(e)));
                }
                entries.push(e);
                pos = next;
                k = k + 1;
            },
        }
    }
    proof {
        let tail = parse_entries(bytes@.skip(pos as int), 0);
        assert(tail == Some((Seq::<EntryView>::empty(), bytes@.skip(pos as int))));
        assert(entries_view(entries@) + Seq::<EntryView>::empty() =~= entries_view(entries@));
    }
    if pos != bytes.len() {
        assert(bytes@.skip(pos as int).len() > 0);
        return None;
    }
    assert(bytes@.skip(pos as int).len() == 0);
    let db = PasswordDatabase { entries };
    Some(db)
}

proof fn lemma_prepend_empty(x: Option<(Seq<EntryView>, Seq<u8>)>)
    ensures
        prepend_entries(Seq::empty(), x) == x,
{
    match x {
        None => {
        },
        Some((entries, rest)) => {
            assert(Seq::<EntryView>::empty() + entries =~= entries);
        },
    }
}

proof fn lemma_prepend_prepend(
    prefix: Seq<EntryView>,
    e: EntryView,
    x: Option<(Seq<EntryView>, Seq<u8>)>,
)
    ensures
        prepend_entries(prefix, prepend_entries(seq![e], x)) == prepend_entries(
            prefix.push(e),
            x,
        ),
{
    match x {
        None => {
        },
        Some((entries, rest)) => {
            assert(prefix + (seq![e] + entries) =~= prefix.push(e) + entries);
        },
    }
}

} // verus!
