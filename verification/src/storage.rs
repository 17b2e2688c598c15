//! What a sync node's document store computes: the stored form of document
//! versions (eight big-endian bytes), the version a write leaves behind,
//! and the digest of all versions that a node offers its peers.
use vstd::prelude::*;
use vstd::utf8::{decode_utf8, valid_utf8};

verus! {

/// Why stored data could not be read back.
#[derive(Debug, Clone, PartialEq, Eq)]
pub enum StoreError {
    /// A stored version is not eight bytes long.
    InvalidVersion,
    /// A stored document id is not UTF-8; the text is std's description of the fault.
    InvalidDocId(String),
}

/// An error as a plain value: `None` for an invalid version, the text of an invalid document id.
pub open spec fn error_text(e: StoreError) -> Option<Seq<char>> {
    match e {
        StoreError::InvalidVersion => None,
        StoreError::InvalidDocId(m) => Some(m@),
    }
}

impl StoreError {
    /// The error's message.
    pub fn message(&self) -> (r: String)
        ensures
            *self is InvalidVersion ==> r@ == "invalid stored document version"@,
            self matches StoreError::InvalidDocId(m) ==> r@ == m@,
    {
        match self {
            StoreError::InvalidVersion => "invalid stored document version".to_owned(),
            StoreError::InvalidDocId(m) => m.clone(),
        }
    }
}

/// The number that a sequence of bytes spells in big-endian order.
pub open spec fn be_value(b: Seq<u8>) -> nat
    decreases b.len(),
{
    if b.len() == 0 {
        0
    } else {
        be_value(b.drop_last()) * 256 + b.last() as nat
    }
}

/// 256 to the power `n`.
pub open spec fn pow256(n: nat) -> nat
    decreases n,
{
    if n == 0 {
        1
    } else {
        256 * pow256((n - 1) as nat)
    }
}

proof fn lemma_be_bound(b: Seq<u8>)
    ensures
        be_value(b) < pow256(b.len()),
    decreases b.len(),
{
    if b.len() > 0 {
        lemma_be_bound(b.drop_last());
        let x = be_value(b.drop_last());
        let p = pow256(b.drop_last().len());
        let l = b.last() as nat;
        assert(x * 256 + l < p * 256) by (nonlinear_arith)
            requires
                x < p,
                l < 256,
        ;
    }
}

/// The stored version in `bytes`: the big-endian number of exactly eight bytes.
pub fn decode_version(bytes: &[u8]) -> (r: Result<u64, StoreError>)
    ensures
        r is Ok <==> bytes@.len() == 8,
        r matches Ok(v) ==> v == be_value(bytes@),
        r matches Err(e) ==> e == StoreError::InvalidVersion,
{
    if bytes.len() != 8 {
        return Err(StoreError::InvalidVersion);
    }
    let mut acc: u64 = 0;
    let mut i: usize = 0;
    while i < 8
        invariant
            bytes@.len() == 8,
            0 <= i <= 8,
            acc == be_value(bytes@.take(i as int)),
        decreases 8 - i,
    {
        proof {
            lemma_be_bound(bytes@.take(i as int));
            assert(pow256(7) == 0x100000000000000) by {
                reveal_with_fuel(pow256, 8);
            }
            assert(pow256(i as nat) <= pow256(7)) by {
                lemma_pow256_monotone(i as nat, 7);
            }
            assert(bytes@.take(i + 1).drop_last() =~= bytes@.take(i as int));
        }
        acc = acc * 256 + bytes[i] as u64;
        i = i + 1;
    }
    proof {
        assert(bytes@.take(8) =~= bytes@);
    }
    Ok(acc)
}

proof fn lemma_pow256_monotone(a: nat, b: nat)
    requires
        a <= b,
    ensures
        pow256(a) <= pow256(b),
    decreases b,
{
    if a < b {
        lemma_pow256_monotone(a, (b - 1) as nat);
    }
}

/// The eight big-endian bytes of `v`.
pub open spec fn be8(v: u64) -> Seq<u8> {
    seq![
        (v >> 56) as u8,
        ((v >> 48) & 0xff) as u8,
        ((v >> 40) & 0xff) as u8,
        ((v >> 32) & 0xff) as u8,
        ((v >> 24) & 0xff) as u8,
        ((v >> 16) & 0xff) as u8,
        ((v >> 8) & 0xff) as u8,
        (v & 0xff) as u8,
    ]
}

proof fn lemma_be_value_8(s: Seq<u8>)
    requires
        s.len() == 8,
    ensures
        be_value(s) == (((((((s[0] as nat * 256 + s[1] as nat) * 256 + s[2] as nat) * 256 + s[3] as nat)
            * 256 + s[4] as nat) * 256 + s[5] as nat) * 256 + s[6] as nat) * 256 + s[7] as nat),
{
    reveal_with_fuel(be_value, 9);
    assert(s.drop_last().drop_last().drop_last().drop_last().drop_last().drop_last().drop_last().drop_last().len() == 0);
}

/// A version written in its stored form reads back as itself.
pub proof fn law_version_roundtrip(v: u64)
    ensures
        be8(v).len() == 8,
        be_value(be8(v)) == v,
{
    let s = be8(v);
    lemma_be_value_8(s);
    let (b0, b1, b2, b3, b4, b5, b6, b7) = (s[0], s[1], s[2], s[3], s[4], s[5], s[6], s[7]);
    assert(v == (((((((b0 as u64 * 256 + b1 as u64) * 256 + b2 as u64) * 256 + b3 as u64) * 256
        + b4 as u64) * 256 + b5 as u64) * 256 + b6 as u64) * 256 + b7 as u64)) by (bit_vector)
        requires
            b0 == (v >> 56) as u8,
            b1 == ((v >> 48) & 0xff) as u8,
            b2 == ((v >> 40) & 0xff) as u8,
            b3 == ((v >> 32) & 0xff) as u8,
            b4 == ((v >> 24) & 0xff) as u8,
            b5 == ((v >> 16) & 0xff) as u8,
            b6 == ((v >> 8) & 0xff) as u8,
            b7 == (v & 0xff) as u8,
    ;
}

/// Eight stored bytes are the stored form of the version they read back as.
pub proof fn law_stored_bytes_roundtrip(s: Seq<u8>)
    requires
        s.len() == 8,
    ensures
        be_value(s) <= u64::MAX,
        be8(be_value(s) as u64) == s,
{
    lemma_be_value_8(s);
    let (b0, b1, b2, b3, b4, b5, b6, b7) = (s[0], s[1], s[2], s[3], s[4], s[5], s[6], s[7]);
    let v: u64 = (((((((b0 as u64 * 256 + b1 as u64) * 256 + b2 as u64) * 256 + b3 as u64) * 256
        + b4 as u64) * 256 + b5 as u64) * 256 + b6 as u64) * 256 + b7 as u64) as u64;
    assert(
        (((((((b0 as u64 * 256 + b1 as u64) * 256 + b2 as u64) * 256 + b3 as u64) * 256
        + b4 as u64) * 256 + b5 as u64) * 256 + b6 as u64) * 256 + b7 as u64) <= 0xffff_ffff_ffff_ffff
        && b0 == (v >> 56) as u8
        && b1 == ((v >> 48) & 0xff) as u8
        && b2 == ((v >> 40) & 0xff) as u8
        && b3 == ((v >> 32) & 0xff) as u8
        && b4 == ((v >> 24) & 0xff) as u8
        && b5 == ((v >> 16) & 0xff) as u8
        && b6 == ((v >> 8) & 0xff) as u8
        && b7 == (v & 0xff) as u8) by (bit_vector)
        requires
            v == (((((((b0 as u64 * 256 + b1 as u64) * 256 + b2 as u64) * 256 + b3 as u64) * 256
                + b4 as u64) * 256 + b5 as u64) * 256 + b6 as u64) * 256 + b7 as u64),
    ;
    assert(be8(be_value(s) as u64) =~= s);
}

/// The stored form of version `v`: its eight big-endian bytes.
pub fn encode_version(v: u64) -> (r: Vec<u8>)
    ensures
        r@ == be8(v),
        r@.len() == 8,
        be_value(r@) == v,
{
    let r = vec![
        (v >> 56) as u8,
        ((v >> 48) & 0xff) as u8,
        ((v >> 40) & 0xff) as u8,
        ((v >> 32) & 0xff) as u8,
        ((v >> 24) & 0xff) as u8,
        ((v >> 16) & 0xff) as u8,
        ((v >> 8) & 0xff) as u8,
        (v & 0xff) as u8,
    ];
    proof {
        assert(r@ =~= be8(v));
        law_version_roundtrip(v);
    }
    r
}

/// The version recorded for a document: the decoded stored version, or 0
/// when none is stored.
pub fn stored_version(stored: Option<&[u8]>) -> (r: Result<u64, StoreError>)
    ensures
        stored is None ==> r == Ok::<u64, StoreError>(0),
        stored matches Some(b) ==> (r is Ok <==> b@.len() == 8),
        stored matches Some(b) ==> (r matches Ok(v) ==> v == be_value(b@)),
        r matches Err(e) ==> e == StoreError::InvalidVersion,
{
    match stored {
        Some(b) => decode_version(b),
        None => Ok(0),
    }
}

/// The stored form of the version that a write of a document leaves: one
/// more than the version recorded before it.
pub fn version_after_put(stored: Option<&[u8]>) -> (r: Result<Vec<u8>, StoreError>)
    requires
        stored matches Some(b) ==> (b@.len() == 8 ==> be_value(b@) < u64::MAX),
    ensures
        r is Ok <==> (stored matches Some(b) ==> b@.len() == 8),
        r matches Ok(bytes) ==> bytes@.len() == 8,
        r matches Ok(bytes) ==> (stored is None ==> be_value(bytes@) == 1),
        r matches Ok(bytes) ==> (stored matches Some(b) ==> be_value(bytes@) == be_value(b@) + 1),
        r matches Err(e) ==> e == StoreError::InvalidVersion,
{
    let current = match stored_version(stored) {
        Ok(v) => v,
        Err(e) => {
            return Err(e);
        },
    };
    Ok(encode_version(current + 1))
}

/// What std's `FromUtf8Error` says of bytes that are not UTF-8: the text of
/// its `Display` (the length of the valid prefix, and of the bad sequence).
pub uninterp spec fn utf8_error_text(bytes: Seq<u8>) -> Seq<char>;

/// `String::from_utf8`: the string that `bytes` encode when they are UTF-8,
/// else the text of std's error, which depends on the bytes alone.
#[verifier::external_body]
fn string_from_utf8(bytes: Vec<u8>) -> (r: Result<String, String>)
    ensures
        r is Ok <==> valid_utf8(bytes@),
        r matches Ok(s) ==> s@ == decode_utf8(bytes@),
        r matches Err(m) ==> m@ == utf8_error_text(bytes@),
{
    match String::from_utf8(bytes) {
        Ok(s) => Ok(s),
        Err(e) => Err(e.to_string()),
    }
}

/// The digest entry that a stored (id, version) pair gives, if both read back.
pub open spec fn digest_entry_ok(key: Seq<u8>, value: Seq<u8>) -> bool {
    valid_utf8(key) && value.len() == 8
}

/// The error that the first unreadable entry of `entries` gives, as a plain
/// value (see `error_text`).
pub open spec fn first_error(entries: Seq<(Vec<u8>, Vec<u8>)>) -> Option<Seq<char>>
    decreases entries.len(),
{
    if entries.len() == 0 {
        None
    } else if !valid_utf8(entries[0].0@) {
        Some(utf8_error_text(entries[0].0@))
    } else if entries[0].1@.len() != 8 {
        None
    } else {
        first_error(entries.drop_first())
    }
}

proof fn lemma_first_error_prefix(entries: Seq<(Vec<u8>, Vec<u8>)>, i: int)
    requires
        0 <= i < entries.len(),
        forall|j: int| 0 <= j < i ==> digest_entry_ok(#[trigger] entries[j].0@, entries[j].1@),
    ensures
        first_error(entries) == first_error(entries.skip(i)),
    decreases i,
{
    if i > 0 {
        assert(entries.skip(1).skip(i - 1) =~= entries.skip(i));
        assert(digest_entry_ok(entries[0].0@, entries[0].1@));
        assert(entries.drop_first() =~= entries.skip(1));
        lemma_first_error_prefix(entries.skip(1), i - 1);
    } else {
        assert(entries.skip(0) =~= entries);
    }
}

/// The digest of a store: each stored (id, version) pair read back as a
/// document id and its version, in the order given. The first pair that
/// does not read back gives the error.
pub fn build_digest(entries: &Vec<(Vec<u8>, Vec<u8>)>) -> (r: Result<Vec<(String, u64)>, StoreError>)
    ensures
        r is Ok <==> forall|i: int|
            0 <= i < entries@.len() ==> digest_entry_ok(#[trigger] entries@[i].0@, entries@[i].1@),
        r matches Ok(d) ==> d@.len() == entries@.len() && forall|i: int|
            0 <= i < d@.len() ==> #[trigger] d@[i].0@ == decode_utf8(entries@[i].0@) && d@[i].1
                == be_value(entries@[i].1@),
        r matches Err(e) ==> error_text(e) == first_error(entries@),
{
    let ghost es = entries@;
    let mut out: Vec<(String, u64)> = Vec::new();
    let mut i: usize = 0;
    while i < entries.len()
        invariant
            es == entries@,
            0 <= i <= es.len(),
            forall|j: int| 0 <= j < i ==> digest_entry_ok(#[trigger] es[j].0@, es[j].1@),
            out@.len() == i,
            forall|j: int|
                0 <= j < i ==> #[trigger] out@[j].0@ == decode_utf8(es[j].0@) && out@[j].1
                    == be_value(es[j].1@),
        decreases es.len() - i,
    {
        let key = entries[i].0.clone();
        let name = match string_from_utf8(key) {
            Ok(s) => s,
            Err(m) => {
                proof {
                    lemma_first_error_prefix(es, i as int);
                    assert(es.skip(i as int)[0] == es[i as int]);
                }
                return Err(StoreError::InvalidDocId(m));
            },
        };
        let version = match decode_version(entries[i].1.as_slice()) {
            Ok(v) => v,
            Err(e) => {
                proof {
                    lemma_first_error_prefix(es, i as int);
                    assert(es.skip(i as int)[0] == es[i as int]);
                }
                return Err(e);
            },
        };
        out.push((name, version));
        i = i + 1;
    }
    Ok(out)
}

} // verus!
