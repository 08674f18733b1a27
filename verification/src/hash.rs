//! The hashes that make up a chain record, and the record itself.
//!
//! H0 = SHA-256(raw XML bytes || metadata || salt)
//! H1 = SHA-256(H0 || parent wavehash)
//! wavehash = SHA-256(day_le || tick_le || H1 || media hashes...)

use vstd::prelude::*;
use vstd::bytes::{spec_u64_to_le_bytes, u64_to_le_bytes};
use sha2::Digest;

verus! {

/// Length in bytes of every hash in a chain record.
pub const HASH_LEN: usize = 32;

/// What SHA-256 yields for the given message.
pub uninterp spec fn sha256_of(message: Seq<u8>) -> Seq<u8>;

/// SHA-256 of `data`, through `sha2::Sha256::digest`.
/// Trusted: the result is the SHA-256 digest of `data` (named `sha256_of`),
/// and it is 32 bytes long, as the type `Sha256` fixes its output size to `U32`.
#[verifier::external_body]
fn sha256(data: &[u8]) -> (digest: Vec<u8>)
    ensures
        digest@ == sha256_of(data@),
        digest@.len() == HASH_LEN,
{
    sha2::Sha256::digest(data).to_vec()
}

/// The views of a sequence of byte vectors.
pub open spec fn byte_seqs(v: Seq<Vec<u8>>) -> Seq<Seq<u8>> {
    v.map_values(|b: Vec<u8>| b@)
}

/// The 8 little-endian bytes of a signed 64-bit integer (two's complement).
pub open spec fn i64_le_bytes(x: i64) -> Seq<u8> {
    spec_u64_to_le_bytes(x as u64)
}

/// The message hashed into H0.
pub open spec fn h0_message(xml: Seq<u8>, metadata: Seq<u8>, salt: Seq<u8>) -> Seq<u8> {
    xml + metadata + salt
}

/// The message hashed into H1.
pub open spec fn h1_message(h0: Seq<u8>, parent_wavehash: Seq<u8>) -> Seq<u8> {
    h0 + parent_wavehash
}

/// The message hashed into a wavehash.
pub open spec fn wavehash_message(day: i64, tick: i64, h1: Seq<u8>, media_hashes: Seq<Seq<u8>>) -> Seq<u8> {
    i64_le_bytes(day) + i64_le_bytes(tick) + h1 + media_hashes.flatten()
}

/// Appends `src` to `dst`.
fn append_bytes(dst: &mut Vec<u8>, src: &[u8])
    ensures
        final(dst)@ == old(dst)@ + src@,
{
    let ghost start = dst@;
    let mut i: usize = 0;
    while i < src.len()
        invariant
            i <= src@.len(),
            dst@ == start + src@.subrange(0, i as int),
        decreases src@.len() - i,
    {
        dst.push(src[i]);
        i = i + 1;
        assert(dst@ =~= start + src@.subrange(0, i as int));
    }
    assert(src@.subrange(0, i as int) =~= src@);
}

/// SHA-256 of arbitrary bytes, such as a file's raw content.
pub fn hash_bytes(data: &[u8]) -> (digest: Vec<u8>)
    ensures
        digest@ == sha256_of(data@),
        digest@.len() == HASH_LEN,
{
    sha256(data)
}

/// H0 = SHA-256(raw XML bytes || metadata || salt)
pub fn compute_h0(xml: &[u8], metadata: &[u8], salt: &[u8; 32]) -> (h0: Vec<u8>)
    ensures
        h0@ == sha256_of(h0_message(xml@, metadata@, salt@)),
        h0@.len() == HASH_LEN,
{
    let mut message: Vec<u8> = Vec::new();
    append_bytes(&mut message, xml);
    append_bytes(&mut message, metadata);
    append_bytes(&mut message, salt.as_slice());
    sha256(message.as_slice())
}

/// H1 = SHA-256(H0 || parent_wavehash)
pub fn compute_h1(h0: &[u8], parent_wavehash: &[u8]) -> (h1: Vec<u8>)
    ensures
        h1@ == sha256_of(h1_message(h0@, parent_wavehash@)),
        h1@.len() == HASH_LEN,
{
    let mut message: Vec<u8> = Vec::new();
    append_bytes(&mut message, h0);
    append_bytes(&mut message, parent_wavehash);
    sha256(message.as_slice())
}

/// wavehash = SHA-256(day_le || tick_le || H1 || media_hashes...)
pub fn compute_wavehash(day: i64, tick: i64, h1: &[u8], media_hashes: &[Vec<u8>]) -> (wavehash: Vec<u8>)
    ensures
        wavehash@ == sha256_of(wavehash_message(day, tick, h1@, byte_seqs(media_hashes@))),
        wavehash@.len() == HASH_LEN,
{
    let mut message: Vec<u8> = Vec::new();
    let day_bytes = u64_to_le_bytes(day as u64);
    let tick_bytes = u64_to_le_bytes(tick as u64);
    append_bytes(&mut message, day_bytes.as_slice());
    append_bytes(&mut message, tick_bytes.as_slice());
    append_bytes(&mut message, h1);
    let ghost prefix = message@;
    let mut i: usize = 0;
    while i < media_hashes.len()
        invariant
            i <= media_hashes@.len(),
            message@ == prefix + byte_seqs(media_hashes@).subrange(0, i as int).flatten(),
        decreases media_hashes@.len() - i,
    {
        let ghost before = byte_seqs(media_hashes@).subrange(0, i as int);
        append_bytes(&mut message, media_hashes[i].as_slice());
        proof {
            let after = byte_seqs(media_hashes@).subrange(0, i + 1);
            assert(after =~= before.push(media_hashes@[i as int]@));
            before.lemma_flatten_push(media_hashes@[i as int]@);
            assert(message@ =~= prefix + after.flatten());
        }
        i = i + 1;
    }
    assert(byte_seqs(media_hashes@).subrange(0, i as int) =~= byte_seqs(media_hashes@));
    sha256(message.as_slice())
}

/// One record of the chain.
#[derive(Debug, Clone)]
pub struct ChainRecord {
    pub instance_id: String,
    pub day: i64,
    pub tick: i64,
    pub h0: Vec<u8>,
    pub h1: Vec<u8>,
    pub wavehash: Vec<u8>,
    pub parent_wavehash: Vec<u8>,
    pub media_hashes: Vec<Vec<u8>>,
    pub xml_hash: Vec<u8>,
    pub timestamp: i64,
    pub conflict_detected: bool,
    pub previous_hash: Option<Vec<u8>>,
}

} // verus!
