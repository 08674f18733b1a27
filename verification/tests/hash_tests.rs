use fieldchain::hash::{compute_h0, compute_h1, compute_wavehash, hash_bytes, HASH_LEN};
use sha2::{Digest, Sha256};

fn sha(data: &[u8]) -> Vec<u8> {
    Sha256::digest(data).to_vec()
}

#[test]
fn hash_bytes_is_sha256() {
    let h = hash_bytes(b"abc");
    assert_eq!(
        hex::encode(&h),
        "ba7816bf8f01cfea414140de5dae2223b00361a396177a9cb410ff61f20015ad"
    );
    assert_eq!(h.len(), HASH_LEN);
}

#[test]
fn hash_of_empty_input() {
    assert_eq!(
        hex::encode(hash_bytes(b"")),
        "e3b0c44298fc1c149afbf4c8996fb92427ae41e4649b934ca495991b7852b855"
    );
}

#[test]
fn h0_hashes_xml_then_metadata_then_salt() {
    let salt = [7u8; 32];
    let h0 = compute_h0(b"<a/>", b"id:1", &salt);
    let mut msg = b"<a/>".to_vec();
    msg.extend_from_slice(b"id:1");
    msg.extend_from_slice(&salt);
    assert_eq!(h0, sha(&msg));
    assert_ne!(h0, sha(b"<a/>"));
}

#[test]
fn h1_hashes_h0_then_parent() {
    let h0 = sha(b"zero");
    let parent = sha(b"parent");
    let h1 = compute_h1(&h0, &parent);
    let mut msg = h0.clone();
    msg.extend_from_slice(&parent);
    assert_eq!(h1, sha(&msg));
    assert_eq!(compute_h1(&h0, &[]), sha(&h0));
}

#[test]
fn wavehash_hashes_day_tick_h1_and_media() {
    let h1 = sha(b"one");
    let media = vec![sha(b"m1"), sha(b"m2")];
    let w = compute_wavehash(2, 5, &h1, &media);
    let mut msg = Vec::new();
    msg.extend_from_slice(&2i64.to_le_bytes());
    msg.extend_from_slice(&5i64.to_le_bytes());
    msg.extend_from_slice(&h1);
    msg.extend_from_slice(&media[0]);
    msg.extend_from_slice(&media[1]);
    assert_eq!(w, sha(&msg));
}

#[test]
fn wavehash_encodes_negative_numbers_in_twos_complement() {
    let h1 = sha(b"one");
    let w = compute_wavehash(-1, i64::MIN, &h1, &[]);
    let mut msg = vec![0xff; 8];
    msg.extend_from_slice(&[0, 0, 0, 0, 0, 0, 0, 0x80]);
    msg.extend_from_slice(&h1);
    assert_eq!(w, sha(&msg));
}

#[test]
fn wavehash_depends_on_media_order() {
    let h1 = sha(b"one");
    let a = vec![sha(b"m1"), sha(b"m2")];
    let b = vec![sha(b"m2"), sha(b"m1")];
    assert_ne!(compute_wavehash(0, 1, &h1, &a), compute_wavehash(0, 1, &h1, &b));
}
