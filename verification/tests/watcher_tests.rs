use fieldchain::chain::verify_links;
use fieldchain::hash::{compute_h0, compute_h1, compute_wavehash, ChainRecord};
use fieldchain::watcher::{
    classify_submission, is_reserved_name, metadata_bytes, order_media, seal_record,
    snapshots_equal, Admission, FileTime, SnapshotEntry,
};

fn strings(v: &[&str]) -> Vec<String> {
    v.iter().map(|s| s.to_string()).collect()
}

fn keys(v: &[&str]) -> Vec<Vec<u8>> {
    v.iter().map(|s| s.as_bytes().to_vec()).collect()
}

fn existing() -> ChainRecord {
    ChainRecord {
        instance_id: "uuid:1".to_string(),
        day: 0,
        tick: 1,
        h0: vec![0; 32],
        h1: vec![0; 32],
        wavehash: vec![7; 32],
        parent_wavehash: vec![],
        media_hashes: vec![vec![1; 32]],
        xml_hash: vec![2; 32],
        timestamp: 0,
        conflict_detected: false,
        previous_hash: None,
    }
}

#[test]
fn reserved_names() {
    assert!(is_reserved_name("submission.xml"));
    assert!(is_reserved_name("metadata.json"));
    assert!(!is_reserved_name("photo.jpg"));
    assert!(!is_reserved_name("Submission.xml"));
}

#[test]
fn media_are_sorted_by_relative_path_without_reserved_files() {
    let names = strings(&["b.jpg", "submission.xml", "a.jpg", "metadata.json", "c.png"]);
    let ks = keys(&["b.jpg", "submission.xml", "a.jpg", "metadata.json", "sub/c.png"]);
    assert_eq!(order_media(&names, &ks), vec![2, 0, 4]);
}

#[test]
fn media_order_is_bytewise_and_stable() {
    let names = strings(&["x", "y", "z", "w"]);
    let ks = keys(&["B", "a", "", ""]);
    assert_eq!(order_media(&names, &ks), vec![2, 3, 0, 1]);
}

#[test]
fn reserved_names_in_subdirectories_are_excluded_too() {
    let names = strings(&["submission.xml", "photo.jpg"]);
    let ks = keys(&["sub/submission.xml", "photo.jpg"]);
    assert_eq!(order_media(&names, &ks), vec![1]);
}

#[test]
fn unknown_instance_is_new() {
    assert!(matches!(classify_submission(None, &[2; 32], &vec![vec![1; 32]]), Admission::New));
}

#[test]
fn identical_content_is_a_duplicate() {
    let rec = existing();
    assert!(matches!(
        classify_submission(Some(&rec), &[2; 32], &vec![vec![1; 32]]),
        Admission::Duplicate
    ));
}

#[test]
fn different_content_is_a_conflict_with_previous_wavehash() {
    let rec = existing();
    match classify_submission(Some(&rec), &[3; 32], &vec![vec![1; 32]]) {
        Admission::Conflict(w) => assert_eq!(w, vec![7; 32]),
        other => panic!("unexpected {:?}", other),
    }
    match classify_submission(Some(&rec), &[2; 32], &vec![]) {
        Admission::Conflict(w) => assert_eq!(w, vec![7; 32]),
        other => panic!("unexpected {:?}", other),
    }
}

#[test]
fn metadata_is_instance_id_colon_seconds() {
    assert_eq!(metadata_bytes("uuid:1", 1_700_000_000), b"uuid:1:1700000000".to_vec());
    assert_eq!(metadata_bytes("x", 0), b"x:0".to_vec());
    assert_eq!(metadata_bytes("x", -5), b"x:-5".to_vec());
    assert_eq!(metadata_bytes("é", i64::MIN), format!("é:{}", i64::MIN).into_bytes());
    assert_eq!(metadata_bytes("", i64::MAX), format!(":{}", i64::MAX).into_bytes());
}

#[test]
fn sealed_record_chains_to_the_head() {
    let salt = [9u8; 32];
    let head = vec![7u8; 32];
    let media = vec![vec![1u8; 32], vec![2u8; 32]];
    let rec = seal_record(
        "uuid:1".to_string(),
        b"<d/>",
        1_700_000_000,
        &salt,
        Some(head.clone()),
        3,
        4,
        vec![5u8; 32],
        media.clone(),
        1_700_000_000_123,
        Admission::New,
    );
    let h0 = compute_h0(b"<d/>", b"uuid:1:1700000000", &salt);
    let h1 = compute_h1(&h0, &head);
    assert_eq!(rec.h0, h0);
    assert_eq!(rec.h1, h1);
    assert_eq!(rec.wavehash, compute_wavehash(3, 4, &h1, &media));
    assert_eq!(rec.parent_wavehash, head);
    assert_eq!((rec.day, rec.tick, rec.timestamp), (3, 4, 1_700_000_000_123));
    assert!(!rec.conflict_detected);
    assert_eq!(rec.previous_hash, None);
}

#[test]
fn first_record_has_empty_parent_and_conflicts_are_flagged() {
    let salt = [0u8; 32];
    let rec = seal_record(
        "a".to_string(),
        b"<d/>",
        1,
        &salt,
        None,
        0,
        1,
        vec![5u8; 32],
        vec![],
        2,
        Admission::Conflict(vec![8u8; 32]),
    );
    assert!(rec.parent_wavehash.is_empty());
    assert_eq!(rec.h1, compute_h1(&rec.h0, &[]));
    assert!(rec.conflict_detected);
    assert_eq!(rec.previous_hash, Some(vec![8u8; 32]));
}

fn entry(path: &str, secs: u64, len: u64) -> SnapshotEntry {
    SnapshotEntry {
        path: path.as_bytes().to_vec(),
        modified: FileTime { after_epoch: true, secs, nanos: 0 },
        len,
    }
}

#[test]
fn snapshots_compare_paths_times_and_lengths() {
    let a = vec![entry("/i/a", 1, 10), entry("/i/b", 2, 20)];
    let b = vec![entry("/i/a", 1, 10), entry("/i/b", 2, 20)];
    assert!(snapshots_equal(&a, &b));
    assert!(!snapshots_equal(&a, &vec![entry("/i/a", 1, 10), entry("/i/b", 3, 20)]));
    assert!(!snapshots_equal(&a, &vec![entry("/i/a", 1, 10), entry("/i/b", 2, 21)]));
    assert!(!snapshots_equal(&a, &vec![entry("/i/a", 1, 10)]));
    assert!(snapshots_equal(&vec![], &vec![]));
}

#[test]
fn records_sealed_on_the_head_keep_the_chain_continuous() {
    let salt = [1u8; 32];
    let mut rows: Vec<(Vec<u8>, Vec<u8>)> = Vec::new();
    let mut head: Option<Vec<u8>> = None;
    for (i, id) in ["a", "b", "c"].iter().enumerate() {
        let rec = seal_record(
            id.to_string(),
            b"<d/>",
            i as i64,
            &salt,
            head.clone(),
            0,
            i as i64 + 1,
            vec![0u8; 32],
            vec![],
            0,
            Admission::New,
        );
        rows.push((rec.wavehash.clone(), rec.parent_wavehash.clone()));
        head = Some(rec.wavehash.clone());
    }
    assert_eq!(verify_links(&rows), (head, 3, 0));
    rows.push((vec![9u8; 32], vec![8u8; 32]));
    assert_eq!(verify_links(&rows).2, 1);
}
