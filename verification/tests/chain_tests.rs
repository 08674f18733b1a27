use fieldchain::chain::{bytes_equal, lists_equal, verify_links, RecordRow};
use fieldchain::hash::ChainRecord;

fn record() -> ChainRecord {
    ChainRecord {
        instance_id: "uuid:1".to_string(),
        day: 0,
        tick: 7,
        h0: vec![1; 32],
        h1: vec![2; 32],
        wavehash: vec![3; 32],
        parent_wavehash: vec![],
        media_hashes: vec![vec![1, 2], vec![3]],
        xml_hash: vec![4; 32],
        timestamp: 1_700_000_000_000,
        conflict_detected: true,
        previous_hash: Some(vec![9; 32]),
    }
}

#[test]
fn empty_chain_verifies_with_no_head() {
    assert_eq!(verify_links(&vec![]), (None, 0, 0));
}

#[test]
fn continuous_chain_has_no_breaks() {
    let rows = vec![
        (vec![1u8], vec![]),
        (vec![2u8], vec![1u8]),
        (vec![3u8], vec![2u8]),
    ];
    assert_eq!(verify_links(&rows), (Some(vec![3u8]), 3, 0));
}

#[test]
fn broken_links_are_counted() {
    let rows = vec![
        (vec![1u8], vec![5u8]),
        (vec![2u8], vec![9u8]),
        (vec![3u8], vec![2u8]),
        (vec![4u8], vec![2u8]),
    ];
    assert_eq!(verify_links(&rows), (Some(vec![4u8]), 4, 2));
}

#[test]
fn first_record_parent_is_not_checked() {
    let rows = vec![(vec![1u8], vec![42u8])];
    assert_eq!(verify_links(&rows), (Some(vec![1u8]), 1, 0));
}

#[test]
fn byte_equality_helpers() {
    assert!(bytes_equal(&[1, 2], &[1, 2]));
    assert!(!bytes_equal(&[1, 2], &[1, 3]));
    assert!(!bytes_equal(&[1, 2], &[1]));
    assert!(lists_equal(&vec![vec![1], vec![]], &vec![vec![1], vec![]]));
    assert!(!lists_equal(&vec![vec![1]], &vec![vec![1], vec![]]));
}

#[test]
fn record_becomes_row_with_json_media_and_flag() {
    let row = record().into_row().unwrap();
    assert_eq!(row.media_hashes, "[[1,2],[3]]");
    assert_eq!(row.conflict_detected, 1);
    assert_eq!(row.instance_id, "uuid:1");
    assert_eq!(row.previous_hash, Some(vec![9; 32]));
    let mut plain = record();
    plain.conflict_detected = false;
    assert_eq!(plain.into_row().unwrap().conflict_detected, 0);
}

#[test]
fn row_round_trips_to_record() {
    let row = record().into_row().unwrap();
    let back = ChainRecord::from_row(row).unwrap();
    let first = record();
    assert_eq!(back.media_hashes, first.media_hashes);
    assert_eq!(back.wavehash, first.wavehash);
    assert_eq!(back.tick, first.tick);
    assert!(back.conflict_detected);
    assert_eq!(back.previous_hash, first.previous_hash);
}

#[test]
fn any_nonzero_conflict_flag_means_conflict() {
    let mut row = record().into_row().unwrap();
    row.conflict_detected = 5;
    assert!(ChainRecord::from_row(row).unwrap().conflict_detected);
}

#[test]
fn malformed_media_json_is_an_error() {
    let mut row: RecordRow = record().into_row().unwrap();
    row.media_hashes = "not json".to_string();
    assert!(ChainRecord::from_row(row).is_err());
}

#[test]
fn stored_records_read_back_unchanged() {
    for media in [vec![], vec![vec![]], vec![vec![0u8, 255], vec![7; 32]]] {
        let mut r = record();
        r.media_hashes = media.clone();
        r.conflict_detected = false;
        r.previous_hash = None;
        let back = ChainRecord::from_row(r.clone().into_row().unwrap()).unwrap();
        assert_eq!(back.media_hashes, media);
        assert!(!back.conflict_detected);
        assert_eq!(back.previous_hash, None);
        assert_eq!(back.instance_id, r.instance_id);
        assert_eq!((back.day, back.tick, back.timestamp), (r.day, r.tick, r.timestamp));
        assert_eq!((back.h0, back.h1, back.xml_hash), (r.h0, r.h1, r.xml_hash));
        assert_eq!((back.wavehash, back.parent_wavehash), (r.wavehash, r.parent_wavehash));
    }
}
