use fieldchain::hash::ChainRecord;
use fieldchain::package::{
    check_media_hash, check_media_hashes, check_xml_hash, JsonValue, PackageError, PackageMetadata,
    PackageNames,
};

fn record() -> ChainRecord {
    ChainRecord {
        instance_id: "uuid:1".to_string(),
        day: 1,
        tick: 2,
        h0: vec![0x00, 0xff],
        h1: vec![0xab],
        wavehash: vec![0x10, 0x0a],
        parent_wavehash: vec![],
        media_hashes: vec![vec![1; 32], vec![0xde, 0xad]],
        xml_hash: vec![4; 32],
        timestamp: 99,
        conflict_detected: true,
        previous_hash: None,
    }
}

#[test]
fn xml_hash_checks() {
    let rec = record();
    assert_eq!(check_xml_hash(&rec, &[4; 32]), Ok(()));
    assert_eq!(check_xml_hash(&rec, &[5; 32]), Err(PackageError::XmlHashMismatch));
    assert_eq!(check_xml_hash(&rec, &[4; 31]), Err(PackageError::XmlHashLength));
}

#[test]
fn media_hash_checks() {
    let rec = record();
    assert_eq!(check_media_hash(&[0; 32]), Ok(()));
    assert_eq!(check_media_hash(&[0; 33]), Err(PackageError::MediaHashLength));
    assert_eq!(check_media_hashes(&rec, &rec.media_hashes.clone()), Ok(()));
    assert_eq!(
        check_media_hashes(&rec, &vec![vec![1; 32]]),
        Err(PackageError::MediaHashesMismatch)
    );
    assert_eq!(
        check_media_hashes(&rec, &vec![vec![1; 32], vec![0xde, 0xae]]),
        Err(PackageError::MediaHashesMismatch)
    );
}

#[test]
fn error_messages() {
    assert_eq!(PackageError::MissingCacheDir.message(), "cache_dir required for package generation");
    assert_eq!(PackageError::MissingSubmissionXml.message(), "submission.xml missing in cache");
    assert_eq!(PackageError::XmlHashLength.message(), "xml_hash has wrong length");
    assert_eq!(PackageError::XmlHashMismatch.message(), "xml_hash mismatch");
    assert_eq!(PackageError::MediaHashLength.message(), "media hash has wrong length");
    assert_eq!(PackageError::MediaHashesMismatch.message(), "media_hashes mismatch");
}

#[test]
fn metadata_holds_hex_hashes() {
    let m = PackageMetadata::describe("uuid:1", &record());
    assert_eq!(m.instance_id, "uuid:1");
    assert_eq!((m.day, m.tick, m.timestamp), (1, 2, 99));
    assert_eq!(m.h0, "00ff");
    assert_eq!(m.h1, "ab");
    assert_eq!(m.wavehash, "100a");
    assert_eq!(m.parent_wavehash, "");
    assert_eq!(m.media_hashes, vec!["01".repeat(32), "dead".to_string()]);
    assert_eq!(m.xml_hash, "04".repeat(32));
    assert!(m.conflict_detected);
}

#[test]
fn package_file_names() {
    let n = PackageNames::for_instance("uuid:1");
    assert_eq!(n.zip, "uuid:1.zip");
    assert_eq!(n.json, "uuid:1.json");
    assert_eq!(n.temp_zip, "uuid:1.tmp.zip");
    assert_eq!(n.temp_json, "uuid:1.tmp.json");
}

#[test]
fn description_entries_in_key_order() {
    let entries = PackageMetadata::describe("uuid:1", &record()).into_entries();
    let keys: Vec<&str> = entries.iter().map(|(k, _)| k.as_str()).collect();
    assert_eq!(
        keys,
        vec![
            "instance_id", "day", "tick", "h0", "h1", "wavehash", "parent_wavehash",
            "media_hashes", "xml_hash", "timestamp", "conflict_detected"
        ]
    );
    assert!(matches!(&entries[0].1, JsonValue::Text(t) if t == "uuid:1"));
    assert!(matches!(&entries[1].1, JsonValue::Integer(1)));
    assert!(matches!(&entries[3].1, JsonValue::Text(t) if t == "00ff"));
    assert!(matches!(&entries[7].1, JsonValue::TextList(l) if l.len() == 2 && l[1] == "dead"));
    assert!(matches!(&entries[9].1, JsonValue::Integer(99)));
    assert!(matches!(&entries[10].1, JsonValue::Boolean(true)));
}
