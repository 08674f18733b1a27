use fieldchain::config::{choose_salt, Compression, Config, Salt};
use fieldchain::saf::{is_under_odk_root, odk_root, saf_access, SafAccess};

fn config() -> Config {
    Config::with_defaults(
        "/home/u/FieldChainDrop".to_string(),
        "/home/u/.fieldchain".to_string(),
        "/home/u/.fieldchain/media".to_string(),
        "/home/u/.fieldchain/packages".to_string(),
        "/home/u/.fieldchain/tmp".to_string(),
        "/home/u/fake_odk_instances".to_string(),
    )
}

#[test]
fn defaults_of_a_fresh_installation() {
    let c = config();
    assert!(!c.use_saf);
    assert_eq!(c.saf_uri, None);
    assert_eq!(c.max_restarts, 3);
    assert_eq!(c.backoff_base_ms, 1000);
    assert_eq!(c.compression_method, "Deflated");
    assert_eq!(c.odk_reference_path, "/home/u/fake_odk_instances");
    assert_eq!(c.compression_method(), Compression::Deflated);
}

#[test]
fn compression_method_names() {
    let mut c = config();
    c.compression_method = "Stored".to_string();
    assert_eq!(c.compression_method(), Compression::Stored);
    c.compression_method = "stored".to_string();
    assert_eq!(c.compression_method(), Compression::Deflated);
    c.compression_method = String::new();
    assert_eq!(c.compression_method(), Compression::Deflated);
}

#[test]
fn saf_simulation_needs_saf_without_uri() {
    let mut c = config();
    assert!(!c.saf_simulation());
    c.use_saf = true;
    assert!(c.saf_simulation());
    c.saf_uri = Some("content://x".to_string());
    assert!(!c.saf_simulation());
}

#[test]
fn odk_root_is_watched_in_test_mode_or_simulation() {
    let mut c = config();
    assert!(!c.watches_odk_root(false));
    assert!(c.watches_odk_root(true));
    c.use_saf = true;
    assert!(c.watches_odk_root(false));
}

#[test]
fn saf_access_modes() {
    let mut c = config();
    assert_eq!(saf_access(&c), SafAccess::Disabled);
    c.use_saf = true;
    assert_eq!(saf_access(&c), SafAccess::Simulation);
    c.saf_uri = Some("content://x".to_string());
    assert_eq!(saf_access(&c), SafAccess::Uri);
}

#[test]
fn odk_root_membership_is_by_whole_components() {
    let c = config();
    assert!(is_under_odk_root(&c, "/home/u/fake_odk_instances/form_1"));
    assert!(is_under_odk_root(&c, "/home/u/fake_odk_instances"));
    assert!(!is_under_odk_root(&c, "/home/u/fake_odk_instances_old/form"));
    assert!(!is_under_odk_root(&c, "/home/u/FieldChainDrop/x"));
    assert_eq!(odk_root(&c), "/home/u/fake_odk_instances");
}

#[test]
fn stored_salt_of_right_size_is_kept() {
    let data = [5u8; 32];
    match choose_salt(Some(&data)) {
        Salt::Stored(s) => assert_eq!(s, data),
        Salt::Fresh(_) => panic!("expected the stored salt"),
    }
}

#[test]
fn missing_or_corrupt_salt_is_regenerated() {
    assert!(matches!(choose_salt(None), Salt::Fresh(_)));
    assert!(matches!(choose_salt(Some(&[1u8; 31])), Salt::Fresh(_)));
    assert!(matches!(choose_salt(Some(&[1u8; 33])), Salt::Fresh(_)));
}

#[test]
fn fresh_salts_differ() {
    let a = match choose_salt(None) { Salt::Fresh(s) => s, Salt::Stored(s) => s };
    let b = match choose_salt(None) { Salt::Fresh(s) => s, Salt::Stored(s) => s };
    assert_ne!(a, b);
}

#[test]
fn test_mode_replaces_only_the_drop_folder_and_odk_root() {
    let mut c = config();
    c.use_saf = true;
    c.max_restarts = 9;
    let t = c.clone().with_test_paths("/t/drop".to_string(), "/t/odk".to_string());
    assert_eq!(t.drop_folder, "/t/drop");
    assert_eq!(t.odk_reference_path, "/t/odk");
    assert_eq!(t.home_dir, c.home_dir);
    assert_eq!(t.media_dir, c.media_dir);
    assert!(t.use_saf);
    assert_eq!(t.max_restarts, 9);
    assert_eq!(t.compression_method, c.compression_method);
}
