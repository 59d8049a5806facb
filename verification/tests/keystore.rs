//! The stores, and how one is chosen.
use sigil::keystore::host::{
    asks_keychain, legacy_keychain_notice, migration_due, migration_notice, judge_presence, override_keystore_notice,
    Notices, StoreKind,
};
use sigil::keystore::{
    file_keystore_path, file_keystore_residual, for_host, is_sealed_body,
    presence_plan, verify_host_presence, FileKeystore, FileRead, FileState, Keystore,
    KeystoreError, MemoryKeystore, PresencePlan, RamKeystore,
};
use sigil::keystore_macos::{KeychainFailure, MacKeystore, ERR_SEC_ITEM_NOT_FOUND, SERVICE};

#[test]
fn blob_store_load_delete() {
    let mut ks = MemoryKeystore::new();
    assert!(ks.load_blob("id.key").unwrap().is_none());
    ks.store_blob("id.key", b"\x01\x02\x03").unwrap();
    assert_eq!(ks.load_blob("id.key").unwrap().unwrap(), b"\x01\x02\x03");
    ks.store_blob("id.key", b"\x04").unwrap();
    assert_eq!(ks.load_blob("id.key").unwrap().unwrap(), b"\x04");
    ks.delete_blob("id.key").unwrap();
    assert!(ks.load_blob("id.key").unwrap().is_none());
    ks.delete_blob("id.key").unwrap();
    assert_eq!(ks.backend(), "memory");
}

#[test]
fn memory_keystore_is_not_a_biometric_factor() {
    assert!(!MemoryKeystore::new().is_biometric());
    assert!(MemoryKeystore::new().verify_presence("x").is_err());
}

fn reread(state: FileState) -> FileState {
    let entries = state.into_entries();
    let body = br#"{"blobs":{}}"#.to_vec();
    FileKeystore::read(FileRead::Bytes { body, state: Ok(FileState::from_entries(entries)) })
        .ok()
        .unwrap()
}

#[test]
fn file_keystore_persists_blobs_across_instances() {
    let mut a = FileKeystore::read(FileRead::Missing).ok().unwrap();
    a.store("id.key", b"blobby");
    let b = reread(a);
    assert_eq!(b.load("id.key").unwrap().unwrap(), b"blobby");
    assert!(b.load("other").unwrap().is_none());
    let ks = FileKeystore::new(b"/d/keystore.json".to_vec());
    assert_eq!(ks.backend(), "file");
    assert_eq!(ks.path(), b"/d/keystore.json");
    let entries = b.into_entries();
    assert_eq!(entries, vec![("id.key".to_string(), "YmxvYmJ5".to_string())]);
}

#[test]
fn a_file_state_replaces_and_deletes() {
    let mut s = FileState::empty();
    s.store("k", b"one");
    s.store("k", b"two");
    s.store("l", b"");
    assert_eq!(s.load("k").unwrap().unwrap(), b"two");
    assert_eq!(s.load("l").unwrap().unwrap(), b"");
    s.delete("k");
    s.delete("absent");
    assert!(s.load("k").unwrap().is_none());
    assert_eq!(s.into_entries(), vec![("l".to_string(), String::new())]);
}

#[test]
fn a_blob_that_is_no_base64_is_a_backend_error() {
    let s = FileState::from_entries(vec![("k".into(), "!!".into())]);
    assert!(matches!(s.load("k"), Err(KeystoreError::Backend(_))));
}

#[test]
fn a_wrapped_file_is_refused_by_name() {
    assert!(is_sealed_body(br#"{"v":2}"#));
    assert!(is_sealed_body(br#"{"v":3,"blobs":{}}"#));
    assert!(!is_sealed_body(br#"{"v":1,"blobs":{}}"#));
    assert!(!is_sealed_body(br#"{"v":"2"}"#));
    assert!(!is_sealed_body(b"junk"));
    let wrapped = FileRead::Bytes { body: br#"{"v":2}"#.to_vec(), state: Ok(FileState::empty()) };
    assert_eq!(FileKeystore::read(wrapped).err().unwrap(), KeystoreError::Sealed);
    let junk = FileRead::Bytes { body: b"junk".to_vec(), state: Err("expected ident".into()) };
    assert_eq!(
        FileKeystore::read(junk).err().unwrap().message(),
        "keystore backend: expected ident"
    );
    let failed = FileKeystore::read(FileRead::Failed("denied".into())).err().unwrap();
    assert_eq!(failed, KeystoreError::Backend("denied".into()));
}

#[test]
fn each_keystore_error_says_what_it_is() {
    assert_eq!(KeystoreError::Declined.message(), "biometric presence check declined");
    assert_eq!(
        KeystoreError::NeedsVerification("x").message(),
        "secure enclave path not yet verified on hardware: x"
    );
    let sealed = KeystoreError::Sealed.message();
    assert!(sealed.contains("Sigil app") && sealed.contains("not a re-pair situation"));
}

#[test]
fn the_default_store_is_the_on_disk_file_with_no_environment_at_all() {
    let choice = for_host(None, None, true);
    assert_eq!(choice.store, StoreKind::File);
    assert!(choice.notices.is_empty(), "the default is silent");
    assert_eq!(file_keystore_path(Some(b"/h"), None), b"/h/keystore.json");
    assert_eq!(file_keystore_path(None, Some(b"/home/u")), b"/home/u/.sigil/keystore.json");
    assert_eq!(file_keystore_path(None, None), b"./keystore.json");
    let mut s = FileKeystore::read(FileRead::Missing).ok().unwrap();
    s.store("id.key", b"x");
    assert_eq!(s.load("id.key").unwrap().unwrap(), b"x");
}

#[test]
fn a_pre_default_dev_keystore_is_migrated_in_place() {
    assert!(migration_due(true, false));
    assert!(!migration_due(false, false));
    let mut old = FileState::empty();
    old.store("pairing.daemon-identity.v1", b"the-old-identity");
    assert_eq!(
        reread(old).load("pairing.daemon-identity.v1").unwrap().unwrap(),
        b"the-old-identity"
    );
    assert!(!migration_due(false, true));
    assert_eq!(
        migration_notice(b"/h/dev-keystore.json", b"/h/keystore.json", Ok(())),
        "sigil keystore: moved /h/dev-keystore.json to /h/keystore.json (the on-disk store is now the default; your pairing is unchanged)"
    );
    assert!(migration_notice(b"/a", b"/b", Err("busy".into())).contains("could not move /a to /b (busy)"));
}

#[test]
fn migration_never_overwrites_an_existing_canonical_store() {
    assert!(!migration_due(true, true));
}

#[test]
fn the_env_override_selects_memory_under_either_spelling() {
    assert_eq!(for_host(Some("memory"), None, false).store, StoreKind::Memory);
    let old = for_host(None, Some("memory"), false);
    assert_eq!(old.store, StoreKind::Memory);
    assert!(old.notices[0].contains("SIGIL_DEV_KEYSTORE is deprecated"));
    assert_eq!(old.notices.len(), 2);
    assert_eq!(for_host(Some("file"), Some("memory"), false).store, StoreKind::File);
}

#[test]
fn file_is_the_default_for_an_empty_or_unrecognized_value() {
    let typo = for_host(Some("flie"), None, false);
    assert_eq!(typo.store, StoreKind::File);
    assert_eq!(typo.notices.len(), 1);
    assert!(typo.notices[0].contains("SIGIL_KEYSTORE=flie is not a store"));
    assert_eq!(for_host(Some(""), None, false).store, StoreKind::File);
    assert!(for_host(Some(""), None, false).notices.is_empty());
    assert_eq!(for_host(Some("keychain"), None, true).store, StoreKind::Keychain);
    assert_eq!(for_host(Some("keychain"), None, false).store, StoreKind::File);
}

#[test]
fn only_an_override_gets_a_banner_and_it_names_the_new_variable() {
    let memory = override_keystore_notice("memory");
    assert!(memory.contains("SIGIL_KEYSTORE=memory"));
    assert!(memory.contains("plaintext RAM"));
    assert!(!memory.contains("SIGIL_DEV_KEYSTORE"));

    let keychain = override_keystore_notice("keychain");
    assert!(keychain.contains("SIGIL_KEYSTORE=keychain"));
    assert!(keychain.contains("login keychain"));
}

#[test]
fn presence_is_asked_of_the_host_when_the_store_cannot_prove_it() {
    assert_eq!(presence_plan("keychain", true, true), PresencePlan::AskStore);
    assert_eq!(presence_plan("memory", false, true), PresencePlan::Nothing);
    assert_eq!(presence_plan("file", false, true), PresencePlan::AskHost, "macOS can still prompt");
    assert_eq!(
        presence_plan("file", false, false),
        PresencePlan::Nothing,
        "no presence check to demand"
    );
}

#[test]
fn the_file_store_residual_stays_honest_and_fits_one_line() {
    let r = file_keystore_residual();
    assert!(r.contains("no standalone decryption key"), "{r}");
    assert!(r.contains("identity"), "{r}");
    assert!(r.contains("inert"), "{r}");
    assert!(r.contains("together"), "names the both-at-once residual: {r}");
    assert!(r.contains("guard the file"), "{r}");
    assert!(!r.contains("RISK"), "no scare framing");
    assert!(!r.contains('\n'), "one line, so callers can indent it: {r}");
    assert!(r.len() < 160, "short enough for one terminal line: {r}");
}

#[test]
fn presence_counts_only_on_the_code_that_says_so() {
    assert!(judge_presence(1).is_ok());
    assert_eq!(judge_presence(0), Err(KeystoreError::Declined));
    assert_eq!(
        judge_presence(-1008),
        Err(KeystoreError::Backend("biometrics unavailable (LAError -8)".into()))
    );
    assert_eq!(
        judge_presence(-1),
        Err(KeystoreError::Backend("presence check failed (code -1)".into()))
    );
    assert!(verify_host_presence(Some(1)).is_ok());
    assert_eq!(
        verify_host_presence(None),
        Err(KeystoreError::Backend("this host has no presence check".into()))
    );
}

#[test]
fn a_notice_is_given_once_per_process() {
    let mut n = Notices::new();
    assert!(n.note_once());
    assert!(!n.note_once());
    assert!(!n.note_once());
}

#[test]
fn a_pairing_left_in_the_keychain_is_named() {
    assert!(asks_keychain(true, "file", false));
    assert!(!asks_keychain(true, "file", true));
    assert!(!asks_keychain(true, "memory", false));
    assert!(!asks_keychain(false, "file", false));
    let line = legacy_keychain_notice(true, "file", false, true).unwrap();
    assert!(line.contains("SIGIL_KEYSTORE=keychain"));
    assert!(legacy_keychain_notice(true, "file", false, false).is_none());
}

#[test]
fn keychain_replies_read_as_what_they_mean() {
    let ks = MacKeystore::new();
    assert_eq!(ks.service(), SERVICE);
    assert_eq!(ks.backend(), "keychain");
    assert!(ks.is_biometric());
    let gone = || KeychainFailure { code: ERR_SEC_ITEM_NOT_FOUND, message: "not found".into() };
    let broken = || KeychainFailure { code: -25293, message: "auth failed".into() };
    assert_eq!(MacKeystore::loaded(Ok(b"x".to_vec())).unwrap().unwrap(), b"x");
    assert!(MacKeystore::loaded(Err(gone())).unwrap().is_none());
    assert_eq!(
        MacKeystore::loaded(Err(broken())),
        Err(KeystoreError::Backend("auth failed".into()))
    );
    assert!(MacKeystore::deleted(Err(gone())).is_ok());
    assert!(MacKeystore::deleted(Err(broken())).is_err());
    assert!(MacKeystore::stored(Err(gone())).is_err());
    assert!(MacKeystore::stored(Ok(())).is_ok());
    assert_eq!(MacKeystore::presence(0), Err(KeystoreError::Declined));
}

#[test]
fn opened_material_becomes_the_live_read_only_keystore() {
    let material = vec![("pairing.daemon-identity.v1".to_string(), "aGVsbG8=".to_string())];
    let mut ks = RamKeystore::from_material(Ok(material)).ok().unwrap();
    assert_eq!(ks.len(), 1);
    assert!(!ks.is_empty());
    assert_eq!(ks.load_blob("pairing.daemon-identity.v1").unwrap().unwrap(), b"hello");
    assert!(ks.load_blob("absent").unwrap().is_none());
    assert_eq!(ks.store_blob("x", b"y"), Err(KeystoreError::Sealed));
    assert_eq!(ks.delete_blob("pairing.daemon-identity.v1"), Err(KeystoreError::Sealed));
    assert!(RamKeystore::from_material(Err("not json".into())).is_err());
    assert!(!ks.is_biometric());
    assert_eq!(ks.load_blob("pairing.daemon-identity.v1").unwrap().unwrap(), b"hello");
}

#[test]
fn material_that_does_not_parse_opens_nothing() {
    let bad = RamKeystore::from_material(Err("eof".into()));
    assert!(matches!(bad, Err(KeystoreError::Backend(_))));
    let odd = RamKeystore::from_material(Ok(vec![("k".into(), "!".into())]));
    assert!(matches!(odd, Err(KeystoreError::Backend(_))));
    assert!(RamKeystore::from_material(Ok(Vec::new())).ok().unwrap().is_empty());
}
