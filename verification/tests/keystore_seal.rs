//! Wrapped keystore files, their digests and the adoption marker.
use sigil::keystore_seal::{
    adopted_marker_path, adoption_marker_body, digest, digest_from_hex, digest_hex, digests_equal,
    is_adopted, read_adoption_marker, render_v2, AdoptionMarker, KeystoreFile, SealError, SealRead,
    SealShape, SealState,
};
use sigil::private_file::{temp_name, PrivateWrite};
use sigil::secrets::Token;

fn token(body: &str) -> Token {
    Token::new(body.as_bytes().to_vec())
}

fn shape(body: &str) -> Result<SealShape, String> {
    let _: serde_json::Value = serde_json::from_str(body).map_err(|e| e.to_string())?;
    Ok(SealShape::of(body.as_bytes()))
}

fn parse(body: &str) -> Result<KeystoreFile, SealError> {
    KeystoreFile::parse(token(body), shape(body))
}

const V1: &str = r#"{"blobs":{"pairing.daemon-identity.v1":"AAAA"}}"#;

#[test]
fn the_digest_is_domain_separated_and_length_prefixed() {
    let a = digest(b"pubkey", b"material");
    let bare: [u8; 32] =
        <blake2::Blake2b<blake2::digest::consts::U32> as blake2::Digest>::digest(b"pubkeymaterial")
            .into();
    assert_ne!(a, bare);
    assert_ne!(digest(b"pub", b"keymaterial"), digest(b"pubkey", b"material"));
    assert_eq!(a, digest(b"pubkey", b"material"));
    assert_ne!(a, digest(b"other", b"material"));
    assert_ne!(a, digest(b"pubkey", b"other"));
    assert_eq!(
        digest_hex(&digest(b"k", b"m")),
        "56618e717d90c1ed2e01f61d82758930802a2bfce4b9afc99b62c30a711b8d66"
    );
}

#[test]
fn digest_hex_round_trips_and_compares_in_constant_time() {
    let d = digest(b"k", b"m");
    let hex = digest_hex(&d);
    assert_eq!(hex.len(), 64);
    assert_eq!(digest_from_hex(&hex), Some(d));
    assert!(digests_equal(&d, &d));
    let mut other = d;
    other[31] ^= 1;
    assert!(!digests_equal(&d, &other));
    assert_eq!(digest_from_hex("abc"), None);
    assert_eq!(digest_from_hex(&"z".repeat(64)), None);
}

#[test]
fn a_digest_reads_in_either_case_and_in_no_other_form() {
    let d = digest(b"k", b"m");
    assert_eq!(digest_from_hex(&digest_hex(&d).to_uppercase()), Some(d));
    assert_eq!(digest_from_hex(&"+f".repeat(32)), None);
    assert_eq!(digest_from_hex(&"\u{e9}".repeat(32)), None);
    assert_eq!(digest_from_hex(&"0f".repeat(32)), Some([15u8; 32]));
}

#[test]
fn a_v1_file_parses_as_plaintext_material() {
    let f = parse(V1).ok().unwrap();
    match &f {
        KeystoreFile::V1(bytes) => assert!(bytes.as_slice().starts_with(b"{\"blobs\"")),
        _ => panic!("expected v1"),
    }
    assert!(!f.is_wrapped());
}

#[test]
fn a_v2_file_parses_and_carries_no_material() {
    let d = digest(b"spki", b"material");
    let body = render_v2(&d, b"spki", b"ciphertext-bytes");
    let f = parse(&body).ok().unwrap();
    assert!(f.is_wrapped());
    match f {
        KeystoreFile::V2 { pub_digest, se_pub, ciphertext } => {
            assert_eq!(pub_digest, d);
            assert_eq!(se_pub, b"spki");
            assert_eq!(ciphertext, b"ciphertext-bytes");
        }
        _ => panic!("expected v2"),
    }
    let rendered = render_v2(&d, b"spki", b"ct");
    assert!(!rendered.contains("se_wrapped"));
    let v: serde_json::Value = serde_json::from_str(&rendered).unwrap();
    assert_eq!(v.as_object().unwrap().len(), 4);
    assert_eq!(v["se_pub"].as_str(), Some("c3BraQ=="));
    assert_eq!(v["ciphertext"].as_str(), Some("Y3Q="));
    assert_eq!(v["v"].as_u64(), Some(2));
}

#[test]
fn contradictory_files_are_refused_rather_than_guessed_at() {
    let cases: [&str; 4] = [
        r#"{"v":2,"pub_digest":"00","se_pub":"","ciphertext":"","blobs":{}}"#,
        r#"{"blobs":{},"ciphertext":"AA"}"#,
        r#"{"something":1}"#,
        r#"{"v":9,"blobs":{}}"#,
    ];
    for body in cases {
        let err = match parse(body) {
            Err(e) => e,
            Ok(_) => panic!("must refuse: {body}"),
        };
        assert!(
            matches!(err, SealError::Contradictory(_) | SealError::Version(_) | SealError::Digest),
            "unexpected error for {body}: {}",
            err.message()
        );
    }
}

#[test]
fn a_plaintext_file_with_a_wrapping_key_is_refused() {
    for field in [r#""se_pub":"AA==""#, r#""ciphertext":"AA==""#, r#""pub_digest":"00""#] {
        assert_eq!(
            parse(&format!(r#"{{"blobs":{{}},{field}}}"#)).err().unwrap(),
            SealError::Contradictory("a plaintext file also carries wrapped fields"),
            "{field}"
        );
    }
}

#[test]
fn a_null_field_is_an_absent_one() {
    let null = SealShape::of(br#"{"v":null,"blobs":null,"se_pub":null}"#);
    assert!(!null.blobs && null.v.is_none() && null.se_pub.is_none());
    assert_eq!(
        parse(r#"{"blobs":null}"#).err().unwrap(),
        SealError::Contradictory("no blobs and no wrapping")
    );
    assert!(SealShape::of(br#"{"blobs":{}}"#).blobs);
    assert!(SealShape::of(br#"{"blobs":false}"#).blobs);
    assert!(!SealShape::of(br#"{"v":2}"#).blobs);
    assert!(!SealShape::of(b"not json").blobs);
}

#[test]
fn a_rendered_file_reads_back_as_wrapped() {
    let d = digest(b"spki", b"material");
    let body = render_v2(&d, b"spki", b"ct");
    let shape = SealShape::of(body.as_bytes());
    assert_eq!(shape.v, Some(2));
    assert!(!shape.blobs);
    assert_eq!(shape.se_pub.as_deref(), Some("c3BraQ=="));
    assert_eq!(shape.ciphertext.as_deref(), Some("Y3Q="));
    assert_eq!(shape.pub_digest, Some(digest_hex(&d)));
    assert!(KeystoreFile::parse(token(&body), Ok(shape)).ok().unwrap().is_wrapped());
}

#[test]
fn a_malformed_wrapped_file_fails_closed() {
    for body in [
        r#"{"v":2,"pub_digest":"nothex","se_pub":"AA==","ciphertext":"AA=="}"#,
        r#"{"v":2,"pub_digest":"aa","se_pub":"AA==","ciphertext":"AA=="}"#,
        r#"{"v":2,"se_pub":"AA==","ciphertext":"AA=="}"#,
        "not json at all",
    ] {
        assert!(parse(body).is_err());
    }
}

#[test]
fn each_refusal_of_a_file_says_why() {
    let why = |body: &str| parse(body).err().unwrap();
    assert_eq!(
        why(r#"{"v":2,"blobs":{}}"#),
        SealError::Contradictory("a wrapped file also carries plaintext blobs")
    );
    assert_eq!(
        why(r#"{"blobs":{},"pub_digest":"00"}"#).message(),
        "keystore file is self-contradictory (a plaintext file also carries wrapped fields); refusing to guess"
    );
    assert_eq!(
        why("{}").message(),
        "keystore file is self-contradictory (no blobs and no wrapping); refusing to guess"
    );
    assert_eq!(
        why(r#"{"v":9}"#).message(),
        "keystore file is v9, which this build does not understand"
    );
    assert_eq!(why(r#"{"v":2}"#).message(), "keystore pub_digest is not 32 bytes of hex");
    let hex = "00".repeat(32);
    let se = why(&format!(r#"{{"v":2,"pub_digest":"{hex}","se_pub":"!","ciphertext":"AA=="}}"#));
    assert_eq!(se.message(), "keystore field se_pub is not valid base64");
    let ct = why(&format!(r#"{{"v":2,"pub_digest":"{hex}","se_pub":"AA=="}}"#));
    assert_eq!(ct.message(), "keystore field ciphertext is not valid base64");
    assert!(why("nope").message().starts_with("keystore file is not valid JSON: "));
    let io = KeystoreFile::read(SealRead::Failed("denied".into())).err().unwrap();
    assert_eq!(io.message(), "keystore io: denied");
    assert!(matches!(KeystoreFile::read(SealRead::Missing), Ok(KeystoreFile::Absent)));
    let read = SealRead::Bytes { body: token(V1), shape: shape(V1) };
    assert!(matches!(KeystoreFile::read(read), Ok(KeystoreFile::V1(_))));
}

fn marker(key: &[u8]) -> AdoptionMarker {
    AdoptionMarker { se_pub: key.to_vec(), adopted_at_ms: 1 }
}

#[test]
fn seal_state_reads_the_file_and_the_marker_together() {
    let d = [7u8; 32];
    let wrapped = KeystoreFile::V2 {
        pub_digest: d,
        se_pub: b"spki".to_vec(),
        ciphertext: b"ct".to_vec(),
    };
    assert_eq!(
        SealState::resolve(&wrapped, None),
        SealState::Sealed { expected: d, se_pub: b"spki".to_vec() }
    );
    assert!(matches!(
        SealState::resolve(&wrapped, Some(&marker(b"spki"))),
        SealState::Sealed { .. }
    ));

    let plain = KeystoreFile::V1(token(V1));
    assert_eq!(SealState::resolve(&plain, None), SealState::Plain);
    assert_eq!(SealState::resolve(&plain, Some(&marker(b"spki"))), SealState::Downgraded);
    assert_eq!(
        SealState::resolve(&KeystoreFile::Absent, Some(&marker(b"spki"))),
        SealState::Downgraded
    );
    assert_eq!(SealState::resolve(&KeystoreFile::Absent, None), SealState::Plain);
}

#[test]
fn a_keystore_wrapped_to_another_enclave_key_is_refused() {
    let theirs = KeystoreFile::V2 {
        pub_digest: [9u8; 32],
        se_pub: b"attacker-spki".to_vec(),
        ciphertext: b"ct".to_vec(),
    };
    let state = SealState::resolve(&theirs, Some(&marker(b"our-spki")));
    assert_eq!(state, SealState::KeyChanged);
    assert!(
        state.blocks_serving(true),
        "a substituted keystore must serve nothing, provisioned or not"
    );
    let why = state.explain(true).expect("it explains itself");
    assert!(why.contains("DIFFERENT Secure Enclave key"), "{why}");
    assert!(why.contains("Refusing to serve"), "{why}");
    assert!(!why.contains("must be running"), "{why}");

    assert_eq!(SealState::resolve(&theirs, Some(&marker(b""))), SealState::KeyChanged);
}

#[test]
fn only_a_provisioned_seal_serves_and_a_downgrade_never_does() {
    assert!(!SealState::Plain.blocks_serving(false));
    let sealed = SealState::Sealed { expected: [0u8; 32], se_pub: Vec::new() };
    assert!(sealed.blocks_serving(false), "unprovisioned seal serves nothing");
    assert!(!sealed.blocks_serving(true), "provisioned seal serves");
    assert!(SealState::Downgraded.blocks_serving(true), "a downgrade never serves");
}

#[test]
fn the_sealed_explanation_never_tells_anyone_to_re_pair() {
    let sealed = SealState::Sealed { expected: [0u8; 32], se_pub: Vec::new() };
    let msg = sealed.explain(false).expect("an unprovisioned seal explains itself");
    assert!(msg.contains("keystore sealed"));
    assert!(msg.contains("Sigil app must be running"));
    assert!(
        !msg.to_lowercase().contains("re-pair") || msg.contains("nothing here needs re-pairing")
    );
    assert!(!msg.to_lowercase().contains("no pairing"));
    assert!(sealed.explain(true).is_none(), "a provisioned seal is quiet");
    assert!(SealState::Plain.explain(false).is_none());

    let down = SealState::Downgraded.explain(true).unwrap();
    assert!(down.contains("downgraded"));
    assert!(down.contains("sigil keystore unwrap"));
}

#[test]
fn an_adoption_marker_gives_back_what_it_recorded() {
    let body = adoption_marker_body(1_700_000_000_123, b"spki");
    let read = read_adoption_marker(Some(body.as_bytes())).unwrap();
    assert_eq!(read.se_pub, b"spki");
    assert_eq!(read.adopted_at_ms, 1_700_000_000_123);
    assert!(read_adoption_marker(None).is_none());
}

#[test]
fn a_marker_that_cannot_be_read_still_records_adoption() {
    let odd = read_adoption_marker(Some(b"\xff not json")).unwrap();
    assert!(odd.se_pub.is_empty());
    assert_eq!(odd.adopted_at_ms, 0);
    assert!(is_adopted(Some(true)));
    assert!(!is_adopted(Some(false)));
    assert!(!is_adopted(None));
}

#[test]
fn the_marker_lives_in_the_state_directory() {
    let p = adopted_marker_path(Some(b"/Users/x/state")).unwrap();
    assert_eq!(p, b"/Users/x/state/adopted");
    assert!(adopted_marker_path(None).is_none());
}

#[test]
fn a_private_write_narrows_before_it_fills() {
    let mut at = PrivateWrite::MakeDir;
    let mut seen = Vec::new();
    while at != PrivateWrite::Done {
        seen.push(at);
        at = at.next(true, false);
    }
    assert_eq!(
        seen,
        vec![
            PrivateWrite::MakeDir,
            PrivateWrite::Create,
            PrivateWrite::Narrow,
            PrivateWrite::Fill,
            PrivateWrite::Sync,
            PrivateWrite::Publish,
        ]
    );
    for step in seen {
        let tidied = step.next(false, true);
        let plain = step.next(false, false);
        assert_eq!(plain, PrivateWrite::Failed);
        if step == PrivateWrite::Publish {
            assert_eq!(tidied, PrivateWrite::Discard);
            assert_eq!(tidied.next(false, true), PrivateWrite::Failed);
        } else {
            assert_eq!(tidied, PrivateWrite::Failed);
        }
    }
}

#[test]
fn a_temporary_name_stands_beside_its_target() {
    assert_eq!(temp_name(b"/a/thing.json", "x", ".tmp.", 42), ".thing.json.tmp.42");
    assert_eq!(temp_name(b"/a/\xff.json", "x", ".tmp.", 42), ".\u{fffd}.json.tmp.42");
    assert_eq!(temp_name(b"/", "keystore", "-", 7), ".keystore-7");
    assert_eq!(temp_name(b"a/..", "keystore", "-", 7), ".keystore-7");
}
