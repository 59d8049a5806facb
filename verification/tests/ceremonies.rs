//! Opening a wrapped store, sealing, signing, and what the daemon shows.
use sigil::daemon::conns::ConnGate;
use sigil::daemon::fulfil::Decision;
use sigil::daemon::gate::{build_gate, ApproverKind, DeviceTold};
use sigil::daemon::notices::{request_line, scope_of, ssh_request_line};
use sigil::daemon::pending::{pending_json, LocalPending, Readout, RemotePending};
use sigil::daemon::reply::Reply;
use sigil::daemon::request::RequestKind;
use sigil::daemon::sealed::{SealedRecord, SealedStore};
use sigil::daemon::sealing::{SealNext, SealRequest, SealStep, SealTold};
use sigil::daemon::serve::{
    accept, agent_line, armed_line, is_dead_peer, readied, AcceptNext, Accepted, Socket,
};
use sigil::daemon::ssh::{
    approve_and_sign, identities, sign_decided, sign_stored, stored_record_for, KeyOpening,
    ServedIdentity, SignNext, SignPlan, SignRequest, StoredKey, NO_PARTIAL,
};
use sigil::daemon::unwrap::{UnwrapRequests, Waiting};
use sigil::daemon::vault::{
    adoption_line, handle_unwrap_done, handle_unwrap_request, read_seal_state, stream_keystore, unwrap_cleared,
    unwrap_outcome, Opened, Refusal, UnwrapStep, Vault, DE_ADOPTED,
};
use sigil::daemon::watch::{reload_line, Reloads, Watched, Watcher};
use sigil::daemon::RemotePairingConfig;
use sigil::factor::{resolve, ArmInputs, Factor};
use sigil::keystore::Keystore;
use sigil::keystore_seal::{digest, AdoptionMarker, KeystoreFile, SealError, SealState};
use sigil::lease::Caller;
use sigil::policy::LeasePolicy;
use sigil::secrets::Token;

const MATERIAL: &[u8] = br#"{"blobs":{}}"#;

fn lines(reply: &Reply) -> String {
    match reply {
        Reply::Control { lines, .. } => lines.join("\n"),
        Reply::Exit { .. } => panic!("a control reply"),
    }
}

fn said_ok(reply: &Reply) -> bool {
    matches!(reply, Reply::Control { ok: true, .. })
}

fn vault(seal: SealState, provisioned: bool) -> Vault {
    Vault { seal, provisioned }
}

fn sealed_to(material: &[u8]) -> SealState {
    SealState::Sealed { expected: digest(b"spki", material), se_pub: b"spki".to_vec() }
}

fn send(v: &mut Vault, app: Result<(), String>, body: &[u8]) -> Result<Opened, Refusal> {
    v.provision(app, Ok(Token::new(body.to_vec())), Ok(Vec::new()))
}

#[test]
fn provisioning_is_refused_for_anyone_who_is_not_the_signed_app() {
    let mut v = vault(sealed_to(MATERIAL), false);
    let no = send(&mut v, Err("unsigned caller".into()), MATERIAL).err().unwrap();
    assert!(!said_ok(&no.reply), "an unsigned caller must be refused");
    assert!(lines(&no.reply).contains("signed Sigil app"));
    assert_eq!(no.log.unwrap(), "sigil daemon: keystore provision REFUSED; unsigned caller");
    assert!(!v.provisioned, "and must not leave the daemon provisioned");
}

#[test]
fn a_wrong_digest_provision_is_refused_and_does_not_latch() {
    let mut v = vault(sealed_to(b"DIFFERENT MATERIAL"), false);
    let no = send(&mut v, Ok(()), MATERIAL).err().unwrap();
    assert!(!said_ok(&no.reply));
    assert!(lines(&no.reply).contains("does not match this keystore"));
    assert!(!v.provisioned);
    let again = send(&mut v, Ok(()), MATERIAL).err().unwrap();
    assert!(!lines(&again.reply).contains("already provisioned"));
}

#[test]
fn the_committed_material_opens_the_store_once() {
    let body = br#"{"blobs":{"k":"aGVsbG8="}}"#;
    let mut v = vault(sealed_to(body), false);
    assert!(v.bars(&Ok(())).is_none());
    let entries = || Ok(vec![("k".to_string(), "aGVsbG8=".to_string())]);
    let opened = v.provision(Ok(()), Ok(Token::new(body.to_vec())), entries()).ok().unwrap();
    assert!(v.provisioned);
    assert_eq!(opened.keystore.load_blob("k").unwrap().unwrap(), b"hello");
    assert_eq!(lines(&opened.reply), "keystore opened");
    assert_eq!(opened.adopt, b"spki", "the key that is recorded as adopted");
    assert_eq!(opened.log, "sigil daemon: keystore opened by the Sigil app (1 blob(s)); serving.");
    let no = v.provision(Ok(()), Ok(Token::new(body.to_vec())), entries()).err().unwrap();
    assert!(lines(&no.reply).contains("already provisioned"));
    assert!(v.provisioned);
}

#[test]
fn material_is_judged_before_it_is_looked_into() {
    let v = vault(sealed_to(MATERIAL), false);
    let sent = |body: &[u8]| Ok(Token::new(body.to_vec()));
    assert!(v.check(&Ok(()), &sent(MATERIAL)).is_none());
    let said = |app: Result<(), String>, material: Result<Token, String>| {
        lines(&v.check(&app, &material).unwrap().reply)
    };
    assert!(said(Err("unsigned".into()), sent(MATERIAL)).contains("signed Sigil app"));
    assert_eq!(said(Ok(()), Err("eof".into())), "refused: the material could not be read");
    assert_eq!(
        said(Ok(()), sent(b"other")),
        "refused: the material does not match this keystore"
    );
    let open = vault(sealed_to(MATERIAL), true);
    assert!(open.check(&Ok(()), &sent(MATERIAL)).is_some());
    let mut v = v;
    let entries = Ok(vec![("k".to_string(), "aGVsbG8=".to_string())]);
    assert!(v.provision(Ok(()), sent(b"other"), entries).is_err());
    assert!(!v.provisioned);
}

#[test]
fn a_marker_that_cannot_be_written_is_said_and_stops_nothing() {
    assert!(adoption_line(Ok(())).is_none());
    assert_eq!(
        adoption_line(Err("read-only".into())).unwrap(),
        "sigil daemon: could not write the adoption marker: read-only"
    );
}

#[test]
fn every_other_bad_provision_says_why() {
    let mut plain = vault(SealState::Plain, false);
    let no = send(&mut plain, Ok(()), MATERIAL).err().unwrap();
    assert!(lines(&no.reply).contains("is not sealed"));
    assert!(no.log.is_none());
    let mut v = vault(sealed_to(MATERIAL), false);
    let unread = v.provision(Ok(()), Err("eof".into()), Ok(Vec::new())).err().unwrap();
    assert_eq!(lines(&unread.reply), "refused: the material could not be read");
    let odd = v
        .provision(Ok(()), Ok(Token::new(MATERIAL.to_vec())), Err("no blobs".into()))
        .err()
        .unwrap();
    assert_eq!(lines(&odd.reply), "refused: the material is not a keystore");
    assert!(!v.provisioned);
}

#[test]
fn a_sealed_daemon_refuses_to_seal_and_says_why() {
    let v = vault(SealState::Sealed { expected: [3u8; 32], se_pub: Vec::new() }, false);
    match SealRequest::start(&v, "src".into()).1 {
        SealNext::Answer { reply, .. } => {
            assert!(!said_ok(&reply));
            let said = lines(&reply);
            assert!(said.contains("keystore sealed"), "{said}");
            assert!(!said.to_lowercase().contains("no pairing"), "{said}");
        }
        SealNext::Go(_) | SealNext::Save(_) => panic!("a sealed store seals nothing"),
    }
}

fn record(id: &str) -> SealedRecord {
    SealedRecord {
        account_id: id.into(),
        ephemeral_pub: "E1".into(),
        se_key_id: "se-1".into(),
        ecdh_algo: "x963".into(),
    }
}

/// Seal, or remove, under the id `prod`. The stores that were handed out to be saved
/// come back beside the answer.
fn seal(armed: &mut SealedStore, told: Vec<SealTold>) -> (Reply, Option<String>, Vec<SealedStore>) {
    let (mut req, mut next) = SealRequest::start(&vault(SealState::Plain, false), "prod".into());
    let mut told = told.into_iter();
    let mut saved = Vec::new();
    loop {
        match next {
            SealNext::Answer { reply, log } => {
                assert_eq!(req.step, SealStep::Ended);
                assert!(told.next().is_none(), "answered early");
                return (reply, log, saved);
            }
            SealNext::Go(step) => assert_eq!(step, req.step),
            SealNext::Save(store) => {
                assert!(matches!(req.step, SealStep::SaveRemoved | SealStep::SaveSealed));
                saved.push(store);
            }
        }
        next = req.tell(armed, told.next().expect("the next step"));
    }
}

fn stored(ids: &[&str]) -> SealedStore {
    SealedStore { secrets: ids.iter().map(|id| record(id)).collect() }
}

fn ids(store: &SealedStore) -> Vec<&str> {
    store.secrets.iter().map(|r| r.account_id.as_str()).collect()
}

#[test]
fn a_daemon_mediated_seal_arms_the_record_immediately() {
    let mut armed = SealedStore::new();
    let (reply, log, saved) = seal(
        &mut armed,
        vec![
            SealTold::Value(Ok(false)),
            SealTold::Loaded(Ok(SealedStore::new())),
            SealTold::Pairing(Ok(Some(true))),
            SealTold::Share(Ok(true)),
            SealTold::Sealed(Ok(record("prod"))),
            SealTold::Saved(Ok(())),
        ],
    );
    assert!(said_ok(&reply));
    assert_eq!(lines(&reply), "sealed prod");
    assert_eq!(log.unwrap(), "sigil daemon: sealed 'prod'; 1 sealed secret(s) armed");
    assert!(armed.get("prod").is_some(), "the armed store holds it");
    assert_eq!(saved.len(), 1);
    assert_eq!(ids(&saved[0]), vec!["prod"]);

    let (reply, log, saved) = seal(
        &mut armed,
        vec![
            SealTold::Value(Ok(true)),
            SealTold::Loaded(Ok(stored(&["prod"]))),
            SealTold::Saved(Ok(())),
        ],
    );
    assert!(said_ok(&reply));
    assert_eq!(lines(&reply), "removed prod");
    assert_eq!(log.unwrap(), "sigil daemon: removed the sealed record for 'prod'; 0 armed");
    assert!(armed.get("prod").is_none());
    assert_eq!(saved.len(), 1);
    assert!(saved[0].secrets.is_empty());
}

#[test]
fn a_seal_or_a_removal_touches_only_its_own_id() {
    let mut armed = stored(&["stale"]);
    let (reply, log, saved) = seal(
        &mut armed,
        vec![
            SealTold::Value(Ok(true)),
            SealTold::Loaded(Ok(stored(&["a", "prod", "b", "prod"]))),
            SealTold::Saved(Ok(())),
        ],
    );
    assert!(said_ok(&reply));
    assert_eq!(log.unwrap(), "sigil daemon: removed the sealed record for 'prod'; 2 armed");
    assert_eq!(ids(&saved[0]), vec!["a", "b"]);
    assert_eq!(ids(&armed), vec!["a", "b"], "what was saved is what is armed");

    let mut fresh = record("elsewhere");
    fresh.ephemeral_pub = "E2".into();
    let (reply, _, saved) = seal(
        &mut armed,
        vec![
            SealTold::Value(Ok(false)),
            SealTold::Loaded(Ok(stored(&["a", "prod", "b"]))),
            SealTold::Pairing(Ok(Some(true))),
            SealTold::Share(Ok(true)),
            SealTold::Sealed(Ok(fresh)),
            SealTold::Saved(Ok(())),
        ],
    );
    assert!(said_ok(&reply));
    assert_eq!(saved[0].secrets.len(), 3);
    assert_eq!(saved[0].get("prod").unwrap().ephemeral_pub, "E2", "filed under the id asked for");
    assert!(saved[0].get("elsewhere").is_none());
    assert_eq!(armed.get("a").unwrap().ephemeral_pub, "E1");
    assert_eq!(armed.get("prod").unwrap().ephemeral_pub, "E2");
    assert_eq!(armed.secrets.len(), 3);
}

#[test]
fn a_seal_that_fails_changes_nothing() {
    let no = || "x".to_string();
    let cases: Vec<(Vec<SealTold>, &str)> = vec![
        (vec![SealTold::Value(Err(no()))], "the value could not be read: x"),
        (
            vec![SealTold::Value(Ok(false)), SealTold::Loaded(Err(no()))],
            "loading the threshold store: x",
        ),
        (
            vec![SealTold::Value(Ok(true)), SealTold::Loaded(Ok(stored(&["new", "prod"]))), SealTold::Saved(Err(no()))],
            "saving the threshold store: x",
        ),
        (
            vec![
                SealTold::Value(Ok(false)),
                SealTold::Loaded(Ok(stored(&["new", "prod"]))),
                SealTold::Pairing(Ok(None)),
            ],
            "no phone is paired; run `sigil pair` first",
        ),
        (
            vec![
                SealTold::Value(Ok(false)),
                SealTold::Loaded(Ok(stored(&["new", "prod"]))),
                SealTold::Pairing(Ok(Some(false))),
            ],
            "this pairing has no phone Secure-Enclave share; re-pair",
        ),
        (
            vec![
                SealTold::Value(Ok(false)),
                SealTold::Loaded(Ok(stored(&["new", "prod"]))),
                SealTold::Pairing(Ok(Some(true))),
                SealTold::Share(Ok(false)),
            ],
            "no Mac threshold share on this daemon; re-pair",
        ),
        (
            vec![
                SealTold::Value(Ok(false)),
                SealTold::Loaded(Ok(stored(&["new", "prod"]))),
                SealTold::Pairing(Ok(Some(true))),
                SealTold::Share(Ok(true)),
                SealTold::Sealed(Err(no())),
            ],
            "sealing: x",
        ),
        (
            vec![
                SealTold::Value(Ok(false)),
                SealTold::Loaded(Ok(stored(&["new", "prod"]))),
                SealTold::Pairing(Ok(Some(true))),
                SealTold::Share(Ok(true)),
                SealTold::Sealed(Ok(record("prod"))),
                SealTold::Saved(Err(no())),
            ],
            "saving the threshold store: x",
        ),
    ];
    for (told, want) in cases {
        let mut armed = SealedStore { secrets: vec![record("old")] };
        let (reply, log, _) = seal(&mut armed, told);
        assert!(!said_ok(&reply));
        assert_eq!(lines(&reply), want);
        assert!(log.is_none());
        assert!(armed.get("old").is_some() && armed.secrets.len() == 1);
    }
}

#[test]
fn the_keystore_streams_and_unwrap_reports_are_app_only() {
    let mut reqs = UnwrapRequests::new();
    match handle_unwrap_done(&mut reqs, Err("unsigned".into()), "made-up", true, "") {
        UnwrapStep::Answer(a) => {
            assert!(!said_ok(&a.reply));
            assert!(lines(&a.reply).contains("signed Sigil app"));
        }
        UnwrapStep::ClearMarker => panic!("nothing but the app clears it"),
    }
    let no = stream_keystore(Err("unsigned".into())).unwrap();
    assert!(!said_ok(&no.reply));
    assert_eq!(no.log.unwrap(), "sigil daemon: keystore subscription REFUSED; unsigned");
    assert!(stream_keystore(Ok(())).is_none());
}

#[test]
fn an_unwrap_request_against_a_plain_store_is_a_no_op() {
    let mut reqs = UnwrapRequests::new();
    let reply = handle_unwrap_request(&vault(SealState::Plain, false), &mut reqs).err().unwrap();
    assert!(!said_ok(&reply));
    assert!(lines(&reply).contains("not sealed"));
    assert!(reqs.pending_events().is_empty());
}

#[test]
fn an_unwrap_answer_must_quote_an_outstanding_nonce() {
    let mut reqs = UnwrapRequests::new();
    assert!(!reqs.resolve("never-issued", true, ""));
    let nonce = reqs.request();
    assert_eq!(reqs.pending_events().len(), 1);
    assert_eq!(reqs.pending_events()[0].kind, "unwrap");
    assert_eq!(reqs.pending_events()[0].nonce, nonce);
    assert!(reqs.resolve(&nonce, true, ""));
    assert!(!reqs.resolve(&nonce, true, ""), "an answered request cannot be answered twice");
    assert!(reqs.pending_events().is_empty());
    assert_eq!(
        reqs.wait_for(&nonce, false),
        Waiting::Answered { ok: true, reason: String::new() }
    );
}

#[test]
fn a_nonce_is_never_given_twice() {
    let mut reqs = UnwrapRequests::new();
    let a = reqs.request();
    let b = reqs.request();
    assert_ne!(a, b);
    assert_eq!(a.len(), 36);
    assert_eq!(a.as_bytes()[14], b'7', "a time-ordered id");
    assert!(reqs.resolve(&b, false, "no touch"));
    assert_eq!(reqs.pending_events().len(), 1);
    assert_eq!(reqs.wait_for(&a, false), Waiting::Wait);
    assert_eq!(reqs.wait_for(&a, true), Waiting::TimedOut);
    let seen = reqs.version();
    assert!(reqs.wait_for_change(seen), "nothing has changed yet");
    reqs.request_as("n");
    assert!(!reqs.wait_for_change(seen));
}

#[test]
fn an_unwrap_runs_from_the_request_to_the_cleared_marker() {
    let mut reqs = UnwrapRequests::new();
    let raised = handle_unwrap_request(&vault(sealed_to(MATERIAL), true), &mut reqs).ok().unwrap();
    assert_eq!(raised.log, "sigil daemon: de-adoption requested; waiting for the Sigil app");
    let nonce = raised.nonce;
    assert!(matches!(
        handle_unwrap_done(&mut reqs, Ok(()), &nonce, true, ""),
        UnwrapStep::ClearMarker
    ));
    let (reply, log) = unwrap_cleared(Ok(()));
    assert_eq!(lines(&reply), "de-adopted");
    assert_eq!(log, Some(DE_ADOPTED));
    let (failed, none) = unwrap_cleared(Err("ro".into()));
    assert_eq!(lines(&failed), "could not clear the adoption marker: ro");
    assert!(none.is_none());
    assert!(said_ok(&unwrap_outcome(&mut reqs, &nonce, Some((true, String::new())))));

    let late = handle_unwrap_request(&vault(sealed_to(MATERIAL), true), &mut reqs);
    let late = late.ok().unwrap().nonce;
    let reply = unwrap_outcome(&mut reqs, &late, None);
    assert!(lines(&reply).contains("did not answer"));
    match handle_unwrap_done(&mut reqs, Ok(()), &late, true, "") {
        UnwrapStep::Answer(a) => assert!(lines(&a.reply).contains("is outstanding")),
        UnwrapStep::ClearMarker => panic!("a late answer clears nothing"),
    }
    reqs.request_as("n");
    match handle_unwrap_done(&mut reqs, Ok(()), "n", false, "no touch") {
        UnwrapStep::Answer(a) => {
            assert_eq!(lines(&a.reply), "recorded");
            assert_eq!(
                a.log.unwrap(),
                "sigil daemon: the app could not unwrap the keystore: no touch"
            );
        }
        UnwrapStep::ClearMarker => panic!(),
    }
}

#[test]
fn an_unreadable_keystore_file_is_no_way_past_an_adoption() {
    let marker = AdoptionMarker { se_pub: b"spki".to_vec(), adopted_at_ms: 1 };
    let (state, line) = read_seal_state(Err(SealError::Digest), Some(&marker));
    assert!(state.blocks_serving(true));
    assert!(line.is_some());
    let (plain, quiet) = read_seal_state(Ok(KeystoreFile::Absent), None);
    assert_eq!(plain, SealState::Plain);
    assert!(quiet.is_none());
}

#[test]
fn build_gate_selects_the_phone_approver_from_a_persisted_config() {
    let cfg = RemotePairingConfig {
        relay_url: "ws://127.0.0.1:1".into(),
        direct_endpoint: None,
    };
    assert_eq!(
        resolve(&ArmInputs { dev_insecure: true, phone_paired: true, biometric: true }),
        Factor::Phone
    );
    let told = [DeviceTold { relay: Ok(()), bound: Ok(()) }];
    let plan = build_gate(Factor::Phone, &[cfg], &told).ok().unwrap();
    assert_eq!(plan.approver, ApproverKind::Phone);
    assert_eq!(
        plan.direct.len(),
        1,
        "the single-device phone factor hands back exactly one listener handle"
    );
    assert_eq!(plan.direct, vec![false]);
}

#[test]
fn several_phones_ring_and_a_lost_endpoint_falls_back() {
    let cfg = |d: Option<&str>| RemotePairingConfig {
        relay_url: "wss://r".into(),
        direct_endpoint: d.map(|s| s.to_string()),
    };
    let told = |bound: Result<(), String>| DeviceTold { relay: Ok(()), bound };
    let plan = build_gate(
        Factor::Phone,
        &[cfg(Some("10.0.0.1:1")), cfg(Some("10.0.0.2:2")), cfg(None)],
        &[told(Err("in use".into())), told(Ok(())), told(Ok(()))],
    )
    .ok()
    .unwrap();
    assert_eq!(plan.approver, ApproverKind::Ring);
    assert_eq!(plan.direct, vec![false, true, false]);
    assert_eq!(
        plan.lines,
        vec!["sigil daemon: direct endpoint 10.0.0.1:1 unavailable (in use); serving this device over the relay only".to_string()]
    );
    let dead = || DeviceTold { relay: Err("refused".into()), bound: Ok(()) };
    let fault =
        build_gate(Factor::Phone, &[cfg(None), cfg(None)], &[told(Ok(())), dead()]).err().unwrap();
    assert_eq!(fault.message, "reaching relay wss://r: refused");
    assert!(fault.lines.is_empty());
    let late = build_gate(
        Factor::Phone,
        &[cfg(Some("10.0.0.1:1")), cfg(Some("10.0.0.2:2")), cfg(None)],
        &[told(Err("in use".into())), dead()],
    )
    .err()
    .unwrap();
    assert_eq!(late.message, "reaching relay wss://r: refused");
    assert_eq!(
        late.lines,
        vec!["sigil daemon: direct endpoint 10.0.0.1:1 unavailable (in use); serving this device over the relay only".to_string()],
        "what was said before the relay failed is not lost"
    );
    let local = |f| build_gate(f, &[], &[]).ok().unwrap().approver;
    assert_eq!(local(Factor::Biometric), ApproverKind::Local { dev: false });
    assert_eq!(local(Factor::DevInsecure), ApproverKind::Local { dev: true });
    assert_eq!(local(Factor::NoFactor), ApproverKind::Deny);
}

#[test]
fn a_peer_that_hung_up_before_serving_reads_as_a_dead_peer() {
    assert!(is_dead_peer(Some(libc::EINVAL)));
    assert!(!is_dead_peer(Some(libc::EPIPE)));
    assert!(!is_dead_peer(None));
}

#[test]
fn a_live_peer_readies_cleanly_and_a_dead_peer_storm_does_not_starve_it() {
    let mut gate = ConnGate::new();
    for _ in 0..50 {
        assert!(matches!(accept(&mut gate, Socket::Control, Accepted::Opened), AcceptNext::Ready));
        let dropped = readied(&mut gate, Socket::Control, Err((Some(libc::EINVAL), "x".into())));
        assert!(matches!(dropped, Some(AcceptNext::Drop { log: None })));
    }
    assert!(matches!(accept(&mut gate, Socket::Control, Accepted::Opened), AcceptNext::Ready));
    assert!(readied(&mut gate, Socket::Control, Ok(())).is_none());
}

#[test]
fn a_full_or_failed_socket_is_logged_and_survived() {
    let mut gate = ConnGate::new();
    match accept(&mut gate, Socket::Ssh, Accepted::Failed("emfile".into())) {
        AcceptNext::Rest { log } => assert_eq!(log, "sigil daemon: ssh accept error: emfile"),
        _ => panic!(),
    }
    for _ in 0..32 {
        assert!(matches!(accept(&mut gate, Socket::Ssh, Accepted::Opened), AcceptNext::Ready));
    }
    match accept(&mut gate, Socket::Control, Accepted::Opened) {
        AcceptNext::Drop { log } => assert_eq!(
            log.unwrap(),
            "sigil daemon: refusing a control connection: at the concurrency cap (32)"
        ),
        _ => panic!(),
    }
    match readied(&mut gate, Socket::Ssh, Err((Some(libc::EPIPE), "broken".into()))) {
        Some(AcceptNext::Drop { log }) => assert_eq!(
            log.unwrap(),
            "sigil daemon: dropping an ssh-agent connection: broken"
        ),
        _ => panic!(),
    }
    assert!(matches!(accept(&mut gate, Socket::Control, Accepted::Opened), AcceptNext::Ready));
}

#[test]
fn the_daemon_says_what_it_serves() {
    assert_eq!(
        armed_line(b"/run/s.sock", 3, Factor::Phone.label()),
        "sigil daemon: armed on /run/s.sock \u{b7} 3 sealed secret(s) \u{b7} factor: paired phone (sealed remote approval)"
    );
    assert_eq!(
        agent_line(b"/run/a.sock", 2),
        "sigil daemon: ssh-agent on /run/a.sock \u{b7} 2 key(s) served \u{b7} export SSH_AUTH_SOCK=/run/a.sock"
    );
}

fn sign_request() -> SignRequest {
    SignRequest {
        id: "id".into(),
        label: "GitHub".into(),
        host: "github.com".into(),
        binding: "bound".into(),
        fingerprint: "SHA256:x".into(),
    }
}

#[test]
fn ssh_file_signer_denied_gate_yields_no_signature() {
    let open = vault(SealState::Plain, false);
    let nobody = Caller { chain: Vec::new() };
    match approve_and_sign(&open, true, None, &sign_request(), &nobody) {
        SignPlan::Ask { context, .. } => {
            assert_eq!(context.command, vec!["ssh-sign".to_string(), "GitHub".to_string()]);
            assert_eq!(context.kind, RequestKind::SshSignature);
            assert_eq!(context.lease, LeasePolicy::RunOnce);
            assert_eq!(context.ssh.unwrap().host, "github.com");
            assert!(context.threshold.is_none());
        }
        SignPlan::Refuse(_) => panic!("a served key is asked for"),
    }
    assert_eq!(sign_decided(Decision::Deny, false, false), SignNext::Refuse(None));
    assert_eq!(sign_decided(Decision::Deny, true, true), SignNext::Refuse(None));
}

#[test]
fn a_signature_is_made_only_from_a_key_that_is_served() {
    let nobody = Caller { chain: Vec::new() };
    let open = vault(SealState::Plain, false);
    assert!(matches!(
        approve_and_sign(&open, false, None, &sign_request(), &nobody),
        SignPlan::Refuse(None)
    ));
    let shut = vault(SealState::Downgraded, true);
    match approve_and_sign(&shut, true, None, &sign_request(), &nobody) {
        SignPlan::Refuse(Some(log)) => assert!(log.starts_with("sigil daemon: ssh sign refused; ")),
        _ => panic!(),
    }
    assert_eq!(sign_decided(Decision::Approve, false, false), SignNext::SignFile);
    assert_eq!(sign_decided(Decision::Approve, true, true), SignNext::OpenStored);
    assert_eq!(sign_decided(Decision::Approve, false, true), SignNext::Refuse(Some(NO_PARTIAL)));
    assert!(sign_stored(KeyOpening::Opened).is_none());
    assert_eq!(
        sign_stored(KeyOpening::ShareMissing).unwrap(),
        "sigil daemon: ssh sign refused; no Mac threshold share (re-pair)"
    );
    assert_eq!(
        sign_stored(KeyOpening::ShareFailed("locked".into())).unwrap(),
        "sigil daemon: ssh sign refused; locked"
    );
    assert_eq!(
        sign_stored(KeyOpening::DecryptFailed("tag".into())).unwrap(),
        "sigil daemon: ssh sign refused; stored key decrypt failed: tag"
    );
}

#[test]
fn stored_ssh_key_is_advertised_from_the_config() {
    let key = |blob: &[u8], id: &str| StoredKey {
        key_blob: blob.to_vec(),
        label: "l".into(),
        account_id: id.into(),
    };
    let keys = [key(b"one", "a"), key(b"two", "b"), key(b"two", "c")];
    let store = SealedStore { secrets: vec![record("b"), record("c")] };
    assert_eq!(stored_record_for(&keys, Some(&store), b"two").unwrap().account_id, "b");
    assert!(stored_record_for(&keys, Some(&store), b"one").is_none());
    assert!(stored_record_for(&keys, Some(&store), b"three").is_none());
    assert!(stored_record_for(&keys, None, b"two").is_none());
    let file = ServedIdentity { key_blob: b"file".to_vec(), label: "f".into() };
    let served = identities(vec![file.clone()], &keys);
    assert_eq!(served.len(), 4);
    assert_eq!(served[0], file);
    assert_eq!(served[3], ServedIdentity { key_blob: b"two".to_vec(), label: "l".into() });
}

fn readout(id: &str, lease: LeasePolicy) -> Readout {
    Readout {
        id: id.into(),
        kind: RequestKind::SecretRead,
        command: vec!["op".into()],
        secrets: Vec::new(),
        ssh: None,
        process_chain: Vec::new(),
        cwd: "/w".into(),
        machine: "m".into(),
        lease,
        reason: Some("why".into()),
    }
}

#[test]
fn a_request_that_rings_every_phone_is_shown_once() {
    let remote = |id: &str, queued: u64, delivered: Option<u64>| RemotePending {
        readout: readout(id, LeasePolicy::leasable(900)),
        queued_at_ms: queued,
        expires_at_ms: queued + 60_000,
        timeout_ms: 60_000,
        delivered_at_ms: delivered,
    };
    let local = LocalPending {
        readout: readout("local", LeasePolicy::RunOnce),
        queued_at_ms: 5,
        timeout_ms: 60_000,
    };
    let rows = pending_json(
        vec![local],
        vec![remote("a", 10, None), remote("b", 30, None), remote("a", 8, Some(12))],
    );
    let ids: Vec<&str> = rows.iter().map(|r| r.readout.id.as_str()).collect();
    assert_eq!(ids, vec!["local", "b", "a"], "the local one first, then the youngest");
    assert_eq!(rows[0].expires_ms, 60_005);
    assert!(!rows[0].leasable && rows[0].max_lease_secs.is_none() && !rows[0].delivered);
    assert!(rows[0].readout.reason.is_none());
    let a = &rows[2];
    assert_eq!(a.requested_ms, 8);
    assert!(a.delivered && a.delivered_at_ms == Some(12));
    assert!(a.leasable && a.max_lease_secs == Some(900));
    assert_eq!(a.readout.reason.as_deref(), Some("why"));
}

#[test]
fn a_row_has_the_times_that_a_phone_has() {
    let remote = |queued: u64, delivered: Option<u64>| RemotePending {
        readout: readout("a", LeasePolicy::RunOnce),
        queued_at_ms: queued,
        expires_at_ms: queued + 60_000,
        timeout_ms: 60_000,
        delivered_at_ms: delivered,
    };
    let rows = pending_json(Vec::new(), vec![remote(9, None), remote(7, None), remote(8, None)]);
    assert_eq!(rows.len(), 1);
    assert_eq!(rows[0].requested_ms, 7);
    assert!(!rows[0].delivered && rows[0].delivered_at_ms.is_none());
    let rows = pending_json(
        Vec::new(),
        vec![remote(9, None), remote(7, Some(20)), remote(8, Some(11))],
    );
    assert!(rows[0].delivered && rows[0].delivered_at_ms == Some(20));
}

#[test]
fn a_request_is_logged_with_its_origin() {
    let argv: Vec<String> = ["op", "read", "x"].iter().map(|s| s.to_string()).collect();
    assert_eq!(scope_of(&argv), "read x");
    assert_eq!(
        request_line(17, &argv, "/w", Some(4)),
        "sigil daemon: [17] op read x \u{b7} cwd /w \u{b7} pid 4"
    );
    assert_eq!(
        request_line(17, &argv, "/w", None),
        "sigil daemon: [17] op read x \u{b7} cwd /w \u{b7} pid ?"
    );
    assert_eq!(
        ssh_request_line(17, "GitHub", "github.com", "SHA256:x", Some(4)),
        "sigil daemon: [17] ssh-sign GitHub \u{b7} host github.com \u{b7} data SHA256:x \u{b7} pid 4"
    );
}

#[test]
fn ssh_signers_hot_reload_when_the_key_store_changes() {
    let mut w = Watcher { config: Some(1), ssh: Some(None), sealed: None };
    let none = Reloads { config: false, ssh: false, sealed: false };
    assert_eq!(w.tick(Some(1), None, Some(9)), none, "a file without a path is not watched");
    assert_eq!(w.tick(Some(1), Some(5), None), Reloads { ssh: true, ..none });
    assert_eq!(w.tick(Some(1), Some(5), None), none);
    assert_eq!(w.tick(None, None, None), Reloads { config: true, ssh: true, sealed: false });
    assert_eq!(
        reload_line(Watched::Ssh, b"/h/ssh-keys.json", Ok(2)),
        "sigil daemon: reloaded SSH keys from /h/ssh-keys.json"
    );
    assert_eq!(
        reload_line(Watched::Sealed, b"/h/t.json", Ok(2)),
        "sigil daemon: reloaded the sealed store from /h/t.json (2 sealed secret(s))"
    );
    assert_eq!(
        reload_line(Watched::Config, b"/h/c.json", Err("eof".into())),
        "sigil daemon: config reload failed, keeping last-good rules: eof"
    );
}
