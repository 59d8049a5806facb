//! Requests carried through from the rule to the run.
use sigil::clock::Span;
use sigil::config::{
    Action, Config, Match, PlainVars, Rule, RuleMode, Source, ENV_PROVIDER, OP_PROVIDER,
};
use sigil::daemon::conns::{ConnGate, MAX_CONCURRENT_CONNS};
use sigil::daemon::env::{env_keys_match, leased_env};
use sigil::daemon::fulfil::{Decision, Next, Opening, Told};
use sigil::daemon::notices::{DegradedNotices, ShadowNotices};
use sigil::daemon::plan::Provider;
use sigil::daemon::reload::invalidate_leases_at;
use sigil::daemon::reply::Reply;
use sigil::daemon::request::{ApprovalContext, AuditEntry, RequestKind, RunPlan, SecretRef};
use sigil::daemon::sealed::{SealedRecord, SealedStore};
use sigil::daemon::ssh::ssh_sign_scope;
use sigil::daemon::state::{
    leases_json, resolved_reply, Begun, Frame, Handled, Loaded, DEFAULT_LEASE_TTL_SECS,
};
use sigil::daemon::Core;
use sigil::factor::Factor;
use sigil::keystore_seal::SealState;
use sigil::lease::store::LeaseBinding;
use sigil::lease::{grant_key, walk_ancestry, Ancestor, Caller, CodeIdentity, ProcessTable, ScopeKind};
use sigil::policy::LeasePolicy;
use sigil::secrets::Token;

/// A process table that knows nobody.
struct EmptyTable;

impl ProcessTable for EmptyTable {
    fn parent(&self, _pid: i32) -> Option<i32> {
        None
    }

    fn resolve(&self, _pid: i32) -> Option<(Vec<u8>, CodeIdentity)> {
        None
    }
}

fn av(parts: &[&str]) -> Vec<String> {
    parts.iter().map(|s| s.to_string()).collect()
}

fn a_caller() -> Caller {
    Caller {
        chain: vec![Ancestor {
            pid: 7,
            exe: b"/bin/zsh".to_vec(),
            identity: CodeIdentity::content([1u8; 32]),
        }],
    }
}

fn source(name: &str, provider: &str, path: Option<&str>, keys: &[&str]) -> Source {
    Source {
        name: name.into(),
        provider: provider.into(),
        account: None,
        path: path.map(|p| p.to_string()),
        keys: av(keys),
        plain: PlainVars::new(),
    }
}

fn rule(name: &str, match_: Match, source: &str, lease: LeasePolicy) -> Rule {
    Rule {
        name: name.into(),
        match_,
        action: Action { mode: RuleMode::Gate, source: source.into(), lease, timeout_sec: None },
    }
}

fn command(name: &str) -> Match {
    Match { command: Some(name.into()), ..Match::default() }
}

fn op_config_with_lease(lease: LeasePolicy) -> Config {
    let mut cfg = Config::default();
    cfg.add_source(source("op", OP_PROVIDER, None, &[])).unwrap();
    cfg.add_rule(rule("op", command("op"), "op", lease)).unwrap();
    cfg
}

fn op_config() -> Config {
    op_config_with_lease(LeasePolicy::leasable(900))
}

fn two_op_rules() -> Config {
    let mut cfg = Config::default();
    cfg.add_source(source("op", OP_PROVIDER, None, &[])).unwrap();
    for sub in ["read", "item"] {
        let m = Match {
            command: Some("op".into()),
            subcommand: Some(sub.into()),
            ..Match::default()
        };
        cfg.add_rule(rule(&format!("op-{sub}"), m, "op", LeasePolicy::leasable(900))).unwrap();
    }
    cfg
}

fn env_config(keys: &[&str], lease: LeasePolicy) -> Config {
    let mut cfg = Config::default();
    cfg.add_source(source("faketool", ENV_PROVIDER, None, keys)).unwrap();
    cfg.add_rule(rule("faketool", command("faketool"), "faketool", lease)).unwrap();
    cfg
}

fn env_file_config(cmd: &str, path: &str) -> Config {
    let mut cfg = Config::default();
    cfg.add_source(source(cmd, "env-file", Some(path), &[])).unwrap();
    cfg.add_rule(rule(cmd, command(cmd), cmd, LeasePolicy::RunOnce)).unwrap();
    cfg
}

fn provider(id: &str, needs_sealed_env: bool) -> Provider {
    Provider { id: id.into(), needs_sealed_env }
}

fn record(id: &str, point: &str) -> SealedRecord {
    SealedRecord {
        account_id: id.into(),
        ephemeral_pub: point.into(),
        se_key_id: "se-1".into(),
        ecdh_algo: "x963".into(),
    }
}

fn loaded(config: Config) -> Loaded {
    Loaded {
        dev_insecure: true,
        stranded: None,
        seal: SealState::Plain,
        sealed: Ok(SealedStore::new()),
        pairings: Ok(Vec::new()),
        biometric: false,
        ssh_fault: None,
        config: Ok(config),
        retention_days: None,
        providers: vec![
            provider(OP_PROVIDER, false),
            provider("env-file", false),
            provider(ENV_PROVIDER, true),
        ],
        max_depth: 16,
    }
}

fn core_with(config: Config) -> Core {
    Core::for_host(loaded(config)).0
}

fn sealed_env_core(lease: LeasePolicy) -> Core {
    let mut core = core_with(env_config(&["TOKEN"], lease));
    core.sealed = SealedStore { secrets: vec![record("faketool", "E1")] };
    core
}

/// An approver that counts how often it is asked.
struct Approver {
    calls: usize,
    decision: Decision,
    partial: bool,
    seen: Option<ApprovalContext>,
    values: Vec<(String, String)>,
}

fn approver(decision: Decision) -> Approver {
    Approver { calls: 0, decision, partial: false, seen: None, values: Vec::new() }
}

fn leasing() -> Approver {
    approver(Decision::Lease(Span::from_secs(60)))
}

fn phone() -> Approver {
    Approver {
        calls: 0,
        decision: Decision::Lease(Span::from_secs(60)),
        partial: true,
        seen: None,
        values: vec![("TOKEN".into(), "sealed-value-42".into())],
    }
}

fn secret(pairs: &[(String, String)]) -> Vec<(String, Token)> {
    pairs.iter().map(|(k, v)| (k.clone(), Token::new(v.as_bytes().to_vec()))).collect()
}

/// What a run injects, as texts.
fn injected(env: &Option<Vec<(String, Token)>>) -> Option<Vec<(String, String)>> {
    env.as_ref().map(|pairs| {
        pairs
            .iter()
            .map(|(k, v)| (k.clone(), String::from_utf8(v.as_slice().to_vec()).unwrap()))
            .collect()
    })
}

fn encode(pairs: &[(String, String)]) -> Token {
    let lines: Vec<String> = pairs.iter().map(|(k, v)| format!("{k}={v}")).collect();
    Token::new(lines.join("\n").into_bytes())
}

fn decode(token: &Token) -> Option<Vec<(String, Token)>> {
    let text = String::from_utf8(token.as_slice().to_vec()).ok()?;
    text.split('\n')
        .map(|l| l.split_once('=').map(|(k, v)| (k.to_string(), Token::new(v.as_bytes().to_vec()))))
        .collect()
}

type Ran = Result<(RunPlan, AuditEntry), (String, Option<AuditEntry>)>;

fn run_as(core: &mut Core, who: &Caller, argv: &[&str], cwd: &str, depth: u32, a: &mut Approver) -> Ran {
    let via = core.grant_via();
    let mut f = match core.fulfil(&av(argv), cwd, depth, who) {
        Begun::Refuse(m) => return Err((m, None)),
        Begun::Run { run, audit } => return Ok((run, audit)),
        Begun::Gated(f) => f,
    };
    let mut told = Told::Described { refs: Vec::new(), kind: RequestKind::SecretRead };
    loop {
        let (next, _) = f.tell(&mut core.leases, via, told);
        told = match next {
            Next::Refuse { message, audit } => return Err((message, audit)),
            Next::Run { run, audit } => return Ok((run, audit)),
            Next::Decode(t) => Told::Decoded(decode(&t)),
            Next::Approve { coalesce, context } => {
                assert_eq!(coalesce, f.gate.coalesce);
                a.calls += 1;
                a.seen = Some(context);
                Told::Decided { decision: a.decision, partial: a.partial }
            }
            Next::Open(_) => Told::Opened(Opening::Values {
                pairs: secret(&a.values),
                plain: encode(&a.values),
            }),
        };
    }
}

fn run(core: &mut Core, argv: &[&str], cwd: &str, a: &mut Approver) -> Ran {
    run_as(core, &a_caller(), argv, cwd, 0, a)
}

#[test]
fn run_frame_with_wrong_fd_count_is_refused() {
    let mut core = core_with(op_config());
    let frame = || Frame::Run {
        argv: av(&["op", "read", "op://Engineering/.env/password"]),
        cwd: String::new(),
        proxy_depth: 0,
    };
    match core.handle_conn(frame(), 2) {
        Handled::Answer { reply, log } => {
            assert_eq!(reply, Reply::Exit { code: 1 });
            assert_eq!(
                log.unwrap(),
                "sigil daemon: refusing a Run frame carrying 2 descriptor(s); expected 3 (stdin, stdout, stderr)"
            );
        }
        _ => panic!("a short count must fail closed"),
    }
    assert!(matches!(core.handle_conn(frame(), 3), Handled::Fulfil { .. }));
    assert!(matches!(core.handle_conn(frame(), 4), Handled::Answer { .. }));
}

#[test]
fn approved_request_is_recorded_in_the_audit_log() {
    let mut core = core_with(op_config());
    let mut a = approver(Decision::Approve);
    let (_, audit) = run(&mut core, &["op", "read", "op://Engineering/.env/password"], "", &mut a).unwrap();
    assert_eq!(audit.decision, "approved");
    assert_eq!(audit.account, "");
    assert_eq!(audit.via, "dev");
    assert_eq!(audit.kind, RequestKind::SecretRead);
    assert_eq!(audit.label, "read op://Engineering/.env/password");
    assert_eq!(audit.process, "zsh");
}

#[test]
fn control_approve_for_an_unknown_id_is_refused() {
    let mut core = core_with(op_config());
    let frame = Frame::Approve { id: "not-a-real-id".into(), lease: false };
    match core.handle_conn(frame, 0) {
        Handled::Resolve { id, decision } => {
            assert_eq!(id, "not-a-real-id");
            assert_eq!(decision, Decision::Approve);
            assert_eq!(
                resolved_reply(decision, false),
                Reply::Control { ok: false, lines: av(&["no pending request with that id"]) }
            );
            assert_eq!(
                resolved_reply(decision, true),
                Reply::Control { ok: true, lines: av(&["approval delivered"]) }
            );
        }
        _ => panic!("an approval is handed to the pending request"),
    }
    let lease = Frame::Approve { id: "x".into(), lease: true };
    match core.handle_conn(lease, 0) {
        Handled::Resolve { decision, .. } => {
            assert_eq!(decision, Decision::Lease(Span::from_secs(DEFAULT_LEASE_TTL_SECS)));
        }
        _ => panic!(),
    }
    match core.handle_conn(Frame::Deny { id: "x".into() }, 0) {
        Handled::Resolve { decision, .. } => assert_eq!(
            resolved_reply(decision, true),
            Reply::Control { ok: true, lines: av(&["deny delivered"]) }
        ),
        _ => panic!(),
    }
}

#[test]
fn every_other_frame_is_handed_on() {
    let mut core = core_with(op_config());
    assert!(matches!(core.handle_conn(Frame::Status, 0), Handled::Status));
    assert!(matches!(core.handle_conn(Frame::Doctor, 0), Handled::Doctor));
    assert!(matches!(core.handle_conn(Frame::LeaseList, 0), Handled::LeaseList));
    assert!(matches!(core.handle_conn(Frame::Pending, 0), Handled::Pending));
    assert!(matches!(core.handle_conn(Frame::History, 0), Handled::History));
    assert!(matches!(core.handle_conn(Frame::KeystoreUnwrapRequest, 0), Handled::UnwrapRequest));
    assert!(matches!(core.handle_conn(Frame::SubscribePending, 0), Handled::StreamPending));
    assert!(matches!(core.handle_conn(Frame::SubscribeKeystore, 0), Handled::StreamKeystore));
    assert!(matches!(
        core.handle_conn(Frame::KeystoreProvision { len: 9 }, 0),
        Handled::Provision { len: 9 }
    ));
    match core.handle_conn(Frame::SealThreshold { id: "s".into(), len: 3 }, 0) {
        Handled::Seal { id, len } => assert_eq!((id.as_str(), len), ("s", 3)),
        _ => panic!(),
    }
    let done = Frame::KeystoreUnwrapDone { nonce: "n".into(), ok: true, reason: "r".into() };
    match core.handle_conn(done, 0) {
        Handled::UnwrapDone { nonce, ok, reason } => {
            assert_eq!((nonce.as_str(), ok, reason.as_str()), ("n", true, "r"));
        }
        _ => panic!(),
    }
}

#[test]
fn a_lease_covers_any_command_the_same_rule_matches() {
    let mut core = core_with(op_config());
    let mut a = leasing();
    run(&mut core, &["op", "read", "op://Engineering/.env"], "", &mut a).unwrap();
    assert_eq!(a.calls, 1, "the first run is approved");
    assert_eq!(core.leases.active(), 1);
    run(&mut core, &["op", "item", "get", "Deploy"], "", &mut a).unwrap();
    assert_eq!(a.calls, 1, "a different command under the same rule must ride the live lease");
    assert_eq!(core.leases.active(), 1, "and must not open a second lease");
}

#[test]
fn a_lease_survives_a_change_of_directory() {
    let mut core = core_with(op_config());
    let mut a = leasing();
    let argv = ["op", "read", "op://Engineering/.env"];
    run(&mut core, &argv, "/tmp/one", &mut a).unwrap();
    assert_eq!(a.calls, 1);
    run(&mut core, &argv, "/tmp/two", &mut a).unwrap();
    assert_eq!(a.calls, 1, "the same rule from another directory must ride the live lease");
}

#[test]
fn a_lease_on_one_rule_does_not_cover_another_rule() {
    let mut core = core_with(two_op_rules());
    let mut a = leasing();
    run(&mut core, &["op", "read", "op://Engineering/.env"], "", &mut a).unwrap();
    assert_eq!(a.calls, 1);
    run(&mut core, &["op", "item", "get", "Deploy"], "", &mut a).unwrap();
    assert_eq!(a.calls, 2, "the other rule must be approved on its own");
    assert_eq!(core.leases.active(), 2, "each rule holds its own lease");
    let mut scopes: Vec<String> = core.leases.list().into_iter().map(|l| l.scope).collect();
    scopes.sort();
    assert_eq!(scopes, vec!["op-item".to_string(), "op-read".to_string()]);
}

#[test]
fn a_leased_run_audits_the_command_it_actually_ran() {
    let mut core = core_with(op_config());
    let mut a = leasing();
    let (_, first) = run(&mut core, &["op", "read", "op://Engineering/first"], "", &mut a).unwrap();
    let (_, second) = run(&mut core, &["op", "read", "op://Engineering/second"], "", &mut a).unwrap();
    assert_eq!(a.calls, 1, "the second run rode the lease");
    assert!(first.label.contains("first") && second.label.contains("second"));
    assert_eq!(second.via, "lease");
}

#[test]
fn lease_decision_covers_the_next_identical_request() {
    let mut core = core_with(op_config());
    let mut a = leasing();
    let argv = ["op", "read", "op://Engineering/.env"];
    run(&mut core, &argv, "", &mut a).unwrap();
    assert_eq!(core.leases.active(), 1);
    run(&mut core, &argv, "", &mut a).unwrap();
    assert_eq!(a.calls, 1);
}

#[test]
fn run_once_rule_never_leases_even_when_a_lease_is_returned() {
    let mut core = core_with(op_config_with_lease(LeasePolicy::RunOnce));
    let mut a = leasing();
    run(&mut core, &["op", "read", "op://Engineering/.env"], "", &mut a).unwrap();
    assert_eq!(
        core.leases.active(),
        0,
        "a run-once rule must refuse a lease the approver tried to install"
    );
}

#[test]
fn leasable_rule_clamps_an_over_cap_lease_to_the_rule_max() {
    let mut core = core_with(op_config_with_lease(LeasePolicy::leasable(5)));
    let mut a = leasing();
    run(&mut core, &["op", "read", "op://Engineering/.env"], "", &mut a).unwrap();
    assert_eq!(core.leases.active(), 1, "a leasable rule grants the lease");
    let leases = core.leases.list();
    assert_eq!(leases.len(), 1);
    assert!(leases[0].remaining <= Span::from_secs(5));
    assert_eq!(leases[0].covers, "op");
}

#[test]
fn allow_rule_runs_the_command_directly_without_gating() {
    let mut cfg = Config::default();
    cfg.add_rule(Rule {
        name: "allow-true".into(),
        match_: command("true"),
        action: Action {
            mode: RuleMode::Allow,
            source: String::new(),
            lease: LeasePolicy::RunOnce,
            timeout_sec: None,
        },
    })
    .unwrap();
    let mut core = core_with(cfg);
    let mut a = approver(Decision::Deny);
    let (plan, audit) = run(&mut core, &["true"], "", &mut a).unwrap();
    assert!(plan.passthrough && plan.env.is_none() && plan.plain.is_empty());
    assert_eq!(plan.command, av(&["true"]));
    assert_eq!(plan.depth, 1);
    assert_eq!(core.leases.active(), 0, "an allow rule never leases");
    assert_eq!(a.calls, 0, "an allow rule never gates");
    assert_eq!(audit.decision, "allowed");
    assert_eq!(audit.via, "allow:allow-true");
    assert_eq!(audit.label, "true");
}

#[test]
fn denied_request_fails_closed_and_delivers_no_secret() {
    let mut core = core_with(op_config());
    let mut a = approver(Decision::Deny);
    let (message, audit) =
        run(&mut core, &["op", "read", "op://Engineering/x"], "/p", &mut a).err().unwrap();
    assert!(message.contains("denied"));
    assert_eq!(message, "request denied\n");
    let audit = audit.unwrap();
    assert_eq!((audit.decision.as_str(), audit.via.as_str()), ("denied", ""));
    assert_eq!(core.leases.active(), 0);
}

#[test]
fn unconfigured_command_is_refused_with_a_config_hint() {
    let mut core = core_with(op_config());
    let mut a = approver(Decision::Approve);
    let (err, _) =
        run(&mut core, &["gcloud", "auth", "print-access-token"], "", &mut a).err().unwrap();
    assert!(err.contains("not configured"), "err: {err}");
    assert!(err.contains("sigil-config add gcloud"), "err: {err}");
    assert_eq!(a.calls, 0);
    let (empty, _) = run(&mut core, &[], "", &mut a).err().unwrap();
    assert_eq!(empty, "sigil: empty command\n");
}

#[test]
fn a_rule_with_an_unknown_provider_is_refused() {
    let mut cfg = Config::default();
    cfg.add_source(source("s", "vault", None, &[])).unwrap();
    cfg.add_rule(rule("r", command("tool"), "s", LeasePolicy::RunOnce)).unwrap();
    let mut core = core_with(cfg);
    let mut a = approver(Decision::Approve);
    let (err, _) = run(&mut core, &["tool"], "", &mut a).err().unwrap();
    assert_eq!(err, "sigil: rule 'r' names an unknown provider 'vault'\n");
}

#[test]
fn env_file_command_runs_gated_and_injects_env() {
    let mut core = core_with(env_file_config("faketool", "/x/s.env"));
    let mut a = approver(Decision::Approve);
    let (plan, _) = run(&mut core, &["faketool"], "", &mut a).unwrap();
    assert_eq!(a.calls, 1);
    assert!(!plan.passthrough);
    assert_eq!(plan.provider, "env-file");
    assert_eq!(plan.source, "/x/s.env");
}

#[test]
fn env_file_lease_decision_grants_no_lease() {
    let mut core = core_with(env_file_config("faketool", "/x/s.env"));
    let mut a = leasing();
    run(&mut core, &["faketool"], "", &mut a).unwrap();
    assert_eq!(core.leases.active(), 0, "env-file must never lease, even on a lease decision");
}

#[test]
fn inline_env_with_no_sealed_values_runs_as_a_plain_gate() {
    let mut core = core_with(env_config(&["TOKEN"], LeasePolicy::RunOnce));
    let mut a = approver(Decision::Approve);
    let (plan, audit) = run(&mut core, &["faketool"], "", &mut a).unwrap();
    assert_eq!(a.calls, 1, "still gated");
    assert!(plan.passthrough && plan.env.is_none(), "and nothing is injected");
    assert_eq!(audit.account, "");
    assert!(a.seen.unwrap().threshold.is_none());
    match core.fulfil(&av(&["faketool"]), "", 0, &a_caller()) {
        Begun::Gated(f) => assert!(f.gate.degraded && !f.gate.sealed_env),
        _ => panic!(),
    }
}

#[test]
fn leased_unsealed_inline_env_source_runs_as_a_plain_gate() {
    let mut core = core_with(env_config(&["TOKEN"], LeasePolicy::leasable(900)));
    let mut a = leasing();
    let (first, _) = run(&mut core, &["faketool"], "", &mut a).unwrap();
    assert!(first.passthrough);
    assert_eq!(core.leases.active(), 1, "the plain gate opened a lease");
    assert_eq!(a.calls, 1);
    let (second, _) = run(&mut core, &["faketool", "--other"], "/elsewhere", &mut a).unwrap();
    assert!(second.passthrough && second.env.is_none(), "still no injection on the leased run");
    assert_eq!(a.calls, 1);
    assert_eq!(core.leases.active(), 1, "and opened no second lease");
}

#[test]
fn a_sealed_env_lease_injects_from_ram_with_no_second_approval() {
    let mut core = sealed_env_core(LeasePolicy::leasable(900));
    let mut a = phone();
    let want = Some(vec![("TOKEN".to_string(), "sealed-value-42".to_string())]);
    let (first, audit) = run(&mut core, &["faketool"], "", &mut a).unwrap();
    assert_eq!(injected(&first.env), want, "the first run unseals");
    assert!(!first.passthrough);
    assert_eq!(audit.account, "faketool");
    assert_eq!(a.calls, 1);
    assert_eq!(core.leases.active(), 1, "the approval opened a window");
    let challenge = a.seen.take().unwrap().threshold.unwrap();
    assert_eq!(challenge.ephemeral_pub, "E1");
    assert_eq!(challenge.label, "faketool");
    let (second, leased) = run(&mut core, &["faketool", "--other-args"], "", &mut a).unwrap();
    assert_eq!(injected(&second.env), want, "the leased run injects the cached values");
    assert_eq!(leased.via, "lease");
    assert_eq!(a.calls, 1, "and does it with no phone round trip");
}

#[test]
fn a_run_once_sealed_env_rule_caches_nothing() {
    let mut core = sealed_env_core(LeasePolicy::RunOnce);
    let mut a = phone();
    let (first, _) = run(&mut core, &["faketool"], "", &mut a).unwrap();
    assert_eq!(injected(&first.env).unwrap()[0].1, "sealed-value-42");
    assert_eq!(core.leases.active(), 0);
    run(&mut core, &["faketool"], "", &mut a).unwrap();
    assert_eq!(a.calls, 2, "so the next run needs its own approval");
}

#[test]
fn a_sealed_env_lease_stops_injecting_when_it_expires() {
    let mut core = sealed_env_core(LeasePolicy::leasable(900));
    let mut a = phone();
    a.decision = Decision::Lease(Span::from_secs(1));
    run(&mut core, &["faketool"], "", &mut a).unwrap();
    assert_eq!(core.leases.active(), 1);
    let later = core.leases.reading() + 1_200_000_000;
    assert_eq!(core.leases.active_at(later), 0, "the window lapsed and was purged");
    let (again, _) = run(&mut core, &["faketool"], "", &mut a).unwrap();
    assert_eq!(injected(&again.env).unwrap()[0].1, "sealed-value-42");
    assert_eq!(a.calls, 2, "the run after expiry took a fresh approval");
}

#[test]
fn revoke_and_restart_both_end_a_sealed_env_window() {
    let mut core = sealed_env_core(LeasePolicy::leasable(900));
    let mut a = phone();
    run(&mut core, &["faketool"], "", &mut a).unwrap();
    let grant = core.leases.list()[0].grant_hex.clone();
    match core.handle_conn(Frame::LeaseRevoke { prefix: grant[..8].to_string() }, 0) {
        Handled::Answer { reply, .. } => assert_eq!(
            reply,
            Reply::Control { ok: true, lines: av(&["revoked 1 lease(s)"]) }
        ),
        _ => panic!(),
    }
    assert_eq!(core.leases.active(), 0);
    run(&mut core, &["faketool"], "", &mut a).unwrap();
    assert_eq!(a.calls, 2, "the run after a revoke took a fresh approval");
    assert_eq!(core.leases.clear(), 1);
    run(&mut core, &["faketool"], "", &mut a).unwrap();
    assert_eq!(a.calls, 3, "a daemon that lost its leases comes up cold");
    match core.handle_conn(Frame::LeaseRevoke { prefix: "zz".into() }, 0) {
        Handled::Answer { reply, .. } => assert_eq!(
            reply,
            Reply::Control { ok: false, lines: av(&["revoked 0 lease(s)"]) }
        ),
        _ => panic!(),
    }
}

#[test]
fn sealed_values_that_do_not_open_run_nothing() {
    let refused = |o: Opening| {
        let mut core = sealed_env_core(LeasePolicy::leasable(900));
        let mut f = match core.fulfil(&av(&["faketool"]), "", 0, &a_caller()) {
            Begun::Gated(f) => f,
            _ => panic!(),
        };
        let told = Told::Described { refs: Vec::new(), kind: RequestKind::SecretRead };
        f.tell(&mut core.leases, "phone", told);
        let decision = Decision::Lease(Span::from_secs(60));
        f.tell(&mut core.leases, "phone", Told::Decided { decision, partial: true });
        match f.tell(&mut core.leases, "phone", Told::Opened(o)).0 {
            Next::Refuse { message, audit } => {
                assert!(audit.is_none());
                assert_eq!(core.leases.active(), 0, "a failed open leaves no lease behind");
                message
            }
            _ => panic!("nothing may run"),
        }
    };
    assert_eq!(
        refused(Opening::ShareMissing),
        "sigil: no Mac threshold share on this daemon; re-pair\n"
    );
    assert_eq!(refused(Opening::ShareFailed("locked".into())), "sigil: locked\n");
    assert_eq!(
        refused(Opening::DecryptFailed("bad tag".into())),
        "sigil env decrypt failed: bad tag\n"
    );
    assert_eq!(refused(Opening::Corrupt), "sigil: inline env blob is corrupt; re-set it\n");
    let pairs = vec![("OTHER".to_string(), "x".to_string())];
    let plain = encode(&pairs);
    let pairs = secret(&pairs);
    assert!(refused(Opening::Values { pairs, plain }).contains("do not match what was approved"));

    let mut core = sealed_env_core(LeasePolicy::leasable(900));
    let mut a = phone();
    a.partial = false;
    let (message, _) = run(&mut core, &["faketool"], "", &mut a).err().unwrap();
    assert_eq!(message, "sigil: approval carried no threshold partial; no phone factor?\n");
}

#[test]
fn a_cache_that_no_longer_fits_is_dropped_and_asked_for_again() {
    let mut core = sealed_env_core(LeasePolicy::leasable(900));
    let mut a = phone();
    run(&mut core, &["faketool"], "", &mut a).unwrap();
    let mut f = match core.fulfil(&av(&["faketool"]), "", 0, &a_caller()) {
        Begun::Gated(f) => f,
        _ => panic!(),
    };
    let told = Told::Described { refs: Vec::new(), kind: RequestKind::SecretRead };
    match f.tell(&mut core.leases, "phone", told).0 {
        Next::Decode(t) => assert_eq!(t.as_slice(), b"TOKEN=sealed-value-42"),
        _ => panic!("the window answers"),
    }
    let (next, log) = f.tell(&mut core.leases, "phone", Told::Decoded(None));
    assert!(matches!(next, Next::Approve { .. }));
    assert_eq!(
        log.unwrap(),
        "sigil daemon: dropping the lease on rule 'faketool' (its cached values no longer decode); re-approving this run"
    );
    assert_eq!(core.leases.active(), 0);
}

#[test]
fn a_cached_lease_is_only_used_when_it_still_matches_the_rule() {
    assert!(leased_env(false, decode(&Token::new(Vec::new())), &[]).unwrap().is_none());

    let good = || {
        Some(secret(&[
            ("TOKEN".to_string(), "v".to_string()),
            ("OTHER".to_string(), "w".to_string()),
        ]))
    };
    let got = leased_env(true, good(), &av(&["OTHER", "TOKEN"]))
        .expect("a matching cache is usable")
        .expect("and carries values");
    assert_eq!(got.len(), 2, "order does not matter, the SET does");

    assert!(
        leased_env(true, good(), &av(&["TOKEN"])).is_err(),
        "a cache with an EXTRA key must not be injected"
    );
    assert!(
        leased_env(true, good(), &av(&["TOKEN", "OTHER", "THIRD"])).is_err(),
        "a cache MISSING a consented key must not be injected"
    );

    let corrupt = Token::new(vec![0xff, 0xff, 0xff, 0xff, 0x01]);
    assert!(leased_env(true, decode(&corrupt), &av(&["TOKEN"])).is_err());
    let marker = Token::new(Vec::new());
    assert!(leased_env(true, decode(&marker), &av(&["TOKEN"])).is_err());
    assert!(leased_env(true, Some(Vec::new()), &av(&["TOKEN"])).is_err());
}

#[test]
fn key_sets_ignore_order_and_repetition() {
    let p = |ks: &[&str]| ks.iter().map(|k| (k.to_string(), Token::new(Vec::new()))).collect::<Vec<_>>();
    assert!(env_keys_match(&p(&["A", "B", "A"]), &av(&["B", "A", "B"])));
    assert!(env_keys_match(&p(&[]), &av(&[])));
    assert!(!env_keys_match(&p(&["A"]), &av(&["B"])));
    assert!(!env_keys_match(&p(&[]), &av(&["B"])));
}

#[test]
fn plain_variables_stay_beside_sealed_ones_which_win() {
    let mut cfg = Config::default();
    let mut src = source("faketool", ENV_PROVIDER, None, &["TOKEN"]);
    src.plain = PlainVars::from_pairs(vec![
        ("TOKEN".into(), "plain".into()),
        ("MODE".into(), "quiet".into()),
    ]);
    cfg.add_source(src).unwrap();
    cfg.add_rule(rule("faketool", command("faketool"), "faketool", LeasePolicy::RunOnce)).unwrap();
    let mut core = core_with(cfg);
    core.sealed = SealedStore { secrets: vec![record("faketool", "E1")] };
    let (plan, _) = run(&mut core, &["faketool"], "", &mut phone()).unwrap();
    assert_eq!(plan.plain, vec![("MODE".to_string(), "quiet".to_string())]);
    assert_eq!(injected(&plan.env).unwrap()[0].1, "sealed-value-42");
}

#[test]
fn plain_variables_all_stay_where_nothing_is_injected() {
    let mut cfg = Config::default();
    let mut src = source("tool", OP_PROVIDER, None, &["TOKEN"]);
    src.plain = PlainVars::from_pairs(vec![
        ("TOKEN".into(), "plain".into()),
        ("MODE".into(), "quiet".into()),
    ]);
    cfg.add_source(src).unwrap();
    cfg.add_rule(rule("tool", command("tool"), "tool", LeasePolicy::RunOnce)).unwrap();
    let mut core = core_with(cfg);
    let (plan, _) = run(&mut core, &["tool"], "", &mut approver(Decision::Approve)).unwrap();
    assert!(plan.env.is_none());
    let mut plain = plan.plain.clone();
    plain.sort();
    assert_eq!(
        plain,
        vec![
            ("MODE".to_string(), "quiet".to_string()),
            ("TOKEN".to_string(), "plain".to_string())
        ]
    );
    assert!(core.shadows.shadow_notice("tool", &plan.plain, &plan.env).is_none());
}

#[test]
fn a_shadowed_plain_variable_is_announced_once() {
    let pair = |k: &str| (k.to_string(), "v".to_string());
    let plain = vec![pair("A"), pair("MODE"), pair("B")];
    let sealed = Some(secret(&[pair("B"), pair("A"), pair("C")]));
    let mut said = ShadowNotices::new();
    assert!(said.shadow_notice("src", &plain, &None).is_none());
    assert!(said.shadow_notice("src", &plain, &Some(secret(&[pair("C")]))).is_none());
    assert_eq!(
        said.shadow_notice("src", &plain, &sealed).unwrap(),
        "sigil daemon: source 'src' sets both plain and sealed values for A, B; injecting the sealed ones"
    );
    assert!(said.shadow_notice("src", &plain, &sealed).is_none());
    assert!(said.shadow_notice("other", &plain, &sealed).is_some(), "another source is new");
    assert!(said.shadow_notice("src", &plain, &sealed).is_none());
    assert_eq!(said.said.len(), 2);
}

#[test]
fn requests_for_one_command_share_a_key_and_others_do_not() {
    let core = core_with(op_config());
    let key = |argv: &[&str]| match core.fulfil(&av(argv), "", 0, &a_caller()) {
        Begun::Gated(f) => f.gate.coalesce,
        _ => panic!("a gated run"),
    };
    assert_eq!(key(&["op", "read", "x"]), key(&["op", "read", "x"]));
    assert_ne!(key(&["op", "read", "x"]), key(&["op", "read", "y"]));
}

#[test]
fn a_rule_rewritten_mid_window_does_not_inherit_the_lease() {
    let mut core = sealed_env_core(LeasePolicy::leasable(900));
    let mut a = phone();
    run(&mut core, &["faketool"], "", &mut a).unwrap();
    assert_eq!(core.leases.active(), 1, "the window is open on 'faketool'");

    let mut swapped = Config::default();
    swapped.add_source(source("faketool", ENV_PROVIDER, None, &["TOKEN"])).unwrap();
    swapped
        .add_rule(rule("faketool", command("curl"), "faketool", LeasePolicy::leasable(900)))
        .unwrap();
    let now = core.leases.reading();
    let lines = core.reload_config_at(now, Ok(swapped)).unwrap();
    assert_eq!(
        lines,
        av(&["sigil daemon: config changed under rule 'faketool'; revoked 1 lease(s) (any cached values zeroized)"])
    );
    assert_eq!(core.config.generation, 1);
    assert_eq!(core.leases.active(), 0);
    run(&mut core, &["curl", "https://example.invalid"], "", &mut a).unwrap();
    assert_eq!(a.calls, 2, "curl took its own approval");
}

#[test]
fn a_reload_during_an_approval_kills_the_grant_that_lands_after_it() {
    let mut core = core_with(op_config());
    let mut a = leasing();
    let argv = ["op", "read", "op://Engineering/.env"];
    run(&mut core, &argv, "", &mut a).unwrap();
    assert_eq!(core.leases.active(), 1);
    core.config.store(op_config());
    assert_eq!(core.leases.active(), 1);
    run(&mut core, &argv, "", &mut a).unwrap();
    assert_eq!(
        a.calls, 2,
        "a grant decided under the previous config generation must not be served"
    );
}

#[test]
fn config_reload_invalidates_exactly_the_leases_whose_rule_moved() {
    let mut core = core_with(op_config());
    let mut base = op_config();
    base.add_source(source("other", OP_PROVIDER, None, &[])).unwrap();
    base.add_rule(rule("other", command("other"), "other", LeasePolicy::leasable(900))).unwrap();
    let seed = |core: &mut Core| {
        core.leases.clear();
        for (i, name) in ["op", "other"].iter().enumerate() {
            core.leases.grant(
                [i as u8; 32],
                &LeaseBinding::cached("src", name, "E1", 0),
                "",
                Token::new(b"TOKEN=v".to_vec()),
                Span::from_secs(60),
            );
        }
        assert_eq!(core.leases.active(), 2);
    };
    let apply = |core: &mut Core, new: &Config| {
        let now = core.leases.reading();
        invalidate_leases_at(&mut core.leases, now, &base, new)
    };

    seed(&mut core);
    let mut removed = base.clone();
    removed.rules.retain(|r| r.name != "op");
    apply(&mut core, &removed);
    assert_eq!(core.leases.active(), 1, "the removed rule's window died");
    assert_eq!(core.leases.list()[0].scope, "other");

    seed(&mut core);
    let mut rewritten = base.clone();
    rewritten.rules[0].match_.command = Some("curl".into());
    apply(&mut core, &rewritten);
    assert_eq!(core.leases.active(), 1);
    assert_eq!(core.leases.list()[0].scope, "other");

    seed(&mut core);
    let mut relaxed = base.clone();
    relaxed.rules[0].action.lease = LeasePolicy::leasable(30);
    apply(&mut core, &relaxed);
    assert_eq!(core.leases.active(), 1);

    seed(&mut core);
    let mut resourced = base.clone();
    resourced.sources[0].keys = vec!["NEW_KEY".into()];
    apply(&mut core, &resourced);
    assert_eq!(core.leases.active(), 1, "a moved source kills its rule's window");
    assert_eq!(core.leases.list()[0].scope, "other");

    seed(&mut core);
    assert!(apply(&mut core, &base.clone()).is_empty());
    assert_eq!(core.leases.active(), 2, "an unchanged config revokes nothing");
}

#[test]
fn config_hot_reload_swaps_in_the_on_disk_rules() {
    let mut core = core_with(op_config());
    let mut a = approver(Decision::Approve);
    assert!(run(&mut core, &["gcloud"], "", &mut a).is_err());
    core.reload_config_at(0, Ok(env_file_config("gcloud", "/x/.env"))).unwrap();
    assert!(run(&mut core, &["gcloud"], "", &mut a).is_ok());
    assert!(run(&mut core, &["op", "read"], "", &mut a).is_err());
}

#[test]
fn config_reload_is_fail_closed_on_a_malformed_file() {
    let mut core = core_with(op_config());
    assert_eq!(core.reload_config_at(0, Err("expected value".into())), Err("expected value".into()));
    assert_eq!(core.config.config, op_config());
    assert_eq!(core.config.generation, 0);
}

#[test]
fn a_malformed_sealed_store_keeps_the_last_good_records() {
    let mut core = sealed_env_core(LeasePolicy::RunOnce);
    assert_eq!(core.reload_threshold(Err("truncated".into())), Err("truncated".into()));
    assert_eq!(core.sealed.secrets.len(), 1);
    let two = SealedStore { secrets: vec![record("a", "1"), record("b", "2")] };
    assert_eq!(core.reload_threshold(Ok(two)), Ok(2));
    assert_eq!(core.sealed.secrets.len(), 2);
}

#[test]
fn sealing_while_the_daemon_is_armed_takes_effect_with_no_restart() {
    let mut core = core_with(env_config(&["TOKEN"], LeasePolicy::RunOnce));
    let mut a = phone();
    let (bare, _) = run(&mut core, &["faketool"], "", &mut a).unwrap();
    assert!(bare.env.is_none());
    core.reload_threshold(Ok(SealedStore { secrets: vec![record("faketool", "E1")] })).unwrap();
    let (sealed, _) = run(&mut core, &["faketool"], "", &mut a).unwrap();
    assert_eq!(injected(&sealed.env).unwrap()[0].1, "sealed-value-42");
}

#[test]
fn a_reseal_asks_again() {
    let mut core = sealed_env_core(LeasePolicy::leasable(900));
    let mut a = phone();
    run(&mut core, &["faketool"], "", &mut a).unwrap();
    core.reload_threshold(Ok(SealedStore { secrets: vec![record("faketool", "E2")] })).unwrap();
    run(&mut core, &["faketool"], "", &mut a).unwrap();
    assert_eq!(a.calls, 2);
}

#[test]
fn the_degrade_to_a_plain_gate_announces_itself_once_per_window() {
    let mut notices = DegradedNotices::new();
    let first = notices
        .degraded_gate_notice("rule-alpha", "src-alpha")
        .expect("the first degraded run is announced");
    assert!(first.contains("rule-alpha"), "{first}");
    assert!(first.contains("src-alpha"), "{first}");
    assert!(first.contains("injecting nothing"), "{first}");
    assert!(
        first.contains("sigil-config source env set src-alpha"),
        "and says how to fix it: {first}"
    );
    assert!(
        notices.degraded_gate_notice("rule-alpha", "src-alpha").is_none(),
        "a burst of gated runs does not repeat it"
    );
    assert!(
        notices.degraded_gate_notice("rule-alpha", "src-beta").is_some(),
        "but a different source is its own notice"
    );
}

#[test]
fn a_degraded_notice_speaks_again_after_its_window() {
    let mut notices = DegradedNotices::new();
    assert!(notices.degraded_gate_notice_at(1, "r", "s").is_some());
    assert!(notices.degraded_gate_notice_at(300_000_000_000, "r", "s").is_none());
    assert!(notices.degraded_gate_notice_at(300_000_000_001, "r", "s").is_some());
}

#[test]
fn doctor_catches_a_daemon_armed_with_a_stale_sealed_store() {
    let core = sealed_env_core(LeasePolicy::RunOnce);
    let drift = core.doctor_report(Ok(SealedStore::new()));
    assert_eq!(drift.label, "sealed store matches the armed daemon");
    assert!(!drift.ok, "a count mismatch fails the check");
    assert!(drift.hint.contains("sigil restart"), "{}", drift.hint);

    let agreed = core.doctor_report(Ok(SealedStore { secrets: vec![record("faketool", "E1")] }));
    assert!(agreed.ok, "{}", agreed.hint);
    assert!(agreed.hint.contains('1'), "{}", agreed.hint);

    let resealed = core.doctor_report(Ok(SealedStore { secrets: vec![record("faketool", "E9")] }));
    assert!(!resealed.ok, "a re-seal is drift too");
    assert!(resealed.hint.contains("re-sealed"), "{}", resealed.hint);

    let unread = core.doctor_report(Err("denied".into()));
    assert_eq!((unread.ok, unread.hint.as_str()), (false, "the sealed store could not be read: denied"));
}

#[test]
fn the_order_of_sealed_records_is_no_drift() {
    let mut core = core_with(op_config());
    core.sealed = SealedStore { secrets: vec![record("a", "1"), record("b", "2"), record("a", "1")] };
    let same = vec![record("b", "2"), record("a", "1"), record("a", "1")];
    assert!(core.doctor_report(Ok(SealedStore { secrets: same })).ok);
    let other = vec![record("b", "2"), record("b", "2"), record("a", "1")];
    assert!(!core.doctor_report(Ok(SealedStore { secrets: other })).ok);
}

#[test]
fn proxy_depth_is_incremented_on_the_child_and_fuses_at_the_limit() {
    let mut core = core_with(env_file_config("faketool", "/x/s.env"));
    let mut a = approver(Decision::Approve);
    let (plan, _) = run_as(&mut core, &a_caller(), &["faketool"], "", 5, &mut a).unwrap();
    assert_eq!(plan.depth, 6);
    let limit = core.max_depth;
    let (err, _) = run_as(&mut core, &a_caller(), &["faketool"], "", limit, &mut a).err().unwrap();
    assert!(err.contains("recursion limit"));
}

#[test]
fn a_caller_without_an_identity_gets_no_window() {
    let mut core = core_with(op_config());
    let mut a = leasing();
    let nobody = walk_ancestry(&EmptyTable, -1);
    run_as(&mut core, &nobody, &["op", "read"], "", 0, &mut a).unwrap();
    assert_eq!(core.leases.active(), 0);
    run_as(&mut core, &nobody, &["op", "read"], "", 0, &mut a).unwrap();
    assert_eq!(a.calls, 2, "such a request is still gated and still shown");
}

#[test]
fn a_sealed_unprovisioned_daemon_serves_nothing_and_says_why() {
    let mut core = core_with(op_config());
    core.vault.seal = SealState::Sealed { expected: [1u8; 32], se_pub: b"spki".to_vec() };
    let mut a = approver(Decision::Approve);
    let argv = ["op", "read", "op://Engineering/.env"];
    let (err, _) = run(&mut core, &argv, "", &mut a).err().unwrap();
    assert!(err.contains("keystore sealed"), "{err}");
    assert!(err.contains("Sigil app must be running"), "{err}");
    let lower = err.to_lowercase();
    assert!(!lower.contains("no pairing"), "must not read as a lost pairing: {err}");
    assert!(
        !lower.contains("run: sigil pair") && !lower.contains("re-pair with"),
        "must not send anyone into a re-pair: {err}"
    );
    assert_eq!(a.calls, 0);
}

#[test]
fn a_provisioned_seal_serves_normally_and_a_downgrade_never_does() {
    let mut core = core_with(op_config());
    core.vault.seal = SealState::Sealed { expected: [1u8; 32], se_pub: b"spki".to_vec() };
    core.vault.provisioned = true;
    let mut a = approver(Decision::Approve);
    let argv = ["op", "read", "op://Engineering/.env"];
    assert!(run(&mut core, &argv, "", &mut a).is_ok(), "a provisioned seal serves");
    core.vault.seal = SealState::Downgraded;
    let (err, _) = run(&mut core, &argv, "", &mut a).err().unwrap();
    assert!(err.contains("downgraded"));
}

#[test]
fn status_reports_the_keystore_seal_state_the_daemon_armed_with() {
    let mut core = core_with(op_config());
    assert_eq!(core.status_report(), (false, false));
    core.vault.seal = SealState::Sealed { expected: [2u8; 32], se_pub: Vec::new() };
    assert_eq!(core.status_report(), (true, false));
    core.vault.provisioned = true;
    assert_eq!(core.status_report(), (true, true));
}

#[test]
fn arming_says_what_could_not_be_read() {
    let mut l = loaded(Config::default());
    l.dev_insecure = false;
    l.stranded = Some("a pairing was left behind".into());
    l.seal = SealState::Downgraded;
    l.sealed = Err("s".into());
    l.pairings = Err("p".into());
    l.ssh_fault = Some("k".into());
    l.config = Err("c".into());
    l.retention_days = Some(7);
    let (core, phones, lines) = Core::for_host(l);
    assert_eq!(core.factor, Factor::NoFactor);
    assert_eq!(core.audit, Some(7));
    assert!(phones.is_empty());
    assert_eq!(core.config.config, Config::default());
    assert_eq!(lines[0], "a pairing was left behind");
    assert!(lines[1].starts_with("sigil daemon: keystore downgraded"));
    assert_eq!(
        lines[2..],
        av(&[
            "sigil daemon: ignoring an unreadable threshold store: s",
            "sigil daemon: ignoring an unreadable pairing config: p",
            "sigil daemon: ignoring an unreadable ssh-keys config: k",
            "sigil daemon: ignoring an unreadable config: c",
        ])
    );
    let (quiet, _, none) = Core::for_host(loaded(op_config()));
    assert!(none.is_empty());
    assert_eq!(quiet.audit, Some(30));
    assert_eq!(quiet.grant_via(), "dev");
}

#[test]
fn no_factor_daemon_fails_closed_on_a_gated_request() {
    let mut l = loaded(op_config());
    l.dev_insecure = false;
    let (mut core, _, _) = Core::for_host(l);
    assert_eq!(core.factor, Factor::NoFactor);
    assert_eq!(core.grant_via(), "none");
    let mut a = approver(Decision::Deny);
    let (err, _) = run(&mut core, &["op", "read", "op://Engineering/x"], "/p", &mut a).err().unwrap();
    assert!(err.contains("denied"));
    assert_eq!(core.leases.active(), 0);
}

#[test]
fn different_ssh_challenges_do_not_share_a_grant_key() {
    let caller = walk_ancestry(&EmptyTable, -1);
    let fp_a = "SHA256:challenge-A";
    let fp_b = "SHA256:challenge-B";
    assert_ne!(fp_a, fp_b);
    let gk_a =
        grant_key(&caller, ScopeKind::SshSignature, "", &ssh_sign_scope("GitHub", fp_a));
    let gk_b =
        grant_key(&caller, ScopeKind::SshSignature, "", &ssh_sign_scope("GitHub", fp_b));
    assert_ne!(gk_a, gk_b, "different data must not coalesce");
    let gk_a2 =
        grant_key(&caller, ScopeKind::SshSignature, "", &ssh_sign_scope("GitHub", fp_a));
    assert_eq!(gk_a, gk_a2);
    assert_eq!(ssh_sign_scope("GitHub", fp_a), "ssh-sign GitHub SHA256:challenge-A");
}

#[test]
fn two_commands_under_one_rule_share_the_window_and_not_the_approval() {
    let core = core_with(op_config());
    let gate = |argv: &[&str], cwd: &str| match core.fulfil(&av(argv), cwd, 0, &a_caller()) {
        Begun::Gated(f) => f.gate,
        _ => panic!(),
    };
    let read = gate(&["op", "read", "x"], "/a");
    let item = gate(&["op", "item", "y"], "/a");
    let moved = gate(&["op", "read", "x"], "/b");
    assert_eq!(read.grant, item.grant);
    assert_eq!(read.grant, moved.grant);
    assert_ne!(read.coalesce, item.coalesce);
    assert_ne!(read.coalesce, moved.coalesce);
    assert_eq!(read.coalesce, gate(&["op", "read", "x"], "/a").coalesce);
}

#[test]
fn conn_gate_refuses_past_the_cap_and_frees_slots_on_drop() {
    let mut gate = ConnGate::new();
    for _ in 0..MAX_CONCURRENT_CONNS {
        assert!(gate.try_enter(), "under the cap must serve");
    }
    assert!(!gate.try_enter(), "the cap must refuse one more connection");
    gate.leave();
    assert!(gate.try_enter(), "a freed slot must serve a new connection");
    assert!(!gate.try_enter());
}

#[test]
fn shown_leases_carry_wall_clock_times() {
    let mut core = core_with(op_config());
    let b = LeaseBinding::cached("acct", "op", "", 0);
    core.leases.grant_at(5_000_000, [1; 16], [2; 32], &b, "op", Token::new(Vec::new()), Span::from_millis(700));
    let rows = leases_json(10_000, core.leases.list_at(105_000_000));
    assert_eq!(rows.len(), 1);
    assert_eq!(rows[0].granted_ms, 9_900);
    assert_eq!(rows[0].expires_ms, 10_600);
    assert_eq!((rows[0].account.as_str(), rows[0].scope.as_str(), rows[0].caller.as_str()), ("acct", "op", ""));
    let early = leases_json(50, core.leases.list_at(105_000_000));
    assert_eq!(early[0].granted_ms, 0);
}

#[test]
fn the_audit_label_is_that_of_the_first_reference() {
    let mut core = core_with(op_config());
    let mut f = match core.fulfil(&av(&["op", "read", "x"]), "", 0, &a_caller()) {
        Begun::Gated(f) => f,
        _ => panic!(),
    };
    let refs = vec![SecretRef { provider: "op".into(), segments: av(&["V", "i"]), label: "Deploy key".into() }];
    let told = Told::Described { refs, kind: RequestKind::Other("service".into()) };
    f.tell(&mut core.leases, "phone", told);
    let done = f.tell(&mut core.leases, "phone", Told::Decided { decision: Decision::Approve, partial: false });
    match done.0 {
        Next::Run { audit, .. } => {
            assert_eq!(audit.label, "Deploy key");
            assert_eq!(audit.kind, RequestKind::Other("service".into()));
            assert_eq!(audit.via, "phone");
        }
        _ => panic!(),
    }
}
