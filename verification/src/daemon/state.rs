//! The daemon's state, how it is armed, and what each frame on its socket leads
//! to.
use crate::clock;
use crate::clock::Span;
use crate::config::Config;
use crate::daemon::fulfil;
use crate::daemon::fulfil::{Decision, Fulfilment};
use crate::daemon::gate::{PairingView, RemotePairingConfig};
use crate::daemon::notices::{DegradedNotices, ShadowNotices};
use crate::daemon::plan;
use crate::daemon::plan::{AskedView, Plan, PlanView, Provider, World, WorldView};
use crate::daemon::reload;
use crate::daemon::reload::{invalidate_leases_at, ConfigCell};
use crate::daemon::reply;
use crate::daemon::reply::{control_line, control_reply, Reply, ReplyView};
use crate::daemon::request::{AuditEntry, AuditView, KindView, RequestKind, RunPlan, RunView};
use crate::daemon::sealed;
use crate::daemon::sealed::{sealed_store_drift, SealedStore};
use crate::daemon::unwrap::{fresh_id, RequestsView, UnwrapRequests};
use crate::daemon::vault::{Vault, VaultView};
use crate::factor;
use crate::factor::{ArmInputs, Factor};
use crate::keystore_seal::SealState;
use crate::lease::store;
use crate::lease::store::{InfoView, LeaseInfo, LeaseStore};
use crate::lease::Caller;
use crate::lists;
use crate::text;
use vstd::prelude::*;
use vstd::string::*;

verus! {

/// How long a window is that an approval on the control socket opens, in seconds.
pub const DEFAULT_LEASE_TTL_SECS: u64 = 900;

/// How many days the audit log is kept where no setting says otherwise.
pub const DEFAULT_RETENTION_DAYS: u32 = 30;

/// The daemon's state.
pub struct Core {
    pub vault: Vault,
    /// The sealed records that the daemon armed with.
    pub sealed: SealedStore,
    pub leases: LeaseStore,
    pub config: ConfigCell,
    pub providers: Vec<Provider>,
    /// The proxy depth at which nothing runs any more.
    pub max_depth: u32,
    pub lease_ttl: Span,
    pub factor: Factor,
    /// How many days the audit log is kept; `None` where there is none.
    pub audit: Option<u32>,
    pub unwraps: UnwrapRequests,
    pub notices: DegradedNotices,
    pub shadows: ShadowNotices,
}

/// What is loaded when the daemon is armed.
pub struct Loaded {
    pub dev_insecure: bool,
    /// What is said of a pairing that was left elsewhere.
    pub stranded: Option<String>,
    pub seal: SealState,
    pub sealed: Result<SealedStore, String>,
    pub pairings: Result<Vec<RemotePairingConfig>, String>,
    pub biometric: bool,
    /// What went wrong with the list of keys that the agent serves.
    pub ssh_fault: Option<String>,
    pub config: Result<Config, String>,
    pub retention_days: Option<u32>,
    pub providers: Vec<Provider>,
    pub max_depth: u32,
}

/// The lines that are logged of what was loaded, in order.
pub open spec fn loaded_lines(l: Loaded) -> Seq<Seq<char>> {
    line_of(text::maybe_text(l.stranded), Seq::empty()) + line_of(
        l.seal@.why(false),
        "sigil daemon: "@,
    ) + line_of(
        match l.sealed {
            Ok(_) => None,
            Err(e) => Some(e@),
        },
        "sigil daemon: ignoring an unreadable threshold store: "@,
    ) + line_of(
        match l.pairings {
            Ok(_) => None,
            Err(e) => Some(e@),
        },
        "sigil daemon: ignoring an unreadable pairing config: "@,
    ) + line_of(
        text::maybe_text(l.ssh_fault),
        "sigil daemon: ignoring an unreadable ssh-keys config: "@,
    ) + line_of(
        match l.config {
            Ok(_) => None,
            Err(e) => Some(e@),
        },
        "sigil daemon: ignoring an unreadable config: "@,
    )
}

/// One line where there is something to say, and none otherwise.
pub open spec fn line_of(what: Option<Seq<char>>, lead: Seq<char>) -> Seq<Seq<char>> {
    match what {
        Some(w) => seq![lead + w],
        None => Seq::empty(),
    }
}

/// The phones that are paired, as far as that could be read.
pub open spec fn paired(l: Loaded) -> Seq<PairingView> {
    match l.pairings {
        Ok(p) => lists::views(p@),
        Err(_) => Seq::empty(),
    }
}

/// The factor that the daemon arms with.
pub open spec fn armed_factor(l: Loaded) -> Factor {
    factor::factor_of(
        ArmInputs {
            dev_insecure: l.dev_insecure,
            phone_paired: paired(l).len() > 0,
            biometric: l.biometric,
        },
    )
}

fn add_line(lines: &mut Vec<String>, lead: &str, what: &str)
    ensures
        text::texts(final(lines)@) == text::texts(old(lines)@).push(lead@ + what@),
{
    let mut s = String::new();
    s.append(lead);
    s.append(what);
    assert(s@ =~= lead@ + what@);
    lines.push(s);
    assert(text::texts(lines@) =~= text::texts(old(lines)@).push(lead@ + what@));
}

impl Core {
    /// Arm the daemon from what was loaded. What could not be read is taken for
    /// empty and said so, and the daemon arms all the same: its rules then refuse,
    /// and without a factor every gated request is denied. Gives the state, the
    /// phones to ask for approval, and the lines to log.
    pub fn for_host(l: Loaded) -> (r: (Core, Vec<RemotePairingConfig>, Vec<String>))
        ensures
            r.0.vault@ == (VaultView { seal: l.seal@, provisioned: false }),
            r.0.sealed@ == (match l.sealed {
                Ok(s) => s@,
                Err(_) => Seq::empty(),
            }),
            r.0.leases@.len() == 0,
            r.0.config.generation == 0,
            r.0.config.config@ == (match l.config {
                Ok(c) => c@,
                Err(_) => crate::config::empty_config(),
            }),
            r.0.providers == l.providers,
            r.0.max_depth == l.max_depth,
            r.0.lease_ttl.nanos == DEFAULT_LEASE_TTL_SECS * 1_000_000_000,
            r.0.factor == armed_factor(l),
            r.0.audit == Some(
                match l.retention_days {
                    Some(d) => d,
                    None => DEFAULT_RETENTION_DAYS,
                },
            ),
            r.0.unwraps@ == (RequestsView { open: Seq::empty(), version: 0, last: None }),
            r.0.notices@ == Map::<Seq<char>, u128>::empty(),
            r.0.shadows@ == Seq::<Seq<char>>::empty(),
            lists::views(r.1@) == paired(l),
            text::texts(r.2@) == loaded_lines(l),
    {
        let mut lines: Vec<String> = Vec::new();
        let ghost want = loaded_lines(l);
        proof {
            reveal_strlit("");
            assert(""@ =~= Seq::<char>::empty());
            assert(text::texts(lines@) =~= Seq::empty());
        }
        if let Some(note) = &l.stranded {
            add_line(&mut lines, "", note.as_str());
        }
        if let Some(why) = l.seal.explain(false) {
            add_line(&mut lines, "sigil daemon: ", why);
        }
        let sealed = match l.sealed {
            Ok(s) => s,
            Err(e) => {
                add_line(
                    &mut lines,
                    "sigil daemon: ignoring an unreadable threshold store: ",
                    e.as_str(),
                );
                SealedStore::new()
            },
        };
        let pairings: Vec<RemotePairingConfig> = match l.pairings {
            Ok(p) => p,
            Err(e) => {
                add_line(
                    &mut lines,
                    "sigil daemon: ignoring an unreadable pairing config: ",
                    e.as_str(),
                );
                Vec::new()
            },
        };
        assert(lists::views(pairings@) =~= paired(l));
        let inputs = ArmInputs {
            dev_insecure: l.dev_insecure,
            phone_paired: pairings.len() > 0,
            biometric: l.biometric,
        };
        let chosen = factor::resolve(&inputs);
        if let Some(e) = &l.ssh_fault {
            add_line(
                &mut lines,
                "sigil daemon: ignoring an unreadable ssh-keys config: ",
                e.as_str(),
            );
        }
        let config = match l.config {
            Ok(c) => c,
            Err(e) => {
                add_line(
                    &mut lines,
                    "sigil daemon: ignoring an unreadable config: ",
                    e.as_str(),
                );
                Config::default()
            },
        };
        assert(text::texts(lines@) =~= want);
        let core = Core {
            vault: Vault { seal: l.seal, provisioned: false },
            sealed,
            leases: LeaseStore::new(),
            config: ConfigCell::new(config),
            providers: l.providers,
            max_depth: l.max_depth,
            lease_ttl: Span::from_secs(DEFAULT_LEASE_TTL_SECS),
            factor: chosen,
            audit: Some(
                match l.retention_days {
                    Some(d) => d,
                    None => DEFAULT_RETENTION_DAYS,
                },
            ),
            unwraps: UnwrapRequests::new(),
            notices: DegradedNotices::new(),
            shadows: ShadowNotices::new(),
        };
        (core, pairings, lines)
    }

    /// Whether the store is wrapped, and whether it is open: what only the daemon
    /// can say of it.
    pub fn status_report(&self) -> (r: (bool, bool))
        ensures
            r == (self.vault@.seal is Sealed, self.vault@.provisioned),
    {
        (matches!(self.vault.seal, SealState::Sealed { .. }), self.vault.provisioned)
    }

    /// The check that only the daemon can make: whether the records it serves from
    /// are still those on disk.
    pub fn doctor_report(&self, disk: Result<SealedStore, String>) -> (r: Check)
        ensures
            r.label@ == "sealed store matches the armed daemon"@,
            (r.ok, r.hint@) == sealed::drift_of(self.sealed@, sealed::disk_view(disk)),
    {
        let (ok, hint) = sealed_store_drift(&self.sealed, disk);
        Check { label: "sealed store matches the armed daemon".to_owned(), ok, hint }
    }

    /// What loading a config afresh comes to, at the clock reading `now`: the config
    /// is in force under a new generation, and the leases of the rules that moved
    /// are gone. One that could not be loaded changes nothing.
    pub open spec fn reloaded(
        before: Core,
        after: Core,
        now: int,
        loaded: Result<Config, String>,
        r: Result<Vec<String>, String>,
    ) -> bool {
        match (loaded, r) {
            (Err(e), Err(f)) => e == f && after == before,
            (Ok(c), Ok(lines)) => {
                let old_config = before.config.config@;
                let live = store::live(before.leases@, now);
                let n = old_config.rules.len() as int;
                &&& after == (Core { config: after.config, leases: after.leases, ..before })
                &&& after.config.config == c
                &&& after.config.generation == reload::next_generation(before.config.generation)
                &&& after.leases@ == reload::surviving(live, old_config, c@, n)
                &&& text::texts(lines@) == reload::change_lines(live, old_config, c@, n)
            },
            _ => false,
        }
    }

    /// Put a freshly loaded config in force, at the clock reading `now`, and revoke
    /// the leases of the rules that moved. A config that could not be loaded
    /// changes nothing. Gives the lines to log.
    pub fn reload_config_at(&mut self, now: u128, loaded: Result<Config, String>) -> (r: Result<
        Vec<String>,
        String,
    >)
        ensures
            Core::reloaded(*old(self), *final(self), now as int, loaded, r),
    {
        match loaded {
            Err(e) => Err(e),
            Ok(c) => {
                let lines = invalidate_leases_at(&mut self.leases, now, &self.config.config, &c);
                self.config.store(c);
                Ok(lines)
            },
        }
    }

    /// Put a freshly loaded config in force, and revoke the leases of the rules that
    /// moved. Gives the lines to log.
    pub fn reload_config(&mut self, loaded: Result<Config, String>) -> (r: Result<
        Vec<String>,
        String,
    >)
        ensures
            exists|now: int|
                0 <= now < clock::READING_LIMIT && #[trigger] Core::reloaded(
                    *old(self),
                    *final(self),
                    now,
                    loaded,
                    r,
                ),
    {
        let now: u128 = self.leases.reading();
        self.reload_config_at(now, loaded)
    }

    /// Put freshly loaded sealed records in force. A store that could not be
    /// loaded changes nothing. Gives how many are armed.
    pub fn reload_threshold(&mut self, loaded: Result<SealedStore, String>) -> (r: Result<
        usize,
        String,
    >)
        ensures
            match (loaded, r) {
                (Err(e), Err(f)) => e == f && *final(self) == *old(self),
                (Ok(s), Ok(n)) => n == s@.len() && *final(self) == (Core { sealed: s, ..*old(self) }),
                _ => false,
            },
    {
        match loaded {
            Err(e) => Err(e),
            Ok(s) => {
                let n: usize = s.secrets.len();
                self.sealed = s;
                Ok(n)
            },
        }
    }

    /// What the audit log names as the way a fresh grant came.
    pub open spec fn via(&self) -> Seq<char> {
        match self.factor {
            Factor::Phone => "phone"@,
            Factor::Biometric => "biometric"@,
            Factor::DevInsecure => "dev"@,
            Factor::NoFactor => "none"@,
        }
    }

    /// What the audit log names as the way a fresh grant came.
    pub fn grant_via(&self) -> (r: &'static str)
        ensures
            r@ == self.via(),
    {
        match self.factor {
            Factor::Phone => "phone",
            Factor::Biometric => "biometric",
            Factor::DevInsecure => "dev",
            Factor::NoFactor => "none",
        }
    }

    /// The state that a decision rests on.
    pub open spec fn world(&self) -> WorldView {
        WorldView {
            max_depth: self.max_depth,
            vault: self.vault@,
            config: self.config.config@,
            generation: self.config.generation,
            providers: lists::views(self.providers@),
            sealed: self.sealed@,
        }
    }

    /// What a request comes to before anyone is asked, under `id`.
    pub fn fulfil_as(
        &self,
        id: String,
        argv: &[String],
        cwd: &str,
        depth: u32,
        caller: &Caller,
    ) -> (r: Begun)
        ensures
            r@ == begun_by(
                plan::planned(
                    self.world(),
                    AskedView { argv: text::texts(argv@), cwd: cwd@, depth, chain: caller@ },
                ),
                id@,
                cwd@,
            ),
    {
        let world = World {
            max_depth: self.max_depth,
            vault: &self.vault,
            config: &self.config.config,
            generation: self.config.generation,
            providers: self.providers.as_slice(),
            sealed: &self.sealed,
        };
        assert(world.at() =~= self.world());
        match world.plan(argv, cwd, depth, caller) {
            Plan::Refuse(message) => Begun::Refuse(message),
            Plan::Pass { rule, label, provenance, run } => {
                let mut via = String::new();
                via.append("allow:");
                via.append(rule.as_str());
                assert(via@ =~= "allow:"@ + rule@);
                let audit = AuditEntry {
                    id,
                    kind: RequestKind::SecretRead,
                    label,
                    account: String::new(),
                    process: provenance,
                    cwd: cwd.to_owned(),
                    decision: "allowed".to_owned(),
                    via,
                };
                assert(audit@ =~= passed_audit(id@, rule@, label@, provenance@, cwd@));
                Begun::Run { run, audit }
            },
            Plan::Gate(gate) => Begun::Gated(Fulfilment::begin(id, gate)),
        }
    }

    /// What a request comes to before anyone is asked, under a fresh id.
    pub fn fulfil(&self, argv: &[String], cwd: &str, depth: u32, caller: &Caller) -> (r: Begun)
        ensures
            exists|id: Seq<char>|
                r@ == #[trigger] begun_by(
                    plan::planned(
                        self.world(),
                        AskedView { argv: text::texts(argv@), cwd: cwd@, depth, chain: caller@ },
                    ),
                    id,
                    cwd@,
                ),
    {
        self.fulfil_as(fresh_id(), argv, cwd, depth, caller)
    }
}

/// One check of the doctor.
#[derive(Debug, Clone, PartialEq, Eq)]
pub struct Check {
    pub label: String,
    pub ok: bool,
    pub hint: String,
}

/// How a request starts, as plain values.
#[verifier::ext_equal]
pub enum BegunView {
    Refuse(Seq<char>),
    Run { run: RunView, audit: AuditView },
    Gated(fulfil::RunningView),
}

/// How a request starts: it is refused, it runs at once under an allow rule, or
/// it is gated.
pub enum Begun {
    Refuse(String),
    Run { run: RunPlan, audit: AuditEntry },
    Gated(Fulfilment),
}

impl View for Begun {
    type V = BegunView;

    open spec fn view(&self) -> BegunView {
        match self {
            Begun::Refuse(s) => BegunView::Refuse(s@),
            Begun::Run { run, audit } => BegunView::Run { run: run@, audit: audit@ },
            Begun::Gated(f) => BegunView::Gated(f@),
        }
    }
}

/// What the audit log says of a command that an allow rule lets through.
pub open spec fn passed_audit(
    id: Seq<char>,
    rule: Seq<char>,
    label: Seq<char>,
    provenance: Seq<char>,
    cwd: Seq<char>,
) -> AuditView {
    AuditView {
        id,
        kind: KindView::SecretRead,
        label,
        account: Seq::empty(),
        process: provenance,
        cwd,
        decision: "allowed"@,
        via: "allow:"@ + rule,
    }
}

/// How a request starts under `id`.
pub open spec fn begun_by(p: PlanView, id: Seq<char>, cwd: Seq<char>) -> BegunView {
    match p {
        PlanView::Refuse(s) => BegunView::Refuse(s),
        PlanView::Pass { rule, label, provenance, run } => BegunView::Run {
            run,
            audit: passed_audit(id, rule, label, provenance, cwd),
        },
        PlanView::Gate(g) => BegunView::Gated(fulfil::begun(id, g)),
    }
}

/// One lease of the list that is shown. The caller is left empty: a lease keeps
/// the grant key, not where it came from.
#[derive(Debug, Clone, PartialEq, Eq)]
pub struct LeaseRow {
    pub grant_hex: String,
    pub caller: String,
    pub account: String,
    pub scope: String,
    pub granted_ms: u64,
    pub expires_ms: u64,
}

/// A shown lease as plain values.
#[verifier::ext_equal]
pub struct LeaseRowView {
    pub grant_hex: Seq<char>,
    pub caller: Seq<char>,
    pub account: Seq<char>,
    pub scope: Seq<char>,
    pub granted_ms: int,
    pub expires_ms: int,
}

impl View for LeaseRow {
    type V = LeaseRowView;

    open spec fn view(&self) -> LeaseRowView {
        LeaseRowView {
            grant_hex: self.grant_hex@,
            caller: self.caller@,
            account: self.account@,
            scope: self.scope@,
            granted_ms: self.granted_ms as int,
            expires_ms: self.expires_ms as int,
        }
    }
}

/// The whole milliseconds of a length of time, as far as 64 bits hold them.
pub open spec fn whole_ms(nanos: int) -> int {
    (nanos / 1_000_000) % 0x1_0000_0000_0000_0000
}

/// A lease as it is shown at `now_ms`: its times on the wall clock.
pub open spec fn lease_row(now_ms: int, i: InfoView) -> LeaseRowView {
    LeaseRowView {
        grant_hex: i.grant_hex,
        caller: Seq::empty(),
        account: i.account,
        scope: i.scope,
        granted_ms: if now_ms >= whole_ms(i.age) {
            now_ms - whole_ms(i.age)
        } else {
            0
        },
        expires_ms: now_ms + whole_ms(i.remaining),
    }
}

fn millis_of(nanos: u128) -> (r: u64)
    ensures
        r == whole_ms(nanos as int),
{
    let whole: u128 = (nanos / 1_000_000) % 0x1_0000_0000_0000_0000;
    whole as u64
}

/// The leases as they are shown at `now_ms`.
pub fn leases_json(now_ms: u64, leases: Vec<LeaseInfo>) -> (r: Vec<LeaseRow>)
    requires
        forall|i: int|
            0 <= i < leases@.len() ==> now_ms + whole_ms(
                (#[trigger] leases@[i]).remaining.nanos as int,
            ) <= u64::MAX,
    ensures
        r@.len() == leases@.len(),
        forall|i: int|
            0 <= i < r@.len() ==> (#[trigger] r@[i])@ == lease_row(now_ms as int, leases@[i]@),
{
    let mut out: Vec<LeaseRow> = Vec::new();
    let mut i: usize = 0;
    while i < leases.len()
        invariant
            i <= leases.len(),
            out@.len() == i,
            forall|i: int|
                0 <= i < leases@.len() ==> now_ms + whole_ms(
                    (#[trigger] leases@[i]).remaining.nanos as int,
                ) <= u64::MAX,
            forall|k: int|
                0 <= k < i ==> (#[trigger] out@[k])@ == lease_row(now_ms as int, leases@[k]@),
        decreases leases.len() - i,
    {
        let l = &leases[i];
        let age: u64 = millis_of(l.age.nanos);
        let remaining: u64 = millis_of(l.remaining.nanos);
        let row = LeaseRow {
            grant_hex: l.grant_hex.clone(),
            caller: String::new(),
            account: l.account.clone(),
            scope: l.scope.clone(),
            granted_ms: now_ms.saturating_sub(age),
            expires_ms: now_ms + remaining,
        };
        assert(row@ =~= lease_row(now_ms as int, leases@[i as int]@));
        out.push(row);
        i += 1;
    }
    out
}

/// What a client asks of the daemon.
pub enum Frame {
    Run { argv: Vec<String>, cwd: String, proxy_depth: u32 },
    Approve { id: String, lease: bool },
    Deny { id: String },
    LeaseRevoke { prefix: String },
    Status,
    Doctor,
    LeaseList,
    Pending,
    History,
    KeystoreUnwrapRequest,
    KeystoreUnwrapDone { nonce: String, ok: bool, reason: String },
    SubscribePending,
    SubscribeKeystore,
    KeystoreProvision { len: u64 },
    SealThreshold { id: String, len: u64 },
}

/// What a frame leads to.
pub enum Handled {
    /// Answer, and log.
    Answer { reply: Reply, log: Option<String> },
    /// Carry a request through on the caller's descriptors.
    Fulfil { argv: Vec<String>, cwd: String, depth: u32 },
    /// Hand a decision to the pending request of this id.
    Resolve { id: String, decision: Decision },
    Status,
    Doctor,
    LeaseList,
    Pending,
    History,
    UnwrapRequest,
    UnwrapDone { nonce: String, ok: bool, reason: String },
    StreamPending,
    StreamKeystore,
    Provision { len: u64 },
    Seal { id: String, len: u64 },
}

/// What is said of a run that brings another number of descriptors than three.
pub open spec fn descriptors_text(n: nat) -> Seq<char> {
    "sigil daemon: refusing a Run frame carrying "@ + text::decimal(n)
        + " descriptor(s); expected 3 (stdin, stdout, stderr)"@
}

/// What is answered to a revocation.
pub open spec fn revoked_reply(n: nat) -> ReplyView {
    reply::said(n > 0, "revoked "@ + text::decimal(n) + " lease(s)"@)
}

impl Core {
    /// What a frame leads to, where `fds` descriptors came with it. A run is
    /// carried through only with exactly three: with fewer, an output of the child
    /// could end in the daemon's own log.
    pub fn handle_conn(&mut self, frame: Frame, fds: usize) -> (r: Handled)
        ensures
            match frame {
                Frame::Run { argv, cwd, proxy_depth } => if fds == 3 {
                    r == (Handled::Fulfil { argv, cwd, depth: proxy_depth }) && *final(self)
                        == *old(self)
                } else {
                    (r matches Handled::Answer { reply, log } && reply@ == (ReplyView::Exit {
                        code: 1,
                    }) && text::maybe_text(log) == Some(descriptors_text(fds as nat)))
                        && *final(self) == *old(self)
                },
                Frame::Approve { id, lease } => (r matches Handled::Resolve { id: i, decision } && i
                    == id && decision == (if lease {
                    Decision::Lease(old(self).lease_ttl)
                } else {
                    Decision::Approve
                })) && *final(self) == *old(self),
                Frame::Deny { id } => r == (Handled::Resolve { id, decision: Decision::Deny })
                    && *final(self) == *old(self),
                Frame::LeaseRevoke { prefix } => {
                    &&& final(self).leases@ == store::without_prefix(old(self).leases@, prefix@)
                    &&& *final(self) == (Core { leases: final(self).leases, ..*old(self) })
                    &&& r matches Handled::Answer { reply, log } && log is None && reply@
                        == revoked_reply(
                        (old(self).leases@.len() - final(self).leases@.len()) as nat,
                    )
                },
                Frame::Status => r is Status && *final(self) == *old(self),
                Frame::Doctor => r is Doctor && *final(self) == *old(self),
                Frame::LeaseList => r is LeaseList && *final(self) == *old(self),
                Frame::Pending => r is Pending && *final(self) == *old(self),
                Frame::History => r is History && *final(self) == *old(self),
                Frame::KeystoreUnwrapRequest => r is UnwrapRequest && *final(self) == *old(self),
                Frame::KeystoreUnwrapDone { nonce, ok, reason } => r == (Handled::UnwrapDone {
                    nonce,
                    ok,
                    reason,
                }) && *final(self) == *old(self),
                Frame::SubscribePending => r is StreamPending && *final(self) == *old(self),
                Frame::SubscribeKeystore => r is StreamKeystore && *final(self) == *old(self),
                Frame::KeystoreProvision { len } => r == (Handled::Provision { len })
                    && *final(self) == *old(self),
                Frame::SealThreshold { id, len } => r == (Handled::Seal { id, len })
                    && *final(self) == *old(self),
            },
    {
        match frame {
            Frame::Run { argv, cwd, proxy_depth } => {
                if fds != 3 {
                    let mut s = String::new();
                    s.append("sigil daemon: refusing a Run frame carrying ");
                    text::push_decimal(&mut s, fds as u128);
                    s.append(" descriptor(s); expected 3 (stdin, stdout, stderr)");
                    assert(s@ =~= descriptors_text(fds as nat));
                    return Handled::Answer { reply: Reply::Exit { code: 1 }, log: Some(s) };
                }
                Handled::Fulfil { argv, cwd, depth: proxy_depth }
            },
            Frame::Approve { id, lease } => {
                let decision = if lease {
                    Decision::Lease(self.lease_ttl)
                } else {
                    Decision::Approve
                };
                Handled::Resolve { id, decision }
            },
            Frame::Deny { id } => Handled::Resolve { id, decision: Decision::Deny },
            Frame::LeaseRevoke { prefix } => {
                let n: usize = self.leases.revoke(prefix.as_str());
                let mut s = String::new();
                s.append("revoked ");
                text::push_decimal(&mut s, n as u128);
                s.append(" lease(s)");
                assert(s@ =~= "revoked "@ + text::decimal(n as nat) + " lease(s)"@);
                Handled::Answer { reply: control_line(n > 0, s), log: None }
            },
            Frame::Status => Handled::Status,
            Frame::Doctor => Handled::Doctor,
            Frame::LeaseList => Handled::LeaseList,
            Frame::Pending => Handled::Pending,
            Frame::History => Handled::History,
            Frame::KeystoreUnwrapRequest => Handled::UnwrapRequest,
            Frame::KeystoreUnwrapDone { nonce, ok, reason } => Handled::UnwrapDone {
                nonce,
                ok,
                reason,
            },
            Frame::SubscribePending => Handled::StreamPending,
            Frame::SubscribeKeystore => Handled::StreamKeystore,
            Frame::KeystoreProvision { len } => Handled::Provision { len },
            Frame::SealThreshold { id, len } => Handled::Seal { id, len },
        }
    }
}

/// What is answered where a decision was handed to a pending request, given
/// whether there was one.
pub fn resolved_reply(decision: Decision, found: bool) -> (r: Reply)
    ensures
        r@ == reply::said(
            found,
            if !found {
                "no pending request with that id"@
            } else if decision is Deny {
                "deny delivered"@
            } else {
                "approval delivered"@
            },
        ),
{
    if !found {
        control_reply(false, "no pending request with that id")
    } else if decision.is_grant() {
        control_reply(true, "approval delivered")
    } else {
        control_reply(true, "deny delivered")
    }
}

/// A request starts as it was planned: a refusal is answered with its reason, a
/// command that an allow rule lets through runs as it was planned and is logged under
/// that rule, and a gated one starts at its first step, with nothing opened and under
/// no window.
pub proof fn a_request_starts_as_planned(p: PlanView, id: Seq<char>, cwd: Seq<char>)
    ensures
        p matches PlanView::Refuse(s) ==> begun_by(p, id, cwd) == BegunView::Refuse(s),
        p matches PlanView::Pass { rule, label, provenance, run } ==> (begun_by(
            p,
            id,
            cwd,
        ) matches BegunView::Run { run: r, audit } && {
            &&& r == run
            &&& audit.id == id
            &&& audit.label == label
            &&& audit.process == provenance
            &&& audit.cwd == cwd
            &&& audit.decision == "allowed"@
            &&& text::occurs_in(audit.via, rule)
            &&& audit.kind is SecretRead
        }),
        p matches PlanView::Gate(g) ==> (begun_by(p, id, cwd) matches BegunView::Gated(f) && {
            &&& f.id == id
            &&& f.gate == g
            &&& f.window is None
            &&& f.refs.len() == 0
            &&& f.kind is SecretRead
            &&& f.stage == fulfil::Stage::Describe
        }),
{
    broadcast use text::parts_stand_in;

}

/// A shown window keeps its times: it was opened as many whole milliseconds ago as it
/// is old, and ends in as many as it has left, as far as the clock reaches back.
pub proof fn a_shown_window_keeps_its_times(now_ms: int, i: InfoView)
    requires
        0 <= now_ms,
        0 <= i.age < 0x1_0000_0000_0000_0000 * 1_000_000,
        0 <= i.remaining < 0x1_0000_0000_0000_0000 * 1_000_000,
    ensures
        ({
            let row = lease_row(now_ms, i);
            let old_ms = now_ms - row.granted_ms;
            let left_ms = row.expires_ms - now_ms;
            &&& row.granted_ms <= now_ms <= row.expires_ms
            &&& left_ms * 1_000_000 <= i.remaining < (left_ms + 1) * 1_000_000
            &&& i.age <= now_ms * 1_000_000 ==> old_ms * 1_000_000 <= i.age < (old_ms + 1)
                * 1_000_000
            &&& (now_ms + 1) * 1_000_000 <= i.age ==> row.granted_ms == 0
            &&& row.grant_hex == i.grant_hex
            &&& row.account == i.account
            &&& row.scope == i.scope
            &&& row.caller.len() == 0
        }),
{
}

/// Whatever could not be read when the daemon was armed is said, with the reason, and
/// nothing else is.
pub proof fn what_could_not_be_read_is_said(l: Loaded)
    ensures
        loaded_lines(l).len() == (if l.stranded is Some {
            1int
        } else {
            0
        }) + (if l.seal@.why(false) is Some {
            1int
        } else {
            0
        }) + (if l.sealed is Err {
            1int
        } else {
            0
        }) + (if l.pairings is Err {
            1int
        } else {
            0
        }) + (if l.ssh_fault is Some {
            1int
        } else {
            0
        }) + (if l.config is Err {
            1int
        } else {
            0
        }),
        l.stranded matches Some(e) ==> some_line_says(loaded_lines(l), e@),
        l.seal@.why(false) matches Some(e) ==> some_line_says(loaded_lines(l), e),
        l.sealed matches Err(e) ==> some_line_says(loaded_lines(l), e@),
        l.pairings matches Err(e) ==> some_line_says(loaded_lines(l), e@),
        l.ssh_fault matches Some(e) ==> some_line_says(loaded_lines(l), e@),
        l.config matches Err(e) ==> some_line_says(loaded_lines(l), e@),
{
    let parts = parts_of(l);
    six_in_a_row(parts);
    assert(loaded_lines(l) =~= parts[0] + parts[1] + parts[2] + parts[3] + parts[4] + parts[5]);
    assert forall|k: int, w: Seq<char>|
        0 <= k < 6 && #[trigger] some_line_says(parts[k], w) implies some_line_says(
        loaded_lines(l),
        w,
    ) by {}
    if let Some(e) = l.stranded {
        a_line_says_it(e@, Seq::empty());
        assert(some_line_says(parts[0], e@));
    }
    if let Some(e) = l.seal@.why(false) {
        a_line_says_it(e, "sigil daemon: "@);
        assert(some_line_says(parts[1], e));
    }
    if let Err(e) = l.sealed {
        a_line_says_it(e@, "sigil daemon: ignoring an unreadable threshold store: "@);
        assert(some_line_says(parts[2], e@));
    }
    if let Err(e) = l.pairings {
        a_line_says_it(e@, "sigil daemon: ignoring an unreadable pairing config: "@);
        assert(some_line_says(parts[3], e@));
    }
    if let Some(e) = l.ssh_fault {
        a_line_says_it(e@, "sigil daemon: ignoring an unreadable ssh-keys config: "@);
        assert(some_line_says(parts[4], e@));
    }
    if let Err(e) = l.config {
        a_line_says_it(e@, "sigil daemon: ignoring an unreadable config: "@);
        assert(some_line_says(parts[5], e@));
    }
}

/// The lines of each thing that was loaded.
spec fn parts_of(l: Loaded) -> Seq<Seq<Seq<char>>> {
    seq![
        line_of(text::maybe_text(l.stranded), Seq::empty()),
        line_of(l.seal@.why(false), "sigil daemon: "@),
        line_of(
            match l.sealed {
                Ok(_) => None,
                Err(e) => Some(e@),
            },
            "sigil daemon: ignoring an unreadable threshold store: "@,
        ),
        line_of(
            match l.pairings {
                Ok(_) => None,
                Err(e) => Some(e@),
            },
            "sigil daemon: ignoring an unreadable pairing config: "@,
        ),
        line_of(
            text::maybe_text(l.ssh_fault),
            "sigil daemon: ignoring an unreadable ssh-keys config: "@,
        ),
        line_of(
            match l.config {
                Ok(_) => None,
                Err(e) => Some(e@),
            },
            "sigil daemon: ignoring an unreadable config: "@,
        ),
    ]
}

proof fn six_in_a_row(p: Seq<Seq<Seq<char>>>)
    requires
        p.len() == 6,
    ensures
        forall|k: int, w: Seq<char>|
            0 <= k < 6 && #[trigger] some_line_says(p[k], w) ==> some_line_says(
                p[0] + p[1] + p[2] + p[3] + p[4] + p[5],
                w,
            ),
{
    assert forall|k: int, w: Seq<char>|
        0 <= k < 6 && #[trigger] some_line_says(p[k], w) implies some_line_says(
        p[0] + p[1] + p[2] + p[3] + p[4] + p[5],
        w,
    ) by {
        let i = choose|i: int| 0 <= i < p[k].len() && text::occurs_in(#[trigger] p[k][i], w);
        let all = p[0] + p[1] + p[2] + p[3] + p[4] + p[5];
        let at = i + (if k > 0 {
            p[0].len()
        } else {
            0
        }) + (if k > 1 {
            p[1].len()
        } else {
            0
        }) + (if k > 2 {
            p[2].len()
        } else {
            0
        }) + (if k > 3 {
            p[3].len()
        } else {
            0
        }) + (if k > 4 {
            p[4].len()
        } else {
            0
        });
        assert(all[at] == p[k][i]);
    }
}

proof fn a_line_says_it(what: Seq<char>, lead: Seq<char>)
    ensures
        some_line_says(line_of(Some(what), lead), what),
{
    broadcast use text::parts_stand_in;

    let line = line_of(Some(what), lead);
    assert(line[0] == lead + what);
    assert(text::occurs_in(line[0], what));
}

/// Some line says this.
pub open spec fn some_line_says(lines: Seq<Seq<char>>, what: Seq<char>) -> bool {
    exists|i: int| 0 <= i < lines.len() && text::occurs_in(#[trigger] lines[i], what)
}

/// The daemon arms with a phone where one is paired, and never takes an unreadable
/// pairing for one; else with the biometric check where the host has it; else with
/// the insecure switch where that is set; and else with nothing.
pub proof fn the_factor_is_of_what_was_loaded(l: Loaded)
    ensures
        armed_factor(l) == Factor::Phone <==> (l.pairings matches Ok(p) && p@.len() > 0),
        armed_factor(l) == Factor::DevInsecure ==> l.dev_insecure && !l.biometric,
        armed_factor(l) == Factor::Biometric ==> l.biometric,
        armed_factor(l) == Factor::NoFactor ==> !l.biometric && !l.dev_insecure,
        l.pairings is Err ==> armed_factor(l) != Factor::Phone && paired(l).len() == 0,
        l.pairings matches Ok(p) ==> paired(l).len() == p@.len(),
{
}

/// Putting a config in force changes the config and the windows and nothing else: the
/// config is the one that was loaded, under a later generation, and a window that is
/// left was open before. One that could not be loaded changes nothing at all.
pub proof fn a_reload_touches_config_and_windows_alone(
    before: Core,
    after: Core,
    now: int,
    loaded: Result<Config, String>,
    r: Result<Vec<String>, String>,
    l: store::LeaseView,
)
    requires
        Core::reloaded(before, after, now, loaded, r),
    ensures
        loaded is Ok <==> r is Ok,
        loaded matches Err(e) ==> after == before && (r matches Err(f) && f == e),
        loaded matches Ok(c) ==> {
            &&& after.config.config == c
            &&& before.config.generation < u64::MAX ==> after.config.generation
                > before.config.generation
            &&& after.vault == before.vault && after.sealed == before.sealed
            &&& after.providers == before.providers && after.max_depth == before.max_depth
            &&& after.lease_ttl == before.lease_ttl && after.factor == before.factor
            &&& after.audit == before.audit && after.unwraps == before.unwraps
            &&& after.notices == before.notices && after.shadows == before.shadows
            &&& after.leases@.contains(l) ==> before.leases@.contains(l)
        },
{
    if let Ok(c) = loaded {
        let old_config = before.config.config@;
        let n = old_config.rules.len() as int;
        let live = store::live(before.leases@, now);
        lists::filter_members(
            live,
            |l: store::LeaseView| !reload::name_moved(old_config, c@, l.binding.scope, n),
        );
        if after.leases@.contains(l) {
            lists::filter_members(before.leases@, |l: store::LeaseView| l.expires > now);
            assert(live.contains(l));
        }
    }
}

/// A decision rests on the state that the daemon holds, all of it.
pub proof fn the_world_is_the_daemons_own(core_state: Core)
    ensures
        core_state.world().max_depth == core_state.max_depth,
        core_state.world().vault == core_state.vault@,
        core_state.world().config == core_state.config.config@,
        core_state.world().generation == core_state.config.generation,
        core_state.world().sealed == core_state.sealed@,
        core_state.world().providers.len() == core_state.providers@.len(),
        forall|i: int|
            0 <= i < core_state.providers@.len() ==> #[trigger] core_state.world().providers[i]
                == core_state.providers@[i]@,
{
}

/// What is answered to a revocation says how many windows it ended, and is a success
/// exactly where it ended one; a refused run says how many descriptors it brought.
pub proof fn a_revocation_says_how_many(n: nat, fds: nat)
    ensures
        revoked_reply(n) matches ReplyView::Control { ok, lines } && (ok <==> n > 0) && lines.len()
            == 1 && text::occurs_in(lines[0], text::decimal(n)),
        text::occurs_in(descriptors_text(fds), text::decimal(fds)),
{
    broadcast use text::parts_stand_in;

}

/// A request starts with all that was asked: what runs at once, and what is gated, has
/// every argument in order, and comes from the directory it was asked in.
pub proof fn a_request_starts_with_every_argument(
    c: &Core,
    id: String,
    argv: &[String],
    cwd: &str,
    depth: u32,
    caller: &Caller,
    r: Begun,
    i: int,
)
    requires
        call_ensures(Core::fulfil_as, (c, id, argv, cwd, depth, caller), r),
    ensures
        r matches Begun::Run { run, audit } ==> run.command@.len() == argv@.len() && run.cwd@ == cwd@
            && audit.id@ == id@ && audit.cwd@ == cwd@ && (0 <= i < argv@.len() ==> run.command@[i]@
            == argv@[i]@),
        r matches Begun::Gated(f) ==> f.gate.argv@.len() == argv@.len() && f.gate.cwd@ == cwd@
            && f.id@ == id@ && f.window is None && (0 <= i < argv@.len() ==> f.gate.argv@[i]@
            == argv@[i]@),
{
    let a = AskedView { argv: text::texts(argv@), cwd: cwd@, depth, chain: caller@ };
    let p = plan::planned(c.world(), a);
    plan::a_plan_is_of_the_request(c.world(), a);
    a_request_starts_as_planned(p, id@, cwd@);
    if let Begun::Run { run, audit } = r {
        assert(run@.command == a.argv);
        assert(run@.command.len() == run.command@.len());
        assert(audit@.id == id@);
        if 0 <= i < argv@.len() {
            assert(run@.command[i] == a.argv[i]);
        }
    }
    if let Begun::Gated(f) = r {
        assert(f@.gate.argv == a.argv);
        assert(f@.gate.argv.len() == f.gate.argv@.len());
        if 0 <= i < argv@.len() {
            assert(f@.gate.argv[i] == a.argv[i]);
        }
    }
}

/// A frame leads to what it asks for and to nothing else: a request is carried through
/// only where it brought its three descriptors, and then as it came; a decision goes to
/// the request of its id, as it was made; and only a revocation changes the state, and
/// of that only the windows, of which it leaves exactly those that it does not name.
pub proof fn a_frame_leads_to_what_it_asks_for(
    c: &mut Core,
    frame: Frame,
    fds: usize,
    r: Handled,
    l: store::LeaseView,
)
    requires
        call_ensures(Core::handle_conn, (c, frame, fds), r),
    ensures
        r matches Handled::Fulfil { argv, cwd, depth } ==> fds == 3 && frame == (Frame::Run {
            argv,
            cwd,
            proxy_depth: depth,
        }),
        frame is Run && fds != 3 ==> (r matches Handled::Answer { reply, log } && log is Some
            && reply@ == (ReplyView::Exit { code: 1 })),
        r matches Handled::Resolve { id, decision } ==> match decision {
            Decision::Deny => frame == (Frame::Deny { id }),
            Decision::Approve => frame == (Frame::Approve { id, lease: false }),
            Decision::Lease(ttl) => frame == (Frame::Approve { id, lease: true }) && ttl == old(
                c,
            ).lease_ttl,
        },
        !(frame is LeaseRevoke) ==> *final(c) == *old(c),
        frame matches Frame::LeaseRevoke { prefix } ==> {
            &&& final(c).leases@.contains(l) <==> old(c).leases@.contains(l)
                && !prefix@.is_prefix_of(crate::bytes::hex_of(l.grant))
            &&& final(c).config == old(c).config && final(c).sealed == old(c).sealed
            &&& final(c).vault == old(c).vault && final(c).factor == old(c).factor
        },
{
    if let Frame::LeaseRevoke { prefix } = frame {
        lists::filter_members(
            old(c).leases@,
            |l: store::LeaseView| !prefix@.is_prefix_of(crate::bytes::hex_of(l.grant)),
        );
    }
}

/// A daemon arms with what was loaded: no window is open, nothing is provisioned, what
/// could not be read is taken for empty, a window from the control socket is fifteen
/// minutes long, and the audit log is kept for as long as it was set to, else for thirty
/// days.
pub proof fn a_daemon_arms_with_what_was_loaded(
    l: Loaded,
    r: (Core, Vec<RemotePairingConfig>, Vec<String>),
)
    requires
        call_ensures(Core::for_host, (l,), r),
    ensures
        r.0.leases@.len() == 0,
        !r.0.vault@.provisioned && r.0.vault@.seal == l.seal@,
        l.sealed matches Ok(s) ==> r.0.sealed@ == s@,
        l.sealed is Err ==> r.0.sealed@.len() == 0,
        l.config matches Ok(c) ==> r.0.config.config@ == c@,
        l.config is Err ==> r.0.config.config@.rules.len() == 0,
        r.0.lease_ttl.nanos == 900 * 1_000_000_000,
        l.retention_days is None ==> r.0.audit == Some(30u32),
        l.retention_days is Some ==> r.0.audit == l.retention_days,
        r.0.max_depth == l.max_depth && r.0.providers == l.providers,
        r.0.unwraps@.open.len() == 0,
        l.pairings matches Ok(p) ==> lists::views(r.1@) == lists::views(p@),
        l.pairings is Err ==> lists::views(r.1@).len() == 0,
{
}

/// The audit log tells the factors apart.
pub proof fn the_log_tells_the_factors_apart(a: Core, b: Core)
    ensures
        a.via() == b.via() <==> a.factor == b.factor,
{
    reveal_strlit("phone");
    reveal_strlit("biometric");
    reveal_strlit("dev");
    reveal_strlit("none");
    assert("phone"@[0] == 'p');
    assert("biometric"@[0] == 'b');
    assert("dev"@[0] == 'd');
    assert("none"@[0] == 'n');
}

} // verus!
