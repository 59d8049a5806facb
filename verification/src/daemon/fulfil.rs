//! Carrying a gated run through: the cached window, the approval, the sealed
//! values, and the window that the approval opens.
//!
//! What is read, asked and run is done outside; this decides what comes next.
use crate::bytes;
use crate::clock;
use crate::clock::Span;
use crate::config::ENV_PROVIDER;
use crate::daemon::env;
use crate::daemon::env::{env_keys_match, leased_env, plain_beside};
use crate::daemon::plan::{GateView, GatedRun};
use crate::daemon::request;
use crate::daemon::request::{
    audit_label, challenge, copy_refs, ApprovalContext, AuditEntry, AuditView, ContextView,
    KindView, RefView, RequestKind, RunPlan, RunView, SecretRef,
};
use crate::daemon::sealed::{RecordView, SealedRecord};
use crate::lease::store;
use crate::lease::store::{hex32, GrantView, LeaseStore, LeaseView};
use crate::lists;
use crate::secrets::Token;
use crate::text;
use vstd::prelude::*;
use vstd::string::*;

verus! {

/// What the approver decided.
#[derive(Debug, Clone, Copy, PartialEq, Eq, Structural)]
pub enum Decision {
    Deny,
    Approve,
    /// Approve, and open a window of this length.
    Lease(Span),
}

impl Decision {
    /// Whether it grants the request.
    pub fn is_grant(&self) -> (r: bool)
        ensures
            r == !(*self is Deny),
    {
        !matches!(self, Decision::Deny)
    }

    /// The length of the window that the approver asks for.
    pub open spec fn window(self) -> Option<u128> {
        match self {
            Decision::Lease(s) => Some(s.nanos),
            _ => None,
        }
    }

    /// The length of the window that the approver asks for, in nanoseconds.
    pub fn lease_ttl(&self) -> (r: Option<u128>)
        ensures
            r == self.window(),
    {
        match self {
            Decision::Lease(s) => Some(s.nanos),
            _ => None,
        }
    }
}

/// What opening the sealed values came to, as far as it got.
pub enum Opening {
    /// The daemon has no share of its own.
    ShareMissing,
    /// The daemon's share could not be loaded.
    ShareFailed(String),
    /// The record could not be opened.
    DecryptFailed(String),
    /// What came out is no list of variables.
    Corrupt,
    /// The variables, and the bytes they were decoded from. Both are wiped when they
    /// are dropped.
    Values { pairs: Vec<(String, Token)>, plain: Token },
}

/// What opening came to, as plain values.
#[verifier::ext_equal]
pub enum OpeningView {
    ShareMissing,
    ShareFailed(Seq<char>),
    DecryptFailed(Seq<char>),
    Corrupt,
    Values { pairs: Seq<(Seq<char>, Seq<u8>)>, plain: Seq<u8> },
}

impl View for Opening {
    type V = OpeningView;

    open spec fn view(&self) -> OpeningView {
        match self {
            Opening::ShareMissing => OpeningView::ShareMissing,
            Opening::ShareFailed(e) => OpeningView::ShareFailed(e@),
            Opening::DecryptFailed(e) => OpeningView::DecryptFailed(e@),
            Opening::Corrupt => OpeningView::Corrupt,
            Opening::Values { pairs, plain } => OpeningView::Values {
                pairs: env::pair_secrets(pairs@),
                plain: plain@,
            },
        }
    }
}

/// Said where an approval brings nothing to open sealed values with.
pub const NO_PARTIAL: &'static str =
    "sigil: approval carried no threshold partial; no phone factor?\n";

/// Said where sealed values set other names than were approved.
pub const KEYS_NOT_APPROVED: &'static str =
    "sigil: inline env keys do not match what was approved; refusing (re-set the source's values)\n";

/// What opening yields: the variables with the bytes they came from, where they
/// set exactly the names that were consented to, or why nothing runs.
pub open spec fn opened(o: OpeningView, consented: Seq<Seq<char>>) -> Result<
    (Seq<(Seq<char>, Seq<u8>)>, Seq<u8>),
    Seq<char>,
> {
    match o {
        OpeningView::ShareMissing => Err(
            "sigil: no Mac threshold share on this daemon; re-pair\n"@,
        ),
        OpeningView::ShareFailed(e) => Err("sigil: "@ + e + "\n"@),
        OpeningView::DecryptFailed(e) => Err("sigil env decrypt failed: "@ + e + "\n"@),
        OpeningView::Corrupt => Err("sigil: inline env blob is corrupt; re-set it\n"@),
        OpeningView::Values { pairs, plain } => if env::keys_match(pairs, consented) {
            Ok((pairs, plain))
        } else {
            Err(KEYS_NOT_APPROVED@)
        },
    }
}

fn around(lead: &str, why: &str) -> (r: String)
    ensures
        r@ == lead@ + why@ + "\n"@,
{
    let mut s = String::new();
    s.append(lead);
    s.append(why);
    s.append("\n");
    assert(s@ =~= lead@ + why@ + "\n"@);
    s
}

/// What opening yields, or why nothing runs.
pub fn judge_opening(o: Opening, consented: &[String]) -> (r: Result<
    (Vec<(String, Token)>, Token),
    String,
>)
    ensures
        match r {
            Ok((pairs, plain)) => opened(o@, text::texts(consented@)) == Ok::<
                (Seq<(Seq<char>, Seq<u8>)>, Seq<u8>),
                Seq<char>,
            >((env::pair_secrets(pairs@), plain@)),
            Err(e) => opened(o@, text::texts(consented@)) == Err::<
                (Seq<(Seq<char>, Seq<u8>)>, Seq<u8>),
                Seq<char>,
            >(e@),
        },
{
    match o {
        Opening::ShareMissing => Err(
            "sigil: no Mac threshold share on this daemon; re-pair\n".to_owned(),
        ),
        Opening::ShareFailed(e) => Err(around("sigil: ", e.as_str())),
        Opening::DecryptFailed(e) => Err(around("sigil env decrypt failed: ", e.as_str())),
        Opening::Corrupt => Err("sigil: inline env blob is corrupt; re-set it\n".to_owned()),
        Opening::Values { pairs, plain } => {
            if env_keys_match(pairs.as_slice(), consented) {
                Ok((pairs, plain))
            } else {
                Err(KEYS_NOT_APPROVED.to_owned())
            }
        },
    }
}

/// Where a gated run stands.
#[derive(Debug, Clone, Copy, PartialEq, Eq, Structural)]
pub enum Stage {
    /// The provider is to say what the request reads.
    Describe,
    /// A window answers; what it caches is to be decoded.
    Decode,
    /// The approver is to decide.
    Approve,
    /// The sealed values are to be opened.
    Open,
    /// It runs, or it was refused.
    Ended,
}

/// What a step came to.
pub enum Told {
    Described { refs: Vec<SecretRef>, kind: RequestKind },
    Decoded(Option<Vec<(String, Token)>>),
    /// The decision, and whether the approval carries what opens sealed values.
    Decided { decision: Decision, partial: bool },
    Opened(Opening),
}

/// What a step came to, as plain values.
#[verifier::ext_equal]
pub enum ToldView {
    Described { refs: Seq<RefView>, kind: KindView },
    Decoded(Option<Seq<(Seq<char>, Seq<u8>)>>),
    Decided { decision: Decision, partial: bool },
    Opened(OpeningView),
}

impl View for Told {
    type V = ToldView;

    open spec fn view(&self) -> ToldView {
        match self {
            Told::Described { refs, kind } => ToldView::Described {
                refs: lists::views(refs@),
                kind: kind@,
            },
            Told::Decoded(p) => ToldView::Decoded(env::maybe_pairs(*p)),
            Told::Decided { decision, partial } => ToldView::Decided {
                decision: *decision,
                partial: *partial,
            },
            Told::Opened(o) => ToldView::Opened(o@),
        }
    }
}

/// Whether this is what the stage waits for.
pub open spec fn fits(stage: Stage, told: ToldView) -> bool {
    match stage {
        Stage::Describe => told is Described,
        Stage::Decode => told is Decoded,
        Stage::Approve => told is Decided,
        Stage::Open => told is Opened,
        Stage::Ended => false,
    }
}

/// A gated run on its way.
#[verifier::ext_equal]
pub struct RunningView {
    pub id: Seq<char>,
    pub gate: GateView,
    pub refs: Seq<RefView>,
    pub kind: KindView,
    pub window: Option<u128>,
    pub stage: Stage,
}

/// What is to be done next.
#[verifier::ext_equal]
pub enum NextView {
    /// Decode what a window caches.
    Decode(Seq<u8>),
    /// Ask the approver; requests under one key share one answer.
    Approve { coalesce: Seq<u8>, context: ContextView },
    /// Open the sealed record.
    Open(RecordView),
    /// Say why nothing runs, and exit with one.
    Refuse { message: Seq<char>, audit: Option<AuditView> },
    /// Run.
    Run { run: RunView, audit: AuditView },
}

/// What the approver is asked.
pub open spec fn context_of(f: RunningView) -> ContextView {
    ContextView {
        id: f.id,
        account: f.gate.account,
        scope: f.gate.scope,
        grant_hex: bytes::hex_of(f.gate.grant),
        provenance: f.gate.provenance,
        cwd: f.gate.cwd,
        command: f.gate.argv,
        secret_refs: f.refs,
        kind: f.kind,
        lease: f.gate.action.lease,
        ssh: None,
        threshold: match f.gate.record {
            Some(r) => Some(request::challenge_of(r, f.gate.account)),
            None => None,
        },
    }
}

/// What the audit log says of the run.
pub open spec fn audit_of(f: RunningView, decision: Seq<char>, via: Seq<char>) -> AuditView {
    AuditView {
        id: f.id,
        kind: f.kind,
        label: request::audit_label_of(f.refs, f.gate.scope),
        account: f.gate.account,
        process: f.gate.provenance,
        cwd: f.gate.cwd,
        decision,
        via,
    }
}

/// What runs with these sealed variables. A provider of sealed values that has
/// none to inject runs the command directly; the plain variables stay beside what
/// is injected, which wins on a name that both have.
pub open spec fn run_of(g: GateView, sealed: Option<Seq<(Seq<char>, Seq<u8>)>>) -> RunView {
    RunView {
        provider: g.action.provider,
        passthrough: sealed is None && g.action.provider == ENV_PROVIDER@,
        command: g.argv,
        cwd: g.cwd,
        source: match g.action.source_path {
            Some(p) => p,
            None => Seq::empty(),
        },
        env: sealed,
        plain: env::unshadowed(g.action.plain_env, sealed),
        depth: g.depth,
    }
}

/// How many seconds of window an approval opens: what the approver asks for, cut
/// to what the rule allows, and nothing for a run-once rule or a caller without
/// an identity.
pub open spec fn window_secs(g: GateView, window: Option<u128>) -> Option<u32> {
    match window {
        Some(nanos) => if g.may_lease {
            let secs = nanos as int / 1_000_000_000;
            g.action.lease.clamp_secs(
                if secs < u32::MAX {
                    secs as u32
                } else {
                    u32::MAX
                },
            )
        } else {
            None
        },
        None => None,
    }
}

/// The leases once an approval is carried out.
pub open spec fn leases_after(
    g: GateView,
    leases: Seq<LeaseView>,
    now: int,
    lease_id: Seq<u8>,
    window: Option<u128>,
    token: Seq<u8>,
) -> Seq<LeaseView> {
    match window_secs(g, window) {
        Some(secs) => store::granted(
            leases,
            now,
            lease_id,
            GrantView {
                grant: g.grant,
                binding: g.binding,
                covers: g.action.lease.covers(),
                token,
                ttl: secs as int * 1_000_000_000,
            },
        ),
        None => leases,
    }
}

/// What a step leads to: what is next, the leases from then on, and the line that
/// is logged of a window that was dropped.
#[verifier::ext_equal]
pub struct StepView {
    pub next: NextView,
    pub after: RunningView,
    pub leases: Seq<LeaseView>,
    pub log: Option<Seq<char>>,
}

/// Said of a window whose cache cannot be used.
pub open spec fn dropped_text(rule: Seq<char>, why: Seq<char>) -> Seq<char> {
    "sigil daemon: dropping the lease on rule '"@ + rule + "' ("@ + why
        + "); re-approving this run"@
}

/// Ask the approver.
pub open spec fn asks(f: RunningView, leases: Seq<LeaseView>, log: Option<Seq<char>>) -> StepView {
    StepView {
        next: NextView::Approve { coalesce: f.gate.coalesce, context: context_of(f) },
        after: RunningView { stage: Stage::Approve, ..f },
        leases,
        log,
    }
}

/// End with a refusal.
pub open spec fn refuses(
    f: RunningView,
    leases: Seq<LeaseView>,
    message: Seq<char>,
    audit: Option<AuditView>,
) -> StepView {
    StepView {
        next: NextView::Refuse { message, audit },
        after: RunningView { stage: Stage::Ended, ..f },
        leases,
        log: None,
    }
}

/// Run what a window releases.
pub open spec fn runs_leased(
    f: RunningView,
    leases: Seq<LeaseView>,
    sealed: Option<Seq<(Seq<char>, Seq<u8>)>>,
) -> StepView {
    StepView {
        next: NextView::Run {
            run: run_of(f.gate, sealed),
            audit: audit_of(f, "approved"@, "lease"@),
        },
        after: RunningView { stage: Stage::Ended, ..f },
        leases,
        log: None,
    }
}

/// Run what was approved, and open the window that goes with it.
pub open spec fn runs_approved(
    f: RunningView,
    leases: Seq<LeaseView>,
    now: int,
    lease_id: Seq<u8>,
    via: Seq<char>,
    window: Option<u128>,
    sealed: Option<Seq<(Seq<char>, Seq<u8>)>>,
    token: Seq<u8>,
) -> StepView {
    StepView {
        next: NextView::Run {
            run: run_of(f.gate, sealed),
            audit: audit_of(f, "approved"@, via),
        },
        after: RunningView { stage: Stage::Ended, window, ..f },
        leases: leases_after(f.gate, leases, now, lease_id, window, token),
        log: None,
    }
}

/// What a step leads to, at the clock reading `now`; a window that opens gets
/// `lease_id`, and the audit log names `via`.
pub open spec fn stepped(
    f: RunningView,
    leases: Seq<LeaseView>,
    now: int,
    lease_id: Seq<u8>,
    via: Seq<char>,
    told: ToldView,
) -> StepView {
    match told {
        ToldView::Described { refs, kind } => {
            let g = RunningView { refs, kind, ..f };
            if !f.gate.may_lease {
                asks(g, leases, None)
            } else {
                match store::looked_up(leases, now, f.gate.grant, f.gate.binding) {
                    None => asks(g, store::live(leases, now), None),
                    Some(token) => if f.gate.sealed_env {
                        StepView {
                            next: NextView::Decode(token),
                            after: RunningView { stage: Stage::Decode, ..g },
                            leases: store::live(leases, now),
                            log: None,
                        }
                    } else {
                        runs_leased(g, store::live(leases, now), None)
                    },
                }
            }
        },
        ToldView::Decoded(pairs) => match env::released(
            f.gate.sealed_env,
            pairs,
            f.gate.action.env_keys,
        ) {
            Ok(sealed) => runs_leased(f, leases, sealed),
            Err(why) => asks(
                f,
                store::without_scope(leases, f.gate.action.rule),
                Some(dropped_text(f.gate.action.rule, why)),
            ),
        },
        ToldView::Decided { decision, partial } => if decision is Deny {
            refuses(
                f,
                leases,
                "request denied\n"@,
                Some(audit_of(f, "denied"@, Seq::empty())),
            )
        } else {
            match f.gate.record {
                Some(r) => if partial {
                    StepView {
                        next: NextView::Open(r),
                        after: RunningView {
                            stage: Stage::Open,
                            window: decision.window(),
                            ..f
                        },
                        leases,
                        log: None,
                    }
                } else {
                    refuses(f, leases, NO_PARTIAL@, None)
                },
                None => runs_approved(
                    f,
                    leases,
                    now,
                    lease_id,
                    via,
                    decision.window(),
                    None,
                    Seq::empty(),
                ),
            }
        },
        ToldView::Opened(o) => match opened(o, f.gate.action.env_keys) {
            Err(message) => refuses(f, leases, message, None),
            Ok((pairs, plain)) => runs_approved(
                f,
                leases,
                now,
                lease_id,
                via,
                f.window,
                Some(pairs),
                plain,
            ),
        },
    }
}

/// A step came to this.
pub open spec fn came_to(
    s: StepView,
    r: (Next, Option<String>),
    after: RunningView,
    leases: Seq<LeaseView>,
) -> bool {
    &&& r.0@ == s.next
    &&& text::maybe_text(r.1) == s.log
    &&& after == s.after
    &&& leases == s.leases
}

/// What is to be done next.
pub enum Next {
    Decode(Token),
    /// Ask the approver, under the key that requests for the same thing share.
    Approve { coalesce: [u8; 32], context: ApprovalContext },
    Open(SealedRecord),
    Refuse { message: String, audit: Option<AuditEntry> },
    Run { run: RunPlan, audit: AuditEntry },
}

impl View for Next {
    type V = NextView;

    open spec fn view(&self) -> NextView {
        match self {
            Next::Decode(t) => NextView::Decode(t@),
            Next::Approve { coalesce, context } => NextView::Approve {
                coalesce: coalesce@,
                context: context@,
            },
            Next::Open(r) => NextView::Open(r@),
            Next::Refuse { message, audit } => NextView::Refuse {
                message: message@,
                audit: match audit {
                    Some(a) => Some(a@),
                    None => None,
                },
            },
            Next::Run { run, audit } => NextView::Run { run: run@, audit: audit@ },
        }
    }
}

/// A gated run on its way.
pub struct Fulfilment {
    pub id: String,
    pub gate: GatedRun,
    pub refs: Vec<SecretRef>,
    pub kind: RequestKind,
    pub window: Option<u128>,
    pub stage: Stage,
}

impl View for Fulfilment {
    type V = RunningView;

    open spec fn view(&self) -> RunningView {
        RunningView {
            id: self.id@,
            gate: self.gate@,
            refs: lists::views(self.refs@),
            kind: self.kind@,
            window: self.window,
            stage: self.stage,
        }
    }
}

/// A gated run at its start.
pub open spec fn begun(id: Seq<char>, gate: GateView) -> RunningView {
    RunningView {
        id,
        gate,
        refs: Seq::empty(),
        kind: KindView::SecretRead,
        window: None,
        stage: Stage::Describe,
    }
}

impl Fulfilment {
    /// A gated run at its start, under `id`.
    pub fn begin(id: String, gate: GatedRun) -> (r: Fulfilment)
        ensures
            r@ == begun(id@, gate@),
    {
        let r = Fulfilment {
            id,
            gate,
            refs: Vec::new(),
            kind: RequestKind::SecretRead,
            window: None,
            stage: Stage::Describe,
        };
        assert(r@ =~= begun(id@, gate@));
        r
    }

    fn context(&self) -> (r: ApprovalContext)
        ensures
            r@ == context_of(self@),
    {
        let threshold = match &self.gate.record {
            Some(rec) => Some(challenge(rec, self.gate.account.as_str())),
            None => None,
        };
        let r = ApprovalContext {
            id: self.id.clone(),
            account: self.gate.account.clone(),
            scope: self.gate.scope.clone(),
            grant_hex: hex32(&self.gate.grant),
            provenance: self.gate.provenance.clone(),
            cwd: self.gate.cwd.clone(),
            command: text::copy_list(self.gate.argv.as_slice()),
            secret_refs: copy_refs(self.refs.as_slice()),
            kind: self.kind.duplicate(),
            lease: self.gate.action.lease.duplicate(),
            ssh: None,
            threshold,
        };
        assert(r@ =~= context_of(self@));
        r
    }

    fn audit(&self, decision: &str, via: &str) -> (r: AuditEntry)
        ensures
            r@ == audit_of(self@, decision@, via@),
    {
        AuditEntry {
            id: self.id.clone(),
            kind: self.kind.duplicate(),
            label: audit_label(self.refs.as_slice(), self.gate.scope.as_str()),
            account: self.gate.account.clone(),
            process: self.gate.provenance.clone(),
            cwd: self.gate.cwd.clone(),
            decision: decision.to_owned(),
            via: via.to_owned(),
        }
    }

    fn run(&self, sealed: Option<Vec<(String, Token)>>) -> (r: RunPlan)
        ensures
            r@ == run_of(self@.gate, env::maybe_pairs(sealed)),
    {
        let source = match &self.gate.action.source_path {
            Some(p) => p.clone(),
            None => String::new(),
        };
        let passthrough = sealed.is_none() && text::same(
            self.gate.action.provider.as_str(),
            ENV_PROVIDER,
        );
        let plain = plain_beside(self.gate.action.plain_env.as_slice(), &sealed);
        let r = RunPlan {
            provider: self.gate.action.provider.clone(),
            passthrough,
            command: text::copy_list(self.gate.argv.as_slice()),
            cwd: self.gate.cwd.clone(),
            source,
            env: sealed,
            plain,
            depth: self.gate.depth,
        };
        assert(r@ =~= run_of(self@.gate, env::maybe_pairs(sealed)));
        r
    }

    fn open_window(
        &self,
        leases: &mut LeaseStore,
        now: u128,
        lease_id: [u8; 16],
        window: Option<u128>,
        token: Token,
    )
        requires
            now < clock::READING_LIMIT,
        ensures
            final(leases)@ == leases_after(
                self@.gate,
                old(leases)@,
                now as int,
                lease_id@,
                window,
                token@,
            ),
    {
        if !self.gate.may_lease {
            return ;
        }
        if let Some(nanos) = window {
            let whole: u128 = nanos / 1_000_000_000;
            let secs: u32 = if whole < 4294967295 {
                whole as u32
            } else {
                4294967295
            };
            if let Some(cut) = self.gate.action.lease.clamp_secs(secs) {
                let ttl = Span::from_secs(cut as u64);
                leases.grant_at(
                    now,
                    lease_id,
                    self.gate.grant,
                    &self.gate.binding,
                    self.gate.action.lease.covers(),
                    token,
                    ttl,
                );
            }
        }
    }

    fn ask(&mut self) -> (r: Next)
        ensures
            final(self)@ == (RunningView { stage: Stage::Approve, ..old(self)@ }),
            r@ == (NextView::Approve {
                coalesce: old(self)@.gate.coalesce,
                context: context_of(old(self)@),
            }),
    {
        let context = self.context();
        self.stage = Stage::Approve;
        Next::Approve { coalesce: self.gate.coalesce, context }
    }

    /// What a step leads to, at the clock reading `now`. The second part of the
    /// result is the line to log of a window that was dropped.
    pub fn tell_at(
        &mut self,
        leases: &mut LeaseStore,
        now: u128,
        lease_id: [u8; 16],
        via: &str,
        told: Told,
    ) -> (r: (Next, Option<String>))
        requires
            now < clock::READING_LIMIT,
            fits(old(self)@.stage, told@),
        ensures
            ({
                let s = stepped(
                    old(self)@,
                    old(leases)@,
                    now as int,
                    lease_id@,
                    via@,
                    told@,
                );
                &&& r.0@ == s.next
                &&& text::maybe_text(r.1) == s.log
                &&& final(self)@ == s.after
                &&& final(leases)@ == s.leases
            }),
    {
        match told {
            Told::Described { refs, kind } => {
                self.refs = refs;
                self.kind = kind;
                if !self.gate.may_lease {
                    return (self.ask(), None);
                }
                match leases.token_for_at(now, &self.gate.grant, &self.gate.binding) {
                    None => (self.ask(), None),
                    Some(token) => {
                        if self.gate.sealed_env {
                            self.stage = Stage::Decode;
                            (Next::Decode(token), None)
                        } else {
                            let run = self.run(None);
                            let audit = self.audit("approved", "lease");
                            self.stage = Stage::Ended;
                            (Next::Run { run, audit }, None)
                        }
                    },
                }
            },
            Told::Decoded(pairs) => {
                match leased_env(
                    self.gate.sealed_env,
                    pairs,
                    self.gate.action.env_keys.as_slice(),
                ) {
                    Ok(sealed) => {
                        let run = self.run(sealed);
                        let audit = self.audit("approved", "lease");
                        self.stage = Stage::Ended;
                        (Next::Run { run, audit }, None)
                    },
                    Err(why) => {
                        leases.revoke_scope(self.gate.action.rule.as_str());
                        let mut line = String::new();
                        line.append("sigil daemon: dropping the lease on rule '");
                        line.append(self.gate.action.rule.as_str());
                        line.append("' (");
                        line.append(why);
                        line.append("); re-approving this run");
                        assert(line@ =~= dropped_text(self@.gate.action.rule, why@));
                        (self.ask(), Some(line))
                    },
                }
            },
            Told::Decided { decision, partial } => {
                if !decision.is_grant() {
                    proof {
                        reveal_strlit("");
                        assert(""@ =~= Seq::<char>::empty());
                    }
                    let audit = self.audit("denied", "");
                    self.stage = Stage::Ended;
                    return (
                        Next::Refuse {
                            message: "request denied\n".to_owned(),
                            audit: Some(audit),
                        },
                        None,
                    );
                }
                let window: Option<u128> = decision.lease_ttl();
                match &self.gate.record {
                    Some(rec) => {
                        let rec = rec.duplicate();
                        if partial {
                            self.window = window;
                            self.stage = Stage::Open;
                            (Next::Open(rec), None)
                        } else {
                            self.stage = Stage::Ended;
                            (
                                Next::Refuse { message: NO_PARTIAL.to_owned(), audit: None },
                                None,
                            )
                        }
                    },
                    None => {
                        let empty = Token::new(Vec::new());
                        self.open_window(leases, now, lease_id, window, empty);
                        let run = self.run(None);
                        let audit = self.audit("approved", via);
                        self.window = window;
                        self.stage = Stage::Ended;
                        (Next::Run { run, audit }, None)
                    },
                }
            },
            Told::Opened(o) => {
                match judge_opening(o, self.gate.action.env_keys.as_slice()) {
                    Err(message) => {
                        self.stage = Stage::Ended;
                        (Next::Refuse { message, audit: None }, None)
                    },
                    Ok((pairs, plain)) => {
                        self.open_window(leases, now, lease_id, self.window, plain);
                        let run = self.run(Some(pairs));
                        let audit = self.audit("approved", via);
                        self.stage = Stage::Ended;
                        (Next::Run { run, audit }, None)
                    },
                }
            },
        }
    }

    /// What a step leads to, now.
    pub fn tell(&mut self, leases: &mut LeaseStore, via: &str, told: Told) -> (r: (
        Next,
        Option<String>,
    ))
        requires
            fits(old(self)@.stage, told@),
        ensures
            exists|now: int, lease_id: Seq<u8>|
                0 <= now < clock::READING_LIMIT && lease_id.len() == 16 && came_to(
                    #[trigger] stepped(old(self)@, old(leases)@, now, lease_id, via@, told@),
                    r,
                    final(self)@,
                    final(leases)@,
                ),
    {
        let now: u128 = leases.reading();
        let lease_id = store::new_lease_id();
        let r = self.tell_at(leases, now, lease_id, via, told);
        assert(lease_id@.len() == 16);
        assert(came_to(
            stepped(old(self)@, old(leases)@, now as int, lease_id@, via@, told@),
            r,
            self@,
            leases@,
        ));
        r
    }
}

/// What a step came to is all that it says: what is next, where the run stands, the
/// windows, and the line that is logged, and nothing of it is left out.
pub proof fn a_step_is_carried_out_whole(
    s: StepView,
    r: (Next, Option<String>),
    after: RunningView,
    leases: Seq<LeaseView>,
)
    ensures
        came_to(s, r, after, leases) ==> after == s.after && leases == s.leases && r.0@ == s.next,
        came_to(s, r, after, leases) ==> match r.1 {
            Some(line) => s.log == Some(line@),
            None => s.log is None,
        },
{
}

} // verus!
