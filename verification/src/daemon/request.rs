//! What is asked of the approver, what is run, and what is written to the audit
//! log.
use crate::config::names;
use crate::daemon::sealed::{RecordView, SealedRecord};
use crate::lists;
use crate::policy::{LeasePolicy, PolicyView};
use crate::secrets::Token;
use crate::text;
use vstd::prelude::*;
use vstd::string::*;

verus! {

/// What a request is for.
#[derive(Debug, Clone, PartialEq, Eq)]
pub enum RequestKind {
    SecretRead,
    SshSignature,
    /// A kind that a provider names.
    Other(String),
}

/// A kind as plain values.
#[verifier::ext_equal]
pub enum KindView {
    SecretRead,
    SshSignature,
    Other(Seq<char>),
}

impl View for RequestKind {
    type V = KindView;

    open spec fn view(&self) -> KindView {
        match self {
            RequestKind::SecretRead => KindView::SecretRead,
            RequestKind::SshSignature => KindView::SshSignature,
            RequestKind::Other(s) => KindView::Other(s@),
        }
    }
}

impl RequestKind {
    /// Another kind of the same value.
    pub fn duplicate(&self) -> (r: RequestKind)
        ensures
            r@ == self@,
    {
        match self {
            RequestKind::SecretRead => RequestKind::SecretRead,
            RequestKind::SshSignature => RequestKind::SshSignature,
            RequestKind::Other(s) => RequestKind::Other(s.clone()),
        }
    }
}

/// What a provider says a request reads. Names only.
#[derive(Debug, Clone, PartialEq, Eq)]
pub struct SecretRef {
    pub provider: String,
    pub segments: Vec<String>,
    pub label: String,
}

/// A reference as plain values.
#[verifier::ext_equal]
pub struct RefView {
    pub provider: Seq<char>,
    pub segments: Seq<Seq<char>>,
    pub label: Seq<char>,
}

impl View for SecretRef {
    type V = RefView;

    open spec fn view(&self) -> RefView {
        RefView {
            provider: self.provider@,
            segments: text::texts(self.segments@),
            label: self.label@,
        }
    }
}

impl SecretRef {
    /// Another reference of the same values.
    pub fn duplicate(&self) -> (r: SecretRef)
        ensures
            r@ == self@,
    {
        SecretRef {
            provider: self.provider.clone(),
            segments: text::copy_list(self.segments.as_slice()),
            label: self.label.clone(),
        }
    }
}

/// Another list of the same references.
pub fn copy_refs(refs: &[SecretRef]) -> (r: Vec<SecretRef>)
    ensures
        lists::views(r@) == lists::views(refs@),
{
    let mut out: Vec<SecretRef> = Vec::new();
    let mut i: usize = 0;
    while i < refs.len()
        invariant
            i <= refs.len(),
            out@.len() == i,
            forall|k: int| 0 <= k < i ==> (#[trigger] out@[k])@ == refs@[k]@,
        decreases refs.len() - i,
    {
        out.push(refs[i].duplicate());
        i += 1;
    }
    assert(lists::views(out@) =~= lists::views(refs@));
    out
}

/// The brightest label for the audit line: that of the first reference, or the
/// scope where the provider named none.
pub open spec fn audit_label_of(refs: Seq<RefView>, scope: Seq<char>) -> Seq<char> {
    if refs.len() > 0 {
        refs[0].label
    } else {
        scope
    }
}

/// The brightest label for the audit line.
pub fn audit_label(refs: &[SecretRef], scope: &str) -> (r: String)
    ensures
        r@ == audit_label_of(lists::views(refs@), scope@),
{
    if refs.len() > 0 {
        refs[0].label.clone()
    } else {
        scope.to_owned()
    }
}

/// The point that the phone agrees on a key against, and what it consents to.
#[derive(Debug, Clone, PartialEq, Eq)]
pub struct ThresholdChallenge {
    pub account_id: String,
    pub label: String,
    pub ephemeral_pub: String,
    pub se_key_id: String,
    pub ecdh_algo: String,
}

/// A challenge as plain values.
#[verifier::ext_equal]
pub struct ChallengeView {
    pub account_id: Seq<char>,
    pub label: Seq<char>,
    pub ephemeral_pub: Seq<char>,
    pub se_key_id: Seq<char>,
    pub ecdh_algo: Seq<char>,
}

impl View for ThresholdChallenge {
    type V = ChallengeView;

    open spec fn view(&self) -> ChallengeView {
        ChallengeView {
            account_id: self.account_id@,
            label: self.label@,
            ephemeral_pub: self.ephemeral_pub@,
            se_key_id: self.se_key_id@,
            ecdh_algo: self.ecdh_algo@,
        }
    }
}

/// The challenge for a record, shown under `label`.
pub open spec fn challenge_of(r: RecordView, label: Seq<char>) -> ChallengeView {
    ChallengeView {
        account_id: r.account_id,
        label,
        ephemeral_pub: r.ephemeral_pub,
        se_key_id: r.se_key_id,
        ecdh_algo: r.ecdh_algo,
    }
}

/// The challenge for a record, shown under `label`.
pub fn challenge(record: &SealedRecord, label: &str) -> (r: ThresholdChallenge)
    ensures
        r@ == challenge_of(record@, label@),
{
    ThresholdChallenge {
        account_id: record.account_id.clone(),
        label: label.to_owned(),
        ephemeral_pub: record.ephemeral_pub.clone(),
        se_key_id: record.se_key_id.clone(),
        ecdh_algo: record.ecdh_algo.clone(),
    }
}

/// What the approver sees of a signature: the key, the host and the hash of the
/// data.
#[derive(Debug, Clone, PartialEq, Eq)]
pub struct SshChallenge {
    pub key_label: String,
    pub host: String,
    /// How the host was derived, as the agent names it.
    pub binding: String,
    pub fingerprint: String,
}

/// A signature challenge as plain values.
#[verifier::ext_equal]
pub struct SshView {
    pub key_label: Seq<char>,
    pub host: Seq<char>,
    pub binding: Seq<char>,
    pub fingerprint: Seq<char>,
}

impl View for SshChallenge {
    type V = SshView;

    open spec fn view(&self) -> SshView {
        SshView {
            key_label: self.key_label@,
            host: self.host@,
            binding: self.binding@,
            fingerprint: self.fingerprint@,
        }
    }
}

/// What is asked of the approver.
pub struct ApprovalContext {
    pub id: String,
    pub account: String,
    pub scope: String,
    pub grant_hex: String,
    pub provenance: String,
    pub cwd: String,
    pub command: Vec<String>,
    pub secret_refs: Vec<SecretRef>,
    pub kind: RequestKind,
    pub lease: LeasePolicy,
    pub ssh: Option<SshChallenge>,
    pub threshold: Option<ThresholdChallenge>,
}

/// What is asked of the approver, as plain values.
#[verifier::ext_equal]
pub struct ContextView {
    pub id: Seq<char>,
    pub account: Seq<char>,
    pub scope: Seq<char>,
    pub grant_hex: Seq<char>,
    pub provenance: Seq<char>,
    pub cwd: Seq<char>,
    pub command: Seq<Seq<char>>,
    pub secret_refs: Seq<RefView>,
    pub kind: KindView,
    pub lease: PolicyView,
    pub ssh: Option<SshView>,
    pub threshold: Option<ChallengeView>,
}

impl View for ApprovalContext {
    type V = ContextView;

    open spec fn view(&self) -> ContextView {
        ContextView {
            id: self.id@,
            account: self.account@,
            scope: self.scope@,
            grant_hex: self.grant_hex@,
            provenance: self.provenance@,
            cwd: self.cwd@,
            command: text::texts(self.command@),
            secret_refs: lists::views(self.secret_refs@),
            kind: self.kind@,
            lease: self.lease@,
            ssh: match self.ssh {
                Some(c) => Some(c@),
                None => None,
            },
            threshold: match self.threshold {
                Some(c) => Some(c@),
                None => None,
            },
        }
    }
}

/// One line of the audit log. Names and provenance only, never a secret.
#[derive(Debug, Clone, PartialEq, Eq)]
pub struct AuditEntry {
    pub id: String,
    pub kind: RequestKind,
    pub label: String,
    pub account: String,
    pub process: String,
    pub cwd: String,
    pub decision: String,
    pub via: String,
}

/// An audit line as plain values.
#[verifier::ext_equal]
pub struct AuditView {
    pub id: Seq<char>,
    pub kind: KindView,
    pub label: Seq<char>,
    pub account: Seq<char>,
    pub process: Seq<char>,
    pub cwd: Seq<char>,
    pub decision: Seq<char>,
    pub via: Seq<char>,
}

impl View for AuditEntry {
    type V = AuditView;

    open spec fn view(&self) -> AuditView {
        AuditView {
            id: self.id@,
            kind: self.kind@,
            label: self.label@,
            account: self.account@,
            process: self.process@,
            cwd: self.cwd@,
            decision: self.decision@,
            via: self.via@,
        }
    }
}

/// What is run for the caller.
pub struct RunPlan {
    /// The provider that runs it; empty where the command runs directly.
    pub provider: String,
    /// Whether the command runs directly, with nothing injected by a provider.
    pub passthrough: bool,
    pub command: Vec<String>,
    pub cwd: String,
    /// The file that the provider injects from; empty where there is none.
    pub source: String,
    /// The sealed variables to inject. Their values are wiped when they are dropped.
    pub env: Option<Vec<(String, Token)>>,
    /// The plain variables to inject beside them.
    pub plain: Vec<(String, String)>,
    /// The proxy depth that the child carries.
    pub depth: u32,
}

/// What is run, as plain values.
#[verifier::ext_equal]
pub struct RunView {
    pub provider: Seq<char>,
    pub passthrough: bool,
    pub command: Seq<Seq<char>>,
    pub cwd: Seq<char>,
    pub source: Seq<char>,
    pub env: Option<Seq<(Seq<char>, Seq<u8>)>>,
    pub plain: Seq<(Seq<char>, Seq<char>)>,
    pub depth: u32,
}

impl View for RunPlan {
    type V = RunView;

    open spec fn view(&self) -> RunView {
        RunView {
            provider: self.provider@,
            passthrough: self.passthrough,
            command: text::texts(self.command@),
            cwd: self.cwd@,
            source: self.source@,
            env: crate::daemon::env::maybe_pairs(self.env),
            plain: names::pair_texts(self.plain@),
            depth: self.depth,
        }
    }
}

/// A challenge is of its own record: the phone is asked against that record's point,
/// with its key and its algorithm, under the label that is shown.
pub proof fn a_challenge_is_of_its_record(r: RecordView, other: RecordView, label: Seq<char>)
    ensures
        challenge_of(r, label).account_id == r.account_id,
        challenge_of(r, label).ephemeral_pub == r.ephemeral_pub,
        challenge_of(r, label).se_key_id == r.se_key_id,
        challenge_of(r, label).ecdh_algo == r.ecdh_algo,
        challenge_of(r, label).label == label,
        challenge_of(r, label) == challenge_of(other, label) ==> r == other,
{
    if challenge_of(r, label) == challenge_of(other, label) {
        assert(r =~= other);
    }
}

/// The audit line is labelled by what was read, and by the scope where nothing is
/// named.
pub proof fn an_audit_is_labelled_by_what_was_read(
    first: RefView,
    rest: Seq<RefView>,
    scope: Seq<char>,
)
    ensures
        audit_label_of(seq![first] + rest, scope) == first.label,
        audit_label_of(Seq::empty(), scope) == scope,
{
}

/// What is run is read as it is: every argument, every sealed and every plain variable,
/// in order and with its value.
pub proof fn a_run_is_read_as_it_is(p: RunPlan, i: int)
    ensures
        p@.command.len() == p.command@.len(),
        0 <= i < p.command@.len() ==> p@.command[i] == p.command@[i]@,
        p@.provider == p.provider@ && p@.cwd == p.cwd@ && p@.source == p.source@,
        p@.passthrough == p.passthrough && p@.depth == p.depth,
        p@.plain.len() == p.plain@.len(),
        0 <= i < p.plain@.len() ==> p@.plain[i] == (p.plain@[i].0@, p.plain@[i].1@),
        match (p.env, p@.env) {
            (Some(v), Some(pairs)) => pairs.len() == v@.len() && (0 <= i < v@.len() ==> pairs[i] == (
                v@[i].0@,
                v@[i].1@,
            )),
            (None, None) => true,
            _ => false,
        },
{
}

/// What the approver is asked is read as it is, field by field.
pub proof fn a_question_is_read_as_it_is(c: ApprovalContext, i: int)
    ensures
        c@.id == c.id@ && c@.account == c.account@ && c@.scope == c.scope@,
        c@.grant_hex == c.grant_hex@ && c@.provenance == c.provenance@ && c@.cwd == c.cwd@,
        c@.command.len() == c.command@.len(),
        0 <= i < c.command@.len() ==> c@.command[i] == c.command@[i]@,
        c@.secret_refs.len() == c.secret_refs@.len(),
        0 <= i < c.secret_refs@.len() ==> c@.secret_refs[i] == c.secret_refs@[i]@,
        c@.lease == c.lease@,
        match (c.kind, c@.kind) {
            (RequestKind::SecretRead, KindView::SecretRead) => true,
            (RequestKind::SshSignature, KindView::SshSignature) => true,
            (RequestKind::Other(s), KindView::Other(t)) => t == s@,
            _ => false,
        },
        match (c.ssh, c@.ssh) {
            (Some(s), Some(t)) => t.key_label == s.key_label@ && t.host == s.host@ && t.binding
                == s.binding@ && t.fingerprint == s.fingerprint@,
            (None, None) => true,
            _ => false,
        },
        match (c.threshold, c@.threshold) {
            (Some(s), Some(t)) => t.account_id == s.account_id@ && t.label == s.label@
                && t.ephemeral_pub == s.ephemeral_pub@ && t.se_key_id == s.se_key_id@ && t.ecdh_algo
                == s.ecdh_algo@,
            (None, None) => true,
            _ => false,
        },
{
}

/// An audit entry is read as it is, field by field.
pub proof fn an_audit_entry_is_read_as_it_is(a: AuditEntry)
    ensures
        a@.id == a.id@ && a@.label == a.label@ && a@.account == a.account@,
        a@.process == a.process@ && a@.cwd == a.cwd@,
        a@.decision == a.decision@ && a@.via == a.via@,
        a@.kind == a.kind@,
{
}

} // verus!
