//! Gating a signature: which key it is for, what the approver sees, and what the
//! answer leads to.
use crate::bytes;
use crate::daemon::fulfil::Decision;
use crate::daemon::request;
use crate::daemon::request::{
    challenge, ApprovalContext, ContextView, KindView, RequestKind, SshChallenge, SshView,
};
use crate::daemon::sealed;
use crate::daemon::sealed::{RecordView, SealedRecord, SealedStore};
use crate::daemon::vault::{Vault, VaultView};
use crate::lease;
use crate::lease::store::hex32;
use crate::lease::{grant_key, AncestorView, Caller, ScopeKind};
use crate::lists;
use crate::policy::{LeasePolicy, PolicyView};
use crate::text;
use vstd::prelude::*;
use vstd::string::*;
use vstd::utf8::*;

verus! {

/// The scope of one signature.
pub open spec fn sign_scope(label: Seq<char>, fingerprint: Seq<char>) -> Seq<char> {
    "ssh-sign "@ + label + " "@ + fingerprint
}

/// The scope of one signature: the hash of the data is part of it, so that two
/// different signatures never share an approval.
pub fn ssh_sign_scope(label: &str, data_fingerprint: &str) -> (r: String)
    ensures
        r@ == sign_scope(label@, data_fingerprint@),
{
    let mut s = String::new();
    s.append("ssh-sign ");
    s.append(label);
    s.append(" ");
    s.append(data_fingerprint);
    assert(s@ =~= sign_scope(label@, data_fingerprint@));
    s
}

/// Different data under one key never shares a grant key's message.
pub proof fn different_data_is_a_different_request(
    chain: Seq<AncestorView>,
    label: Seq<char>,
    x: Seq<char>,
    y: Seq<char>,
)
    requires
        lease::measured_chain(chain),
        encode_utf8(sign_scope(label, x)).len() <= u64::MAX,
        encode_utf8(sign_scope(label, y)).len() <= u64::MAX,
        x != y,
    ensures
        lease::grant_record(chain, ScopeKind::SshSignature, Seq::empty(), sign_scope(label, x))
            != lease::grant_record(
            chain,
            ScopeKind::SshSignature,
            Seq::empty(),
            sign_scope(label, y),
        ),
{
    let a = sign_scope(label, x);
    let b = sign_scope(label, y);
    let n = ("ssh-sign "@ + label + " "@).len();
    if a == b {
        assert(a.skip(n as int) =~= x);
        assert(b.skip(n as int) =~= y);
    }
    assert(encode_utf8(Seq::<char>::empty()).len() == 0);
    if lease::grant_record(chain, ScopeKind::SshSignature, Seq::empty(), a) == lease::grant_record(
        chain,
        ScopeKind::SshSignature,
        Seq::empty(),
        b,
    ) {
        lease::grant_record_reads_one_way(
            chain,
            ScopeKind::SshSignature,
            Seq::empty(),
            a,
            chain,
            ScopeKind::SshSignature,
            Seq::empty(),
            b,
        );
    }
}

/// A key whose private half is sealed: what the agent advertises, and the id that
/// it is sealed under.
#[derive(Debug, Clone, PartialEq, Eq)]
pub struct StoredKey {
    pub key_blob: Vec<u8>,
    pub label: String,
    pub account_id: String,
}

/// A stored key as plain values.
#[verifier::ext_equal]
pub struct StoredView {
    pub key_blob: Seq<u8>,
    pub label: Seq<char>,
    pub account_id: Seq<char>,
}

impl View for StoredKey {
    type V = StoredView;

    open spec fn view(&self) -> StoredView {
        StoredView {
            key_blob: self.key_blob@,
            label: self.label@,
            account_id: self.account_id@,
        }
    }
}

/// A key that the agent serves: its public bytes and its label.
#[derive(Debug, Clone, PartialEq, Eq)]
pub struct ServedIdentity {
    pub key_blob: Vec<u8>,
    pub label: String,
}

/// A served key as plain values.
#[verifier::ext_equal]
pub struct ServedView {
    pub key_blob: Seq<u8>,
    pub label: Seq<char>,
}

impl View for ServedIdentity {
    type V = ServedView;

    open spec fn view(&self) -> ServedView {
        ServedView { key_blob: self.key_blob@, label: self.label@ }
    }
}

/// The keys that the agent advertises: those of the key files, then the stored
/// ones.
pub fn identities(in_files: Vec<ServedIdentity>, stored: &[StoredKey]) -> (r: Vec<ServedIdentity>)
    ensures
        lists::views(r@) == lists::views(in_files@) + lists::views(stored@).map_values(
            |k: StoredView| ServedView { key_blob: k.key_blob, label: k.label },
        ),
{
    let ghost served = |k: StoredView| ServedView { key_blob: k.key_blob, label: k.label };
    let ghost first = lists::views(in_files@);
    let ghost all = lists::views(stored@);
    let mut out = in_files;
    let mut i: usize = 0;
    assert(lists::views(out@) =~= first + all.take(0).map_values(served));
    while i < stored.len()
        invariant
            i <= stored.len(),
            all == lists::views(stored@),
            served == (|k: StoredView| ServedView { key_blob: k.key_blob, label: k.label }),
            lists::views(out@) == first + all.take(i as int).map_values(served),
        decreases stored.len() - i,
    {
        let ghost before = lists::views(out@);
        let k = &stored[i];
        let id = ServedIdentity {
            key_blob: bytes::copy(k.key_blob.as_slice()),
            label: k.label.clone(),
        };
        let ghost shown = id@;
        assert(shown =~= served(all[i as int]));
        out.push(id);
        assert(lists::views(out@) =~= before.push(shown));
        assert(all.take(i + 1).map_values(served) =~= all.take(i as int).map_values(served).push(
            shown,
        ));
        i += 1;
    }
    assert(all.take(i as int) =~= all);
    out
}

/// The sealed record of the stored key that advertises these bytes: that of the
/// first such key, where the store can be read and holds it.
pub open spec fn record_for(
    keys: Seq<StoredView>,
    store: Option<Seq<RecordView>>,
    key_blob: Seq<u8>,
) -> Option<RecordView> {
    let at = lists::first_where(keys, |k: StoredView| k.key_blob == key_blob);
    if at < keys.len() && store is Some {
        sealed::record_of(store->0, keys[at].account_id)
    } else {
        None
    }
}

/// The sealed record of the stored key that advertises these bytes, where there
/// is one. `store` is the store on disk, where it can be read.
pub fn stored_record_for(keys: &[StoredKey], store: Option<&SealedStore>, key_blob: &[u8]) -> (r:
    Option<SealedRecord>)
    ensures
        match r {
            Some(rec) => record_for(
                lists::views(keys@),
                match store {
                    Some(s) => Some(s@),
                    None => None,
                },
                key_blob@,
            ) == Some(rec@),
            None => record_for(
                lists::views(keys@),
                match store {
                    Some(s) => Some(s@),
                    None => None,
                },
                key_blob@,
            ) is None,
        },
{
    let ghost all = lists::views(keys@);
    let ghost p = |k: StoredView| k.key_blob == key_blob@;
    let mut i: usize = 0;
    while i < keys.len()
        invariant
            i <= keys.len(),
            all == lists::views(keys@),
            p == (|k: StoredView| k.key_blob == key_blob@),
            forall|k: int| 0 <= k < i ==> !p(#[trigger] all[k]),
        decreases keys.len() - i,
    {
        if bytes::same(keys[i].key_blob.as_slice(), key_blob) {
            assert(p(all[i as int]));
            proof {
                lists::first_where_is(all, p, i as int);
            }
            return match store {
                Some(s) => match s.get(keys[i].account_id.as_str()) {
                    Some(rec) => Some(rec.duplicate()),
                    None => None,
                },
                None => None,
            };
        }
        assert(!p(all[i as int]));
        i += 1;
    }
    proof {
        lists::first_where_is(all, p, i as int);
    }
    None
}

/// What is to be signed.
pub struct SignRequest {
    pub id: String,
    pub label: String,
    pub host: String,
    /// How the host was derived, as the agent names it.
    pub binding: String,
    /// The hash of the data.
    pub fingerprint: String,
}

/// What is to be signed, as plain values.
#[verifier::ext_equal]
pub struct SignView {
    pub id: Seq<char>,
    pub label: Seq<char>,
    pub host: Seq<char>,
    pub binding: Seq<char>,
    pub fingerprint: Seq<char>,
}

impl View for SignRequest {
    type V = SignView;

    open spec fn view(&self) -> SignView {
        SignView {
            id: self.id@,
            label: self.label@,
            host: self.host@,
            binding: self.binding@,
            fingerprint: self.fingerprint@,
        }
    }
}

/// What a request for a signature comes to: nothing, with a line to log where
/// there is one, or a question to the approver.
#[verifier::ext_equal]
pub enum SignPlanView {
    Refuse(Option<Seq<char>>),
    Ask { grant: Seq<u8>, context: ContextView },
}

/// What the approver is asked. Every signature is asked for afresh, so no window
/// is offered.
pub open spec fn sign_context(
    req: SignView,
    chain: Seq<AncestorView>,
    record: Option<RecordView>,
) -> ContextView {
    ContextView {
        id: req.id,
        account: Seq::empty(),
        scope: sign_scope(req.label, req.fingerprint),
        grant_hex: bytes::hex_of(sign_grant(req, chain)),
        provenance: lease::chain_text(chain),
        cwd: Seq::empty(),
        command: seq!["ssh-sign"@, req.label],
        secret_refs: Seq::empty(),
        kind: KindView::SshSignature,
        lease: PolicyView::RunOnce,
        ssh: Some(
            SshView {
                key_label: req.label,
                host: req.host,
                binding: req.binding,
                fingerprint: req.fingerprint,
            },
        ),
        threshold: match record {
            Some(r) => Some(request::challenge_of(r, req.label)),
            None => None,
        },
    }
}

/// What concurrent requests for this signature may share an approval under.
pub open spec fn sign_grant(req: SignView, chain: Seq<AncestorView>) -> Seq<u8> {
    bytes::blake2b256_of(
        lease::grant_record(
            chain,
            ScopeKind::SshSignature,
            Seq::empty(),
            sign_scope(req.label, req.fingerprint),
        ),
    )
}

/// What a request for a signature comes to before anyone is asked.
pub open spec fn sign_planned(
    v: VaultView,
    in_file: bool,
    record: Option<RecordView>,
    req: SignView,
    chain: Seq<AncestorView>,
) -> SignPlanView {
    if v.seal.blocks(v.provisioned) {
        SignPlanView::Refuse(
            Some("sigil daemon: ssh sign refused; "@ + v.seal.why(v.provisioned)->0),
        )
    } else if !in_file && record is None {
        SignPlanView::Refuse(None)
    } else {
        SignPlanView::Ask { grant: sign_grant(req, chain), context: sign_context(req, chain, record) }
    }
}

/// What a request for a signature comes to.
pub enum SignPlan {
    Refuse(Option<String>),
    Ask { grant: [u8; 32], context: ApprovalContext },
}

impl View for SignPlan {
    type V = SignPlanView;

    open spec fn view(&self) -> SignPlanView {
        match self {
            SignPlan::Refuse(log) => SignPlanView::Refuse(text::maybe_text(*log)),
            SignPlan::Ask { grant, context } => SignPlanView::Ask {
                grant: grant@,
                context: context@,
            },
        }
    }
}

fn refused(why: &str) -> (r: String)
    ensures
        r@ == "sigil daemon: ssh sign refused; "@ + why@,
{
    let mut s = String::new();
    s.append("sigil daemon: ssh sign refused; ");
    s.append(why);
    assert(s@ =~= "sigil daemon: ssh sign refused; "@ + why@);
    s
}

/// What a request for a signature comes to before anyone is asked. `in_file` is
/// whether a key file serves the key, and `record` its sealed record.
pub fn approve_and_sign(
    vault: &Vault,
    in_file: bool,
    record: Option<&SealedRecord>,
    req: &SignRequest,
    caller: &Caller,
) -> (r: SignPlan)
    ensures
        r@ == sign_planned(
            vault@,
            in_file,
            match record {
                Some(rec) => Some(rec@),
                None => None,
            },
            req@,
            caller@,
        ),
{
    if vault.seal.blocks_serving(vault.provisioned) {
        if let Some(why) = vault.seal.explain(vault.provisioned) {
            return SignPlan::Refuse(Some(refused(why)));
        }
    }
    if !in_file && record.is_none() {
        return SignPlan::Refuse(None);
    }
    let scope = ssh_sign_scope(req.label.as_str(), req.fingerprint.as_str());
    proof {
        reveal_strlit("");
        assert(""@ =~= Seq::<char>::empty());
    }
    let grant = grant_key(caller, ScopeKind::SshSignature, "", scope.as_str());
    let mut command: Vec<String> = Vec::new();
    command.push("ssh-sign".to_owned());
    command.push(req.label.clone());
    let threshold = match record {
        Some(rec) => Some(challenge(rec, req.label.as_str())),
        None => None,
    };
    let context = ApprovalContext {
        id: req.id.clone(),
        account: String::new(),
        scope,
        grant_hex: hex32(&grant),
        provenance: caller.provenance(),
        cwd: String::new(),
        command,
        secret_refs: Vec::new(),
        kind: RequestKind::SshSignature,
        lease: LeasePolicy::RunOnce,
        ssh: Some(
            SshChallenge {
                key_label: req.label.clone(),
                host: req.host.clone(),
                binding: req.binding.clone(),
                fingerprint: req.fingerprint.clone(),
            },
        ),
        threshold,
    };
    assert(context@ =~= sign_context(
        req@,
        caller@,
        match record {
            Some(rec) => Some(rec@),
            None => None,
        },
    ));
    SignPlan::Ask { grant, context }
}

/// What an answer leads to.
#[derive(Debug, Clone, PartialEq, Eq)]
pub enum SignNext {
    /// No signature, with a line to log where there is one.
    Refuse(Option<&'static str>),
    /// Open the stored key with what the phone sent.
    OpenStored,
    /// Sign from the key file.
    SignFile,
}

/// Logged where an approval brings nothing to open a stored key with.
pub const NO_PARTIAL: &'static str =
    "sigil daemon: ssh sign refused; approval carried no threshold partial (no phone factor?)";

/// What an answer leads to. A stored key is never opened without what the phone
/// sends, and a denied request signs nothing.
pub fn sign_decided(decision: Decision, partial: bool, stored: bool) -> (r: SignNext)
    ensures
        decision is Deny ==> r == SignNext::Refuse(None),
        !(decision is Deny) && stored && !partial ==> (r matches SignNext::Refuse(Some(s)) && s@
            == NO_PARTIAL@),
        !(decision is Deny) && stored && partial ==> r == SignNext::OpenStored,
        !(decision is Deny) && !stored ==> r == SignNext::SignFile,
{
    if !decision.is_grant() {
        return SignNext::Refuse(None);
    }
    if stored {
        if partial {
            SignNext::OpenStored
        } else {
            SignNext::Refuse(Some(NO_PARTIAL))
        }
    } else {
        SignNext::SignFile
    }
}

/// What opening a stored key came to.
pub enum KeyOpening {
    /// The daemon has no share of its own.
    ShareMissing,
    /// The daemon's share could not be loaded.
    ShareFailed(String),
    /// The key could not be opened.
    DecryptFailed(String),
    /// The key is open.
    Opened,
}

/// What is logged of a stored key that did not open; `None` where it did, and the
/// signature is made.
pub open spec fn sign_stored_log(o: KeyOpening) -> Option<Seq<char>> {
    match o {
        KeyOpening::ShareMissing => Some(
            "sigil daemon: ssh sign refused; "@ + "no Mac threshold share (re-pair)"@,
        ),
        KeyOpening::ShareFailed(e) => Some("sigil daemon: ssh sign refused; "@ + e@),
        KeyOpening::DecryptFailed(e) => Some(
            "sigil daemon: ssh sign refused; "@ + ("stored key decrypt failed: "@ + e@),
        ),
        KeyOpening::Opened => None,
    }
}

/// What is logged of a stored key that did not open; `None` where it did.
pub fn sign_stored(o: KeyOpening) -> (r: Option<String>)
    ensures
        text::maybe_text(r) == sign_stored_log(o),
{
    match o {
        KeyOpening::ShareMissing => Some(refused("no Mac threshold share (re-pair)")),
        KeyOpening::ShareFailed(e) => Some(refused(e.as_str())),
        KeyOpening::DecryptFailed(e) => {
            let mut why = String::new();
            why.append("stored key decrypt failed: ");
            why.append(e.as_str());
            assert(why@ =~= "stored key decrypt failed: "@ + e@);
            Some(refused(why.as_str()))
        },
        KeyOpening::Opened => None,
    }
}

/// A keystore that refuses to serve signs nothing, and neither does a daemon that
/// serves no such key.
pub proof fn a_signature_needs_an_open_store_and_a_key(
    v: VaultView,
    in_file: bool,
    record: Option<RecordView>,
    req: SignView,
    chain: Seq<AncestorView>,
)
    ensures
        sign_planned(v, in_file, record, req, chain) is Ask <==> !v.seal.blocks(v.provisioned) && (
        in_file || record is Some),
{
}

/// The message that the key of a signature's question is the digest of.
pub open spec fn sign_message(chain: Seq<AncestorView>, scope: Seq<char>) -> Seq<u8> {
    lease::grant_record(chain, ScopeKind::SshSignature, Seq::empty(), scope)
}

/// Every signature takes its own approval: of two questions, the messages that their
/// keys are digests of are one only where the callers are one tree, the scopes that
/// are shown are one and, under one key label, the data is the same.
pub proof fn different_data_takes_its_own_approval(
    v: VaultView,
    w: VaultView,
    in_file: bool,
    also_in_file: bool,
    r: Option<RecordView>,
    q: Option<RecordView>,
    x: SignView,
    y: SignView,
    chain: Seq<AncestorView>,
    other: Seq<AncestorView>,
)
    requires
        sign_planned(v, in_file, r, x, chain) is Ask,
        sign_planned(w, also_in_file, q, y, other) is Ask,
        lease::measured_chain(chain),
        lease::measured_chain(other),
        encode_utf8(sign_planned(v, in_file, r, x, chain)->context.scope).len() <= u64::MAX,
        encode_utf8(sign_planned(w, also_in_file, q, y, other)->context.scope).len() <= u64::MAX,
    ensures
        ({
            let a = sign_planned(v, in_file, r, x, chain);
            let b = sign_planned(w, also_in_file, q, y, other);
            let m = sign_message(chain, a->context.scope);
            let n = sign_message(other, b->context.scope);
            &&& a->grant == bytes::blake2b256_of(m)
            &&& b->grant == bytes::blake2b256_of(n)
            &&& m == n ==> lease::same_tree(chain, other) && a->context.scope == b->context.scope
            &&& m == n && x.label == y.label ==> x.fingerprint == y.fingerprint
            &&& bytes::hex_bytes(a->context.grant_hex) == a->grant
        }),
{
    let a = sign_scope(x.label, x.fingerprint);
    let b = sign_scope(y.label, y.fingerprint);
    bytes::hex_reads_back(sign_grant(x, chain));
    assert(encode_utf8(Seq::<char>::empty()).len() == 0);
    if sign_message(chain, a) == sign_message(other, b) {
        lease::grant_record_reads_one_way(
            chain,
            ScopeKind::SshSignature,
            Seq::empty(),
            a,
            other,
            ScopeKind::SshSignature,
            Seq::empty(),
            b,
        );
        if x.label == y.label {
            let n = ("ssh-sign "@ + x.label + " "@).len();
            assert(a.skip(n as int) =~= x.fingerprint);
            assert(b.skip(n as int) =~= y.fingerprint);
        }
    }
}

/// A signature and a command never share a key's message, so that the approval of
/// one never releases the other.
pub proof fn a_signature_is_no_command(
    chain: Seq<AncestorView>,
    other: Seq<AncestorView>,
    scope: Seq<char>,
    root: Seq<char>,
    args: Seq<char>,
)
    requires
        lease::measured_chain(chain),
        lease::measured_chain(other),
        encode_utf8(scope).len() <= u64::MAX,
        encode_utf8(root).len() <= u64::MAX,
        encode_utf8(args).len() <= u64::MAX,
    ensures
        sign_message(chain, scope) != lease::grant_record(other, ScopeKind::Command, root, args),
{
    assert(encode_utf8(Seq::<char>::empty()).len() == 0);
    if sign_message(chain, scope) == lease::grant_record(other, ScopeKind::Command, root, args) {
        lease::grant_record_reads_one_way(
            chain,
            ScopeKind::SshSignature,
            Seq::empty(),
            scope,
            other,
            ScopeKind::Command,
            root,
            args,
        );
    }
}

/// The approver is shown what is signed and for whom: the key, the host and how it
/// was derived, the hash of the data and the chain of callers. No window is offered,
/// and a challenge comes exactly with a stored key, for its own record.
pub proof fn the_approver_is_shown_the_signature(
    v: VaultView,
    in_file: bool,
    record: Option<RecordView>,
    req: SignView,
    chain: Seq<AncestorView>,
)
    ensures
        (sign_planned(v, in_file, record, req, chain) matches SignPlanView::Ask { context, .. }
            ==> {
            &&& context.id == req.id
            &&& context.kind is SshSignature
            &&& context.lease is RunOnce
            &&& context.command == seq!["ssh-sign"@, req.label]
            &&& context.cwd.len() == 0
            &&& context.account.len() == 0
            &&& context.secret_refs.len() == 0
            &&& context.provenance == lease::chain_text(chain)
            &&& context.scope == "ssh-sign "@ + req.label + " "@ + req.fingerprint
            &&& context.ssh matches Some(c) && c.key_label == req.label && c.host == req.host
                && c.binding == req.binding && c.fingerprint == req.fingerprint
            &&& context.threshold is Some <==> record is Some
            &&& context.threshold matches Some(c) ==> {
                let r = record->0;
                &&& c.account_id == r.account_id
                &&& c.ephemeral_pub == r.ephemeral_pub
                &&& c.se_key_id == r.se_key_id
                &&& c.ecdh_algo == r.ecdh_algo
                &&& c.label == req.label
            }
        }),
{
}

/// A stored key is opened by its own record: that of the id which the first key with
/// these bytes is sealed under. Where no key has these bytes, or the store cannot be
/// read or holds no such record, there is none.
pub proof fn a_stored_key_is_opened_by_its_own_record(
    keys: Seq<StoredView>,
    store: Seq<RecordView>,
    key_blob: Seq<u8>,
    at: int,
)
    ensures
        record_for(keys, None, key_blob) is None,
        (forall|i: int| 0 <= i < keys.len() ==> (#[trigger] keys[i]).key_blob != key_blob)
            ==> record_for(keys, Some(store), key_blob) is None,
        (0 <= at < keys.len() && keys[at].key_blob == key_blob && forall|i: int|
            0 <= i < at ==> (#[trigger] keys[i]).key_blob != key_blob) ==> {
            &&& record_for(keys, Some(store), key_blob) matches Some(r) ==> r.account_id
                == keys[at].account_id && store.contains(r)
            &&& record_for(keys, Some(store), key_blob) is None ==> forall|j: int|
                0 <= j < store.len() ==> (#[trigger] store[j]).account_id != keys[at].account_id
        },
{
    let p = |k: StoredView| k.key_blob == key_blob;
    lists::first_where_is_first(keys, p);
    let first = lists::first_where(keys, p);
    if first < keys.len() {
        assert(p(keys[first]));
        let mine = |r: RecordView| r.account_id == keys[first].account_id;
        lists::first_where_is_first(store, mine);
        let to = lists::first_where(store, mine);
        if to < store.len() {
            assert(mine(store[to]));
            assert(store.contains(store[to]));
        } else {
            assert forall|j: int| 0 <= j < store.len() implies (#[trigger] store[j]).account_id
                != keys[first].account_id by {
                assert(!mine(store[j]));
            }
        }
        if 0 <= at < keys.len() && keys[at].key_blob == key_blob && forall|i: int|
            0 <= i < at ==> (#[trigger] keys[i]).key_blob != key_blob {
            assert(p(keys[at]));
        }
    } else if 0 <= at < keys.len() && keys[at].key_blob == key_blob {
        assert(p(keys[at]));
    }
}

/// A stored key that did not open is logged with the reason, and one that did is not.
pub proof fn a_key_that_did_not_open_is_logged(o: KeyOpening)
    ensures
        sign_stored_log(o) is None <==> o is Opened,
        o matches KeyOpening::ShareFailed(e) ==> text::occurs_in(sign_stored_log(o)->0, e@),
        o matches KeyOpening::DecryptFailed(e) ==> text::occurs_in(sign_stored_log(o)->0, e@),
{
    broadcast use text::parts_stand_in;

    if let KeyOpening::DecryptFailed(e) = o {
        let inner = "stored key decrypt failed: "@ + e@;
        assert(text::occurs_in(inner, e@));
        text::stands_within(sign_stored_log(o)->0, inner, e@);
    }
}

/// A denied request signs nothing, whatever else came with it; a key file signs once
/// it is granted, and a stored key is opened exactly where the grant brought what the
/// phone sends.
pub proof fn only_a_grant_signs(decision: Decision, partial: bool, stored: bool, r: SignNext)
    requires
        call_ensures(sign_decided, (decision, partial, stored), r),
    ensures
        r == SignNext::SignFile <==> !(decision is Deny) && !stored,
        r == SignNext::OpenStored <==> !(decision is Deny) && stored && partial,
        decision is Deny ==> r == SignNext::Refuse(None),
{
}

/// Every key is advertised, with its own bytes and its own label: those of the files
/// first, then the stored ones, each in order.
pub proof fn every_key_is_advertised(
    in_files: Vec<ServedIdentity>,
    stored: &[StoredKey],
    r: Vec<ServedIdentity>,
    i: int,
)
    requires
        call_ensures(identities, (in_files, stored), r),
    ensures
        r@.len() == in_files@.len() + stored@.len(),
        0 <= i < in_files@.len() ==> r@[i]@ == in_files@[i]@,
        0 <= i < stored@.len() ==> r@[in_files@.len() + i].key_blob@ == stored@[i].key_blob@
            && r@[in_files@.len() + i].label@ == stored@[i].label@,
{
    let out = lists::views(r@);
    let files = lists::views(in_files@);
    let keys = lists::views(stored@);
    assert(out.len() == files.len() + keys.len());
    if 0 <= i < files.len() {
        assert(out[i] == files[i]);
    }
    if 0 <= i < keys.len() {
        assert(out[files.len() + i].key_blob == keys[i].key_blob);
        assert(out[files.len() + i].label == keys[i].label);
    }
}

/// What a request for a signature is asked under: the digest of a message that holds
/// the key's label and the hash of the data, and the approver is shown both.
pub proof fn a_signature_is_asked_for_by_its_data(
    vault: &Vault,
    in_file: bool,
    record: Option<&SealedRecord>,
    req: &SignRequest,
    caller: &Caller,
    r: SignPlan,
)
    requires
        call_ensures(approve_and_sign, (vault, in_file, record, req, caller), r),
    ensures
        r matches SignPlan::Ask { grant, context } ==> {
            &&& grant@ == bytes::blake2b256_of(
                sign_message(caller@, "ssh-sign "@ + req.label@ + " "@ + req.fingerprint@),
            )
            &&& context.grant_hex@ == bytes::hex_of(grant@)
            &&& context.scope@ == "ssh-sign "@ + req.label@ + " "@ + req.fingerprint@
            &&& context.command@.len() == 2 && context.command@[1]@ == req.label@
            &&& context.ssh matches Some(c) && c.host@ == req.host@ && c.fingerprint@
                == req.fingerprint@ && c.key_label@ == req.label@
            &&& context.lease is RunOnce
        },
        r matches SignPlan::Refuse(_) ==> vault@.seal.blocks(vault@.provisioned) || (!in_file
            && record is None),
{
    if let SignPlan::Ask { grant, context } = r {
        let c = context@;
        assert(c.command.len() == 2);
        assert(c.command[1] == req.label@);
    }
}

} // verus!
