//! What a request comes to before anyone is asked: refused, let through, or
//! gated under a rule.
use crate::bytes;
use crate::config;
use crate::config::names;
use crate::config::{Config, ConfigView, Resolution, ResolutionView, ResolvedAction, ResolvedView};
use crate::daemon::env;
use crate::daemon::notices;
use crate::daemon::notices::scope_of;
use crate::daemon::request::{RunPlan, RunView};
use crate::daemon::sealed;
use crate::daemon::sealed::{RecordView, SealedRecord, SealedStore};
use crate::daemon::vault::{Vault, VaultView};
use crate::lease;
use crate::lease::store::{BindingView, LeaseBinding};
use crate::lease::{grant_key, AncestorView, Caller, ScopeKind};
use crate::lists;
use crate::text;
use vstd::prelude::*;
use vstd::string::*;
use vstd::utf8::*;

verus! {

/// A provider, as far as the decisions go.
#[derive(Debug, Clone, PartialEq, Eq)]
pub struct Provider {
    pub id: String,
    /// Whether it injects values that are sealed.
    pub needs_sealed_env: bool,
}

/// A provider as plain values.
#[verifier::ext_equal]
pub struct ProviderView {
    pub id: Seq<char>,
    pub needs_sealed_env: bool,
}

impl View for Provider {
    type V = ProviderView;

    open spec fn view(&self) -> ProviderView {
        ProviderView { id: self.id@, needs_sealed_env: self.needs_sealed_env }
    }
}

/// The provider of an id: the first in the list.
pub open spec fn provider_of(providers: Seq<ProviderView>, id: Seq<char>) -> Option<ProviderView> {
    let at = lists::first_where(providers, |p: ProviderView| p.id == id);
    if at < providers.len() {
        Some(providers[at])
    } else {
        None
    }
}

/// The provider of an id.
pub fn find_provider<'a>(providers: &'a [Provider], id: &str) -> (r: Option<&'a Provider>)
    ensures
        match r {
            Some(p) => provider_of(lists::views(providers@), id@) == Some(p@),
            None => provider_of(lists::views(providers@), id@) is None,
        },
{
    let ghost all = lists::views(providers@);
    let ghost p = |v: ProviderView| v.id == id@;
    let mut i: usize = 0;
    while i < providers.len()
        invariant
            i <= providers.len(),
            all == lists::views(providers@),
            p == (|v: ProviderView| v.id == id@),
            forall|k: int| 0 <= k < i ==> !p(#[trigger] all[k]),
        decreases providers.len() - i,
    {
        if text::same(providers[i].id.as_str(), id) {
            assert(p(all[i as int]));
            proof {
                lists::first_where_is(all, p, i as int);
            }
            return Some(&providers[i]);
        }
        assert(!p(all[i as int]));
        i += 1;
    }
    proof {
        lists::first_where_is(all, p, i as int);
    }
    None
}

/// What a decision rests on: one consistent state of the daemon.
#[verifier::ext_equal]
pub struct WorldView {
    pub max_depth: u32,
    pub vault: VaultView,
    pub config: ConfigView,
    pub generation: u64,
    pub providers: Seq<ProviderView>,
    pub sealed: Seq<RecordView>,
}

/// What a caller asks for, and who the caller is.
#[verifier::ext_equal]
pub struct AskedView {
    pub argv: Seq<Seq<char>>,
    pub cwd: Seq<char>,
    pub depth: u32,
    pub chain: Seq<AncestorView>,
}

/// A gated run under a rule, before anyone is asked.
#[verifier::ext_equal]
pub struct GateView {
    pub action: ResolvedView,
    pub argv: Seq<Seq<char>>,
    pub cwd: Seq<char>,
    pub degraded: bool,
    pub sealed_env: bool,
    pub scope: Seq<char>,
    pub provenance: Seq<char>,
    pub may_lease: bool,
    pub grant: Seq<u8>,
    pub coalesce: Seq<u8>,
    pub record: Option<RecordView>,
    pub account: Seq<char>,
    pub binding: BindingView,
    pub depth: u32,
}

/// What a request comes to.
#[verifier::ext_equal]
pub enum PlanView {
    Refuse(Seq<char>),
    Pass { rule: Seq<char>, label: Seq<char>, provenance: Seq<char>, run: RunView },
    Gate(GateView),
}

/// Said where a chain of proxies has come back to itself.
pub const TOO_DEEP: &'static str =
    "sigil: proxy recursion limit reached; refusing to run (loop?)\n";

/// Said of an invocation that no rule matches.
pub open spec fn unconfigured_text(cmd: Seq<char>) -> Seq<char> {
    "sigil: '"@ + cmd
        + "' is not configured (no rule matches); Sigil will not run it ungated.\n  configure it: sigil-config add "@
        + cmd + " --provider <id>\n"@
}

/// Said of a rule whose source names no provider there is.
pub open spec fn unknown_provider_text(rule: Seq<char>, provider: Seq<char>) -> Seq<char> {
    "sigil: rule '"@ + rule + "' names an unknown provider '"@ + provider + "'\n"@
}

/// The depth that a child carries.
pub open spec fn child_depth(depth: u32) -> u32 {
    if depth < u32::MAX {
        (depth + 1) as u32
    } else {
        depth
    }
}

/// A command that runs directly: nothing is injected.
pub open spec fn direct_run(a: AskedView) -> RunView {
    RunView {
        provider: Seq::empty(),
        passthrough: true,
        command: a.argv,
        cwd: a.cwd,
        source: Seq::empty(),
        env: None,
        plain: Seq::empty(),
        depth: child_depth(a.depth),
    }
}

/// The action as it is carried out: a source that needs sealed values and has
/// none injects none of them.
pub open spec fn effective(w: WorldView, action: ResolvedView, p: ProviderView) -> ResolvedView {
    if p.needs_sealed_env && sealed::record_of(w.sealed, action.source_name) is None {
        ResolvedView { env_keys: Seq::empty(), ..action }
    } else {
        action
    }
}

/// A gated run under a rule. The grant key is over the caller and the rule, so
/// that a window covers whatever the rule matches, from any directory; the
/// coalescing key is over the caller, the directory and the arguments, so that an
/// approval of one command never releases another.
pub open spec fn gated(w: WorldView, a: AskedView, action: ResolvedView, p: ProviderView) -> GateView {
    let act = effective(w, action, p);
    let sealed_env = p.needs_sealed_env && act.env_keys.len() > 0;
    let scope = notices::arguments(a.argv);
    let record = if sealed_env {
        sealed::record_of(w.sealed, act.source_name)
    } else {
        None
    };
    let account = if sealed_env {
        act.source_name
    } else {
        Seq::empty()
    };
    GateView {
        action: act,
        argv: a.argv,
        cwd: a.cwd,
        degraded: action.env_keys.len() > 0 && act.env_keys.len() == 0,
        sealed_env,
        scope,
        provenance: lease::chain_text(a.chain),
        may_lease: a.chain.len() > 0,
        grant: bytes::blake2b256_of(
            lease::grant_record(a.chain, ScopeKind::Command, Seq::empty(), act.rule),
        ),
        coalesce: bytes::blake2b256_of(
            lease::grant_record(a.chain, ScopeKind::Command, a.cwd, scope),
        ),
        record,
        account,
        binding: BindingView {
            account,
            scope: act.rule,
            source: match record {
                Some(r) => r.ephemeral_pub,
                None => Seq::empty(),
            },
            config_gen: w.generation,
        },
        depth: child_depth(a.depth),
    }
}

/// What a request comes to before anyone is asked.
pub open spec fn planned(w: WorldView, a: AskedView) -> PlanView {
    if a.depth >= w.max_depth {
        PlanView::Refuse(TOO_DEEP@)
    } else if w.vault.seal.blocks(w.vault.provisioned) {
        PlanView::Refuse("sigil: "@ + w.vault.seal.why(w.vault.provisioned)->0 + "\n"@)
    } else if a.argv.len() == 0 {
        PlanView::Refuse("sigil: empty command\n"@)
    } else {
        match config::resolved(w.config, a.argv) {
            None => PlanView::Refuse(unconfigured_text(a.argv[0])),
            Some(ResolutionView::Allow { rule }) => PlanView::Pass {
                rule,
                label: text::trimmed(text::joined(a.argv, " "@)),
                provenance: lease::chain_text(a.chain),
                run: direct_run(a),
            },
            Some(ResolutionView::Gate(action)) => match provider_of(
                w.providers,
                action.provider,
            ) {
                None => PlanView::Refuse(unknown_provider_text(action.rule, action.provider)),
                Some(p) => PlanView::Gate(gated(w, a, action, p)),
            },
        }
    }
}

/// A gated run under a rule, before anyone is asked.
pub struct GatedRun {
    /// The rule with its source, as it is carried out.
    pub action: ResolvedAction,
    pub argv: Vec<String>,
    pub cwd: String,
    /// The rule declares variables that nothing was sealed for.
    pub degraded: bool,
    /// The run injects sealed values.
    pub sealed_env: bool,
    /// This invocation's own arguments: what is shown and logged.
    pub scope: String,
    pub provenance: String,
    /// The caller has an identity that a window can be filed under.
    pub may_lease: bool,
    /// What a window is filed under.
    pub grant: [u8; 32],
    /// What concurrent requests may share an approval under.
    pub coalesce: [u8; 32],
    /// The sealed record that an approval opens.
    pub record: Option<SealedRecord>,
    /// The source whose values are injected; empty for a plain gate.
    pub account: String,
    pub binding: LeaseBinding,
    /// The proxy depth that the child carries.
    pub depth: u32,
}

/// The plain values of a record that may be absent.
pub open spec fn maybe_record(r: Option<SealedRecord>) -> Option<RecordView> {
    match r {
        Some(r) => Some(r@),
        None => None,
    }
}

impl View for GatedRun {
    type V = GateView;

    open spec fn view(&self) -> GateView {
        GateView {
            action: self.action@,
            argv: text::texts(self.argv@),
            cwd: self.cwd@,
            degraded: self.degraded,
            sealed_env: self.sealed_env,
            scope: self.scope@,
            provenance: self.provenance@,
            may_lease: self.may_lease,
            grant: self.grant@,
            coalesce: self.coalesce@,
            record: maybe_record(self.record),
            account: self.account@,
            binding: self.binding@,
            depth: self.depth,
        }
    }
}

/// What a request comes to.
pub enum Plan {
    Refuse(String),
    Pass { rule: String, label: String, provenance: String, run: RunPlan },
    Gate(GatedRun),
}

impl View for Plan {
    type V = PlanView;

    open spec fn view(&self) -> PlanView {
        match self {
            Plan::Refuse(s) => PlanView::Refuse(s@),
            Plan::Pass { rule, label, provenance, run } => PlanView::Pass {
                rule: rule@,
                label: label@,
                provenance: provenance@,
                run: run@,
            },
            Plan::Gate(g) => PlanView::Gate(g@),
        }
    }
}

/// The state that a decision rests on.
pub struct World<'a> {
    pub max_depth: u32,
    pub vault: &'a Vault,
    pub config: &'a Config,
    pub generation: u64,
    pub providers: &'a [Provider],
    pub sealed: &'a SealedStore,
}

impl<'a> World<'a> {
    /// The state as plain values.
    pub open spec fn at(&self) -> WorldView {
        WorldView {
            max_depth: self.max_depth,
            vault: self.vault@,
            config: self.config@,
            generation: self.generation,
            providers: lists::views(self.providers@),
            sealed: self.sealed@,
        }
    }

    fn gate(
        &self,
        argv: &[String],
        cwd: &str,
        depth: u32,
        caller: &Caller,
        action: ResolvedAction,
        provider: &Provider,
    ) -> (r: GatedRun)
        ensures
            r@ == gated(
                self.at(),
                AskedView { argv: text::texts(argv@), cwd: cwd@, depth, chain: caller@ },
                action@,
                provider@,
            ),
    {
        let ghost a = AskedView { argv: text::texts(argv@), cwd: cwd@, depth, chain: caller@ };
        let ghost want = gated(self.at(), a, action@, provider@);
        let mut act = action;
        let declared = act.env_keys.len() > 0;
        let found: Option<SealedRecord> = match self.sealed.get(act.source_name.as_str()) {
            Some(rec) => Some(rec.duplicate()),
            None => None,
        };
        if provider.needs_sealed_env && found.is_none() {
            act.env_keys = Vec::new();
            assert(text::texts(act.env_keys@) =~= Seq::empty());
        }
        assert(act@ =~= want.action);
        let degraded = declared && act.env_keys.len() == 0;
        assert(degraded == want.degraded) by {
            assert(action@.env_keys.len() == action.env_keys@.len());
            assert(act@.env_keys.len() == act.env_keys@.len());
        }
        let sealed_env = provider.needs_sealed_env && act.env_keys.len() > 0;
        let scope = scope_of(argv);
        proof {
            reveal_strlit("");
            assert(""@ =~= Seq::<char>::empty());
        }
        let grant = grant_key(caller, ScopeKind::Command, "", act.rule.as_str());
        let coalesce = grant_key(caller, ScopeKind::Command, cwd, scope.as_str());
        let record: Option<SealedRecord> = if sealed_env {
            found
        } else {
            None
        };
        let account = if sealed_env {
            act.source_name.clone()
        } else {
            String::new()
        };
        let binding = match &record {
            Some(rec) => LeaseBinding::cached(
                account.as_str(),
                act.rule.as_str(),
                rec.ephemeral_pub.as_str(),
                self.generation,
            ),
            None => LeaseBinding::cached(account.as_str(), act.rule.as_str(), "", self.generation),
        };
        let provenance = caller.provenance();
        let r = GatedRun {
            action: act,
            argv: text::copy_list(argv),
            cwd: cwd.to_owned(),
            degraded,
            sealed_env,
            scope,
            provenance,
            may_lease: caller.may_lease(),
            grant,
            coalesce,
            record,
            account,
            binding,
            depth: depth.saturating_add(1),
        };
        assert(r@ =~= want);
        r
    }

    /// What a request comes to before anyone is asked.
    pub fn plan(&self, argv: &[String], cwd: &str, depth: u32, caller: &Caller) -> (r: Plan)
        ensures
            r@ == planned(
                self.at(),
                AskedView { argv: text::texts(argv@), cwd: cwd@, depth, chain: caller@ },
            ),
    {
        let ghost a = AskedView { argv: text::texts(argv@), cwd: cwd@, depth, chain: caller@ };
        if depth >= self.max_depth {
            return Plan::Refuse(TOO_DEEP.to_owned());
        }
        if self.vault.seal.blocks_serving(self.vault.provisioned) {
            if let Some(why) = self.vault.seal.explain(self.vault.provisioned) {
                let mut s = String::new();
                s.append("sigil: ");
                s.append(why);
                s.append("\n");
                assert(s@ =~= "sigil: "@ + why@ + "\n"@);
                return Plan::Refuse(s);
            }
        }
        if argv.len() == 0 {
            return Plan::Refuse("sigil: empty command\n".to_owned());
        }
        let cmd = argv[0].as_str();
        match self.config.resolve(argv) {
            None => {
                let mut s = String::new();
                s.append("sigil: '");
                s.append(cmd);
                s.append(
                    "' is not configured (no rule matches); Sigil will not run it ungated.\n  configure it: sigil-config add ",
                );
                s.append(cmd);
                s.append(" --provider <id>\n");
                assert(s@ =~= unconfigured_text(a.argv[0]));
                Plan::Refuse(s)
            },
            Some(Resolution::Allow { rule }) => {
                let line = text::join(argv, " ");
                let label = text::trim(line.as_str());
                let run = RunPlan {
                    provider: String::new(),
                    passthrough: true,
                    command: text::copy_list(argv),
                    cwd: cwd.to_owned(),
                    source: String::new(),
                    env: None,
                    plain: Vec::new(),
                    depth: depth.saturating_add(1),
                };
                assert(run@ =~= direct_run(a));
                Plan::Pass { rule, label, provenance: caller.provenance(), run }
            },
            Some(Resolution::Gate(action)) => {
                match find_provider(self.providers, action.provider.as_str()) {
                    None => {
                        let mut s = String::new();
                        s.append("sigil: rule '");
                        s.append(action.rule.as_str());
                        s.append("' names an unknown provider '");
                        s.append(action.provider.as_str());
                        s.append("'\n");
                        assert(s@ =~= unknown_provider_text(action@.rule, action@.provider));
                        Plan::Refuse(s)
                    },
                    Some(provider) => Plan::Gate(
                        self.gate(argv, cwd, depth, caller, action, provider),
                    ),
                }
            },
        }
    }
}

/// Nothing runs ungated but what an allow rule lets through: an invocation that no
/// rule matches is refused.
pub proof fn only_an_allow_rule_runs_ungated(w: WorldView, a: AskedView)
    ensures
        (planned(w, a) matches PlanView::Pass { rule, .. } ==> config::resolved(w.config, a.argv)
            == Some(ResolutionView::Allow { rule })),
        config::resolved(w.config, a.argv) is None ==> planned(w, a) is Refuse,
{
}

/// A keystore that refuses to serve runs nothing, whatever the rules say.
pub proof fn a_refusing_keystore_runs_nothing(w: WorldView, a: AskedView)
    requires
        w.vault.seal.blocks(w.vault.provisioned),
    ensures
        planned(w, a) is Refuse,
{
}

/// A chain of proxies ends: at the limit nothing runs, and each child is one
/// deeper than its caller.
pub proof fn a_proxy_loop_ends(w: WorldView, a: AskedView)
    ensures
        a.depth >= w.max_depth ==> planned(w, a) is Refuse,
        (planned(w, a) matches PlanView::Pass { run, .. } ==> run.depth == a.depth + 1),
        (planned(w, a) matches PlanView::Gate(g) ==> g.depth == a.depth + 1),
{
}

/// What is filed for a rule is the same for every command the rule matches and
/// every directory it runs from: only the caller, the rule, its source and the
/// config generation matter.
pub proof fn a_window_is_filed_under_the_rule(w: WorldView, a: AskedView, b: AskedView)
    requires
        a.chain == b.chain,
        planned(w, a) is Gate,
        planned(w, b) is Gate,
        planned(w, a)->Gate_0.action == planned(w, b)->Gate_0.action,
    ensures
        planned(w, a)->Gate_0.grant == planned(w, b)->Gate_0.grant,
        planned(w, a)->Gate_0.binding == planned(w, b)->Gate_0.binding,
{
}

/// Two requests share an approval in flight only where they come from the same
/// tree and agree on the directory and the arguments: approving one command never
/// releases another that runs beside it.
pub proof fn different_commands_never_share_an_approval(
    a: AskedView,
    b: AskedView,
)
    requires
        lease::measured_chain(a.chain),
        lease::measured_chain(b.chain),
        encode_utf8(a.cwd).len() <= u64::MAX,
        encode_utf8(b.cwd).len() <= u64::MAX,
        encode_utf8(notices::arguments(a.argv)).len() <= u64::MAX,
        encode_utf8(notices::arguments(b.argv)).len() <= u64::MAX,
        lease::grant_record(a.chain, ScopeKind::Command, a.cwd, notices::arguments(a.argv))
            == lease::grant_record(b.chain, ScopeKind::Command, b.cwd, notices::arguments(b.argv)),
    ensures
        lease::same_tree(a.chain, b.chain),
        a.cwd == b.cwd,
        notices::arguments(a.argv) == notices::arguments(b.argv),
{
    lease::grant_record_reads_one_way(
        a.chain,
        ScopeKind::Command,
        a.cwd,
        notices::arguments(a.argv),
        b.chain,
        ScopeKind::Command,
        b.cwd,
        notices::arguments(b.argv),
    );
}

/// A run that injects sealed values names their source and the point they were
/// sealed under, so a window dies with them; a plain gate names neither.
pub proof fn a_window_is_bound_to_what_it_caches(w: WorldView, a: AskedView)
    requires
        planned(w, a) is Gate,
    ensures
        ({
            let g = planned(w, a)->Gate_0;
            &&& g.sealed_env <==> g.record is Some
            &&& g.record matches Some(r) ==> g.binding.source == r.ephemeral_pub && g.account
                == g.action.source_name && sealed::record_of(w.sealed, g.action.source_name)
                == Some(r)
            &&& g.record is None ==> g.binding.source.len() == 0 && g.account.len() == 0
            &&& g.binding.config_gen == w.generation
        }),
{
}

/// A plan is of the request itself: what is gated or passed has the caller's own
/// arguments and directory, and the action of the rule that decided, with its keys
/// dropped exactly where they are sealed and there is nothing sealed to open.
pub proof fn a_plan_is_of_the_request(w: WorldView, a: AskedView)
    ensures
        (planned(w, a) matches PlanView::Pass { rule, run, provenance, .. } ==> {
            &&& run.command == a.argv
            &&& run.cwd == a.cwd
            &&& run.env is None
            &&& run.plain.len() == 0
            &&& run.source.len() == 0
            &&& run.provider.len() == 0
            &&& run.passthrough
            &&& provenance == lease::chain_text(a.chain)
        }),
        (planned(w, a) matches PlanView::Gate(g) ==> {
            &&& g.argv == a.argv
            &&& g.cwd == a.cwd
            &&& g.provenance == lease::chain_text(a.chain)
            &&& g.may_lease <==> a.chain.len() > 0
            &&& config::resolved(w.config, a.argv) matches Some(ResolutionView::Gate(action)) && {
                &&& g.action.rule == action.rule
                &&& g.action.provider == action.provider
                &&& g.action.source_name == action.source_name
                &&& g.action.source_path == action.source_path
                &&& g.action.account == action.account
                &&& g.action.plain_env == action.plain_env
                &&& g.action.lease == action.lease
                &&& g.action.timeout_sec == action.timeout_sec
                &&& g.action.env_keys == action.env_keys || (g.action.env_keys.len() == 0
                    && !g.sealed_env && forall|i: int|
                    0 <= i < w.sealed.len() ==> (#[trigger] w.sealed[i]).account_id
                        != action.source_name)
                &&& g.degraded <==> action.env_keys.len() > 0 && g.action.env_keys.len() == 0
                &&& exists|i: int|
                    0 <= i < w.providers.len() && (#[trigger] w.providers[i]).id == action.provider
                        && (g.sealed_env <==> w.providers[i].needs_sealed_env
                        && g.action.env_keys.len() > 0)
            }
            &&& g.binding.scope == g.action.rule
            &&& g.binding.account == g.account
            &&& g.sealed_env ==> g.account == g.action.source_name && (g.record matches Some(r)
                && r.account_id == g.action.source_name && w.sealed.contains(r) && g.binding.source
                == r.ephemeral_pub)
            &&& !g.sealed_env ==> g.account.len() == 0 && g.record is None && g.binding.source.len()
                == 0
        }),
{
    if let PlanView::Gate(g) = planned(w, a) {
        let action = config::resolved(w.config, a.argv)->0->Gate_0;
        let byid = |v: ProviderView| v.id == action.provider;
        lists::first_where_is_first(w.providers, byid);
        let k = lists::first_where(w.providers, byid);
        assert(byid(w.providers[k]));
        let mine = |r: RecordView| r.account_id == action.source_name;
        lists::first_where_is_first(w.sealed, mine);
        let at = lists::first_where(w.sealed, mine);
        if at < w.sealed.len() {
            assert(mine(w.sealed[at]));
            assert(w.sealed.contains(w.sealed[at]));
        } else {
            assert forall|i: int| 0 <= i < w.sealed.len() implies (#[trigger] w.sealed[i]).account_id
                != action.source_name by {
                assert(!mine(w.sealed[i]));
            }
        }
    }
}

/// The message that the key of a gate's question is the digest of.
pub open spec fn asking_message(chain: Seq<AncestorView>, cwd: Seq<char>, args: Seq<char>) -> Seq<u8> {
    lease::grant_record(chain, ScopeKind::Command, cwd, args)
}

/// The message that the key of a gate's window is the digest of.
pub open spec fn window_message(chain: Seq<AncestorView>, rule: Seq<char>) -> Seq<u8> {
    lease::grant_record(chain, ScopeKind::Command, Seq::empty(), rule)
}

/// Of two gated requests, the messages that their asking keys are digests of are one
/// only where the callers are one tree and the directory and the arguments agree;
/// and the messages of their windows' keys only where the callers are one tree and
/// the rule is the same.
pub proof fn a_key_is_of_the_caller_and_what_is_asked(
    w: WorldView,
    v: WorldView,
    a: AskedView,
    b: AskedView,
)
    requires
        planned(w, a) is Gate,
        planned(v, b) is Gate,
        lease::measured_chain(a.chain),
        lease::measured_chain(b.chain),
        encode_utf8(a.cwd).len() <= u64::MAX,
        encode_utf8(b.cwd).len() <= u64::MAX,
        encode_utf8(planned(w, a)->Gate_0.scope).len() <= u64::MAX,
        encode_utf8(planned(v, b)->Gate_0.scope).len() <= u64::MAX,
        encode_utf8(planned(w, a)->Gate_0.action.rule).len() <= u64::MAX,
        encode_utf8(planned(v, b)->Gate_0.action.rule).len() <= u64::MAX,
    ensures
        ({
            let g = planned(w, a)->Gate_0;
            let h = planned(v, b)->Gate_0;
            let m = asking_message(a.chain, a.cwd, g.scope);
            let n = asking_message(b.chain, b.cwd, h.scope);
            let x = window_message(a.chain, g.action.rule);
            let y = window_message(b.chain, h.action.rule);
            &&& g.coalesce == bytes::blake2b256_of(m)
            &&& h.coalesce == bytes::blake2b256_of(n)
            &&& m == n ==> lease::same_tree(a.chain, b.chain) && a.cwd == b.cwd && g.scope == h.scope
            &&& g.grant == bytes::blake2b256_of(x)
            &&& h.grant == bytes::blake2b256_of(y)
            &&& x == y ==> lease::same_tree(a.chain, b.chain) && g.action.rule == h.action.rule
            &&& lease::same_tree(a.chain, b.chain) && g.action.rule == h.action.rule ==> x == y
        }),
{
    let g = planned(w, a)->Gate_0;
    let h = planned(v, b)->Gate_0;
    assert(encode_utf8(Seq::<char>::empty()).len() == 0);
    if asking_message(a.chain, a.cwd, g.scope) == asking_message(b.chain, b.cwd, h.scope) {
        lease::grant_record_reads_one_way(
            a.chain,
            ScopeKind::Command,
            a.cwd,
            g.scope,
            b.chain,
            ScopeKind::Command,
            b.cwd,
            h.scope,
        );
    }
    if window_message(a.chain, g.action.rule) == window_message(b.chain, h.action.rule) {
        lease::grant_record_reads_one_way(
            a.chain,
            ScopeKind::Command,
            Seq::empty(),
            g.action.rule,
            b.chain,
            ScopeKind::Command,
            Seq::empty(),
            h.action.rule,
        );
    }
    if lease::same_tree(a.chain, b.chain) && g.action.rule == h.action.rule {
        lease::grant_record_ignores_pids(
            a.chain,
            b.chain,
            ScopeKind::Command,
            Seq::empty(),
            g.action.rule,
        );
    }
}

/// The scope that is shown and asked under is the arguments, all of them in order: a
/// command alone has none, the first argument stands by itself, and each further one
/// is put behind a space. What the command itself is called plays no part in it.
pub proof fn the_scope_is_every_argument(w: WorldView, a: AskedView, more: Seq<char>)
    requires
        planned(w, a) is Gate,
    ensures
        ({
            let scope = planned(w, a)->Gate_0.scope;
            let longer = notices::arguments(a.argv.push(more));
            &&& scope == notices::arguments(a.argv)
            &&& a.argv.len() == 1 ==> scope.len() == 0 && longer == more
            &&& a.argv.len() > 1 ==> longer == scope + " "@ + more
        }),
{
    let p = a.argv.push(more);
    if a.argv.len() == 1 {
        assert(a.argv.skip(1) =~= Seq::empty());
        assert(p.skip(1) =~= seq![more]);
    } else {
        assert(p.skip(1).drop_last() =~= a.argv.skip(1));
        assert(p.skip(1).last() == more);
    }
}

/// A request is refused, each time with the reason that holds, exactly where the
/// depth is at its limit, the keystore refuses, there is no command, no rule decides,
/// or the rule's provider is unknown.
pub proof fn a_request_is_refused_for_a_reason(w: WorldView, a: AskedView)
    ensures
        planned(w, a) is Refuse <==> a.depth >= w.max_depth || w.vault.seal.blocks(
            w.vault.provisioned,
        ) || a.argv.len() == 0 || match config::resolved(w.config, a.argv) {
            None => true,
            Some(ResolutionView::Allow { .. }) => false,
            Some(ResolutionView::Gate(action)) => forall|i: int|
                0 <= i < w.providers.len() ==> (#[trigger] w.providers[i]).id != action.provider,
        },
        (planned(w, a) is Pass <==> !(planned(w, a) is Refuse) && (config::resolved(
            w.config,
            a.argv,
        ) matches Some(d) && d is Allow)),
{
    if let Some(ResolutionView::Gate(action)) = config::resolved(w.config, a.argv) {
        let byid = |v: ProviderView| v.id == action.provider;
        lists::first_where_is_first(w.providers, byid);
        let k = lists::first_where(w.providers, byid);
        if k < w.providers.len() {
            assert(byid(w.providers[k]));
        } else {
            assert forall|i: int| 0 <= i < w.providers.len() implies (#[trigger] w.providers[i]).id
                != action.provider by {
                assert(!byid(w.providers[i]));
            }
        }
    }
}

/// What an allow rule lets through is labelled with the whole command: every argument
/// that is a word of its own stands in the label.
pub proof fn an_allowed_command_is_labelled_whole(w: WorldView, a: AskedView, i: int)
    requires
        0 <= i < a.argv.len(),
        a.argv[i].len() > 0,
        forall|k: int| 0 <= k < a.argv[i].len() ==> !text::white(#[trigger] a.argv[i][k]),
    ensures
        planned(w, a) matches PlanView::Pass { label, .. } ==> text::occurs_in(label, a.argv[i]),
        planned(w, a) matches PlanView::Pass { rule, .. } ==> config::resolved(w.config, a.argv)
            == Some(ResolutionView::Allow { rule }),
{
    let s = text::joined(a.argv, " "@);
    let x = a.argv[i];
    text::a_part_stands_in_the_join(a.argv, " "@, i);
    let at = choose|at: int| text::occurs_at(s, x, at);
    let cut = text::trimming_takes_only_white_space(s);
    assert(s[at] == x[0]) by {
        assert(s.subrange(at, at + x.len())[0] == x[0]);
    }
    assert(s[at + x.len() - 1] == x[x.len() - 1]) by {
        assert(s.subrange(at, at + x.len())[x.len() - 1] == x[x.len() - 1]);
    }
    assert(!text::white(x[0]) && !text::white(x[x.len() - 1]));
    assert(cut.0 <= at && at + x.len() <= cut.1);
    let t = text::trimmed(s);
    assert(t.subrange(at - cut.0, at - cut.0 + x.len()) =~= s.subrange(at, at + x.len()));
    assert(text::occurs_at(t, x, at - cut.0));
}

/// What runs is one proxy further in than what asked for it, and a window is of the
/// generation of the config that decided.
pub proof fn a_run_is_one_deeper(w: WorldView, a: AskedView)
    ensures
        planned(w, a) matches PlanView::Pass { run, .. } ==> run.depth == a.depth + 1,
        planned(w, a) matches PlanView::Gate(g) ==> g.depth == a.depth + 1 && g.binding.config_gen
            == w.generation,
{
}

/// A refusal says what it is about: the reason of the keystore, the command that no
/// rule matches, or the rule and the provider that is not there.
pub proof fn a_refusal_says_what_it_is_about(w: WorldView, a: AskedView)
    requires
        a.depth < w.max_depth,
    ensures
        w.vault.seal.blocks(w.vault.provisioned) ==> (planned(w, a) matches PlanView::Refuse(s)
            && text::occurs_in(s, w.vault.seal.why(w.vault.provisioned)->0)),
        !w.vault.seal.blocks(w.vault.provisioned) && a.argv.len() > 0 ==> match config::resolved(
            w.config,
            a.argv,
        ) {
            None => planned(w, a) matches PlanView::Refuse(s) && text::occurs_in(s, a.argv[0]),
            Some(ResolutionView::Gate(action)) => planned(w, a) matches PlanView::Refuse(s)
                ==> text::occurs_in(s, action.rule) && text::occurs_in(s, action.provider),
            _ => true,
        },
{
    broadcast use text::parts_stand_in;

}

/// What a request is planned as holds the whole request: every argument, in order, and
/// the directory it came from.
pub proof fn a_plan_holds_every_argument(
    w: &World,
    argv: &[String],
    cwd: &str,
    depth: u32,
    caller: &Caller,
    r: Plan,
    i: int,
)
    requires
        call_ensures(World::plan, (w, argv, cwd, depth, caller), r),
    ensures
        r matches Plan::Gate(g) ==> g.argv@.len() == argv@.len() && g.cwd@ == cwd@ && (0 <= i
            < argv@.len() ==> g.argv@[i]@ == argv@[i]@),
        r matches Plan::Pass { run, .. } ==> run.command@.len() == argv@.len() && run.cwd@ == cwd@
            && run.env is None && run.plain@.len() == 0 && (0 <= i < argv@.len()
            ==> run.command@[i]@ == argv@[i]@),
{
    let a = AskedView { argv: text::texts(argv@), cwd: cwd@, depth, chain: caller@ };
    a_plan_is_of_the_request(w.at(), a);
    if let Plan::Gate(g) = r {
        assert(g@.argv == a.argv);
        assert(g@.argv.len() == g.argv@.len());
        if 0 <= i < argv@.len() {
            assert(g@.argv[i] == a.argv[i]);
        }
    }
    if let Plan::Pass { run, .. } = r {
        assert(run@.command == a.argv);
        assert(run@.command.len() == run.command@.len());
        assert(run@.plain.len() == run.plain@.len());
        if 0 <= i < argv@.len() {
            assert(run@.command[i] == a.argv[i]);
        }
    }
}

} // verus!
