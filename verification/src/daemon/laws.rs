//! What holds of every gated run.
use crate::bytes;
use crate::daemon::env;
use crate::daemon::fulfil;
use crate::daemon::fulfil::{
    Decision, Fulfilment, Next, NextView, OpeningView, RunningView, Stage, Told, ToldView,
};
use crate::daemon::plan;
use crate::daemon::plan::{AskedView, GateView, WorldView};
use crate::daemon::request::{KindView, RefView};
use crate::lease::store;
use crate::lease::store::{GrantView, LeaseStore, LeaseView};
use crate::lists;
use crate::policy::PolicyView;
use crate::text;
use vstd::prelude::*;

verus! {

/// Nothing runs but what a live window answers, or what the approver granted: a
/// step that runs is a lookup that hit, a cache that was consented to, a grant
/// that needs nothing opened, or sealed values that opened to what was approved.
pub proof fn a_run_needs_a_window_or_a_grant(
    f: RunningView,
    leases: Seq<LeaseView>,
    now: int,
    lease_id: Seq<u8>,
    via: Seq<char>,
    told: ToldView,
)
    requires
        fulfil::stepped(f, leases, now, lease_id, via, told).next is Run,
    ensures
        match told {
            ToldView::Described { .. } => f.gate.may_lease && !f.gate.sealed_env
                && store::looked_up(leases, now, f.gate.grant, f.gate.binding) is Some,
            ToldView::Decoded(pairs) => env::released(
                f.gate.sealed_env,
                pairs,
                f.gate.action.env_keys,
            ) is Ok,
            ToldView::Decided { decision, .. } => !(decision is Deny) && f.gate.record is None,
            ToldView::Opened(o) => fulfil::opened(o, f.gate.action.env_keys) is Ok,
        },
{
}

/// The stages in which the approver has granted the request are reached only
/// through a grant, and only where the approval brings what opens the values.
pub proof fn values_are_opened_only_after_a_grant(
    f: RunningView,
    leases: Seq<LeaseView>,
    now: int,
    lease_id: Seq<u8>,
    via: Seq<char>,
    told: ToldView,
)
    ensures
        fulfil::stepped(f, leases, now, lease_id, via, told).after.stage == Stage::Open ==> (told
            matches ToldView::Decided { decision, partial } && !(decision is Deny) && partial),
        fulfil::stepped(f, leases, now, lease_id, via, told).after.stage == Stage::Decode ==> (told
            is Described && store::looked_up(leases, now, f.gate.grant, f.gate.binding) is Some),
{
}

/// A denied request runs nothing and opens no window, and the audit log says so.
pub proof fn a_denied_request_runs_nothing(
    f: RunningView,
    leases: Seq<LeaseView>,
    now: int,
    lease_id: Seq<u8>,
    via: Seq<char>,
    partial: bool,
)
    ensures
        ({
            let s = fulfil::stepped(
                f,
                leases,
                now,
                lease_id,
                via,
                ToldView::Decided { decision: Decision::Deny, partial },
            );
            &&& s.next == (NextView::Refuse {
                message: "request denied\n"@,
                audit: Some(fulfil::audit_of(f, "denied"@, Seq::empty())),
            })
            &&& s.leases == leases
        }),
{
}

/// Every refusal leaves the open windows as they are: sealed values that do not
/// open, or that set other names than were approved, leave no window behind.
pub proof fn a_refusal_opens_no_window(
    f: RunningView,
    leases: Seq<LeaseView>,
    now: int,
    lease_id: Seq<u8>,
    via: Seq<char>,
    told: ToldView,
)
    requires
        fulfil::stepped(f, leases, now, lease_id, via, told).next is Refuse,
    ensures
        fulfil::stepped(f, leases, now, lease_id, via, told).leases == leases,
{
}

/// Sealed variables that are injected set exactly the names that the rule
/// consents to, on a fresh approval as on a cached one.
pub proof fn only_consented_names_are_injected(
    f: RunningView,
    leases: Seq<LeaseView>,
    now: int,
    lease_id: Seq<u8>,
    via: Seq<char>,
    told: ToldView,
)
    ensures
        (fulfil::stepped(f, leases, now, lease_id, via, told).next matches NextView::Run {
            run,
            ..
        } ==> (run.env matches Some(pairs) ==> env::keys_match(pairs, f.gate.action.env_keys))),
{
}

/// A run-once rule opens no window, whatever the approver asks for; a rule that
/// may be leased opens none that is longer than its cap.
pub proof fn the_rule_alone_decides_on_the_window(g: GateView, window: Option<u128>)
    ensures
        g.action.lease is RunOnce ==> fulfil::window_secs(g, window) is None,
        (g.action.lease matches PolicyView::Leasable { max_secs, .. } ==> (fulfil::window_secs(
            g,
            window,
        ) matches Some(secs) ==> secs <= max_secs)),
        window is None ==> fulfil::window_secs(g, window) is None,
{
}

/// A caller without an identity neither uses a window nor opens one.
pub proof fn a_caller_without_identity_touches_no_window(
    f: RunningView,
    leases: Seq<LeaseView>,
    now: int,
    lease_id: Seq<u8>,
    via: Seq<char>,
    told: ToldView,
)
    requires
        !f.gate.may_lease,
        !(told is Decoded),
    ensures
        fulfil::stepped(f, leases, now, lease_id, via, told).leases == leases,
        told is Described ==> fulfil::stepped(f, leases, now, lease_id, via, told).next is Approve,
{
}

/// One approval covers whatever the rule matches for that caller until the window
/// ends: where a plain gate was approved with a window, a later request of the
/// same caller that the same rule matches, with other arguments and from another
/// directory, runs without asking.
pub proof fn one_approval_covers_the_rule(
    w: WorldView,
    a: AskedView,
    b: AskedView,
    leases: Seq<LeaseView>,
    now: int,
    later: int,
    lease_id: Seq<u8>,
    via: Seq<char>,
    f: RunningView,
    decision: Decision,
    partial: bool,
    id: Seq<char>,
    refs: Seq<RefView>,
    kind: KindView,
)
    requires
        a.chain == b.chain,
        plan::planned(w, a) is Gate,
        plan::planned(w, b) is Gate,
        plan::planned(w, a)->Gate_0.action == plan::planned(w, b)->Gate_0.action,
        f.gate == plan::planned(w, a)->Gate_0,
        !f.gate.sealed_env,
        !(decision is Deny),
        fulfil::window_secs(f.gate, decision.window()) is Some,
        now <= later < now + fulfil::window_secs(f.gate, decision.window())->0 * 1_000_000_000,
    ensures
        ({
            let approved = fulfil::stepped(
                f,
                leases,
                now,
                lease_id,
                via,
                ToldView::Decided { decision, partial },
            );
            let g = fulfil::begun(id, plan::planned(w, b)->Gate_0);
            &&& approved.next is Run
            &&& fulfil::stepped(
                g,
                approved.leases,
                later,
                lease_id,
                via,
                ToldView::Described { refs, kind },
            ).next == (NextView::Run {
                run: fulfil::run_of(g.gate, None),
                audit: fulfil::audit_of(
                    RunningView { refs, kind, ..g },
                    "approved"@,
                    "lease"@,
                ),
            })
        }),
{
    let secs = fulfil::window_secs(f.gate, decision.window())->0;
    let grant = GrantView {
        grant: f.gate.grant,
        binding: f.gate.binding,
        covers: f.gate.action.lease.covers(),
        token: Seq::empty(),
        ttl: secs as int * 1_000_000_000,
    };
    plan::a_window_is_filed_under_the_rule(w, a, b);
    plan::a_window_is_bound_to_what_it_caches(w, a);
    store::lookup_gives_back_the_grant(leases, now, lease_id, grant, later);
}

/// Values that an approval opened are what a later run of the same rule decodes,
/// until the window ends.
pub proof fn a_window_gives_back_the_opened_values(
    f: RunningView,
    g: RunningView,
    leases: Seq<LeaseView>,
    now: int,
    later: int,
    lease_id: Seq<u8>,
    via: Seq<char>,
    pairs: Seq<(Seq<char>, Seq<u8>)>,
    plain: Seq<u8>,
    refs: Seq<RefView>,
    kind: KindView,
)
    requires
        env::keys_match(pairs, f.gate.action.env_keys),
        fulfil::window_secs(f.gate, f.window) is Some,
        now <= later < now + fulfil::window_secs(f.gate, f.window)->0 * 1_000_000_000,
        g.gate.grant == f.gate.grant,
        g.gate.binding == f.gate.binding,
        g.gate.may_lease,
        g.gate.sealed_env,
    ensures
        ({
            let approved = fulfil::stepped(
                f,
                leases,
                now,
                lease_id,
                via,
                ToldView::Opened(OpeningView::Values { pairs, plain }),
            );
            fulfil::stepped(
                g,
                approved.leases,
                later,
                lease_id,
                via,
                ToldView::Described { refs, kind },
            ).next == NextView::Decode(plain)
        }),
{
    let secs = fulfil::window_secs(f.gate, f.window)->0;
    let grant = GrantView {
        grant: f.gate.grant,
        binding: f.gate.binding,
        covers: f.gate.action.lease.covers(),
        token: plain,
        ttl: secs as int * 1_000_000_000,
    };
    store::lookup_gives_back_the_grant(leases, now, lease_id, grant, later);
}

/// A run that was begun under one config opens a window that no request under the
/// next one uses: the generation they are bound to differs.
pub proof fn a_window_of_an_earlier_config_is_not_used(
    w: WorldView,
    next: WorldView,
    a: AskedView,
    b: AskedView,
)
    requires
        w.generation != next.generation,
        plan::planned(w, a) is Gate,
        plan::planned(next, b) is Gate,
    ensures
        plan::planned(w, a)->Gate_0.binding != plan::planned(next, b)->Gate_0.binding,
{
}

/// What runs is what was asked for, wherever a step comes to it: the caller's own
/// arguments, token for token, in the caller's own directory, through the provider
/// and the file of the rule's source. Every plain variable that no injected one has
/// the name of goes with it, and none else.
pub proof fn what_runs_is_what_was_asked_for(
    f: RunningView,
    leases: Seq<LeaseView>,
    now: int,
    lease_id: Seq<u8>,
    via: Seq<char>,
    told: ToldView,
    p: (Seq<char>, Seq<char>),
)
    ensures
        (fulfil::stepped(f, leases, now, lease_id, via, told).next matches NextView::Run {
            run,
            ..
        } ==> {
            &&& run.command == f.gate.argv
            &&& run.cwd == f.gate.cwd
            &&& run.depth == f.gate.depth
            &&& run.provider == f.gate.action.provider
            &&& f.gate.action.source_path matches Some(path) ==> run.source == path
            &&& f.gate.action.source_path is None ==> run.source.len() == 0
            &&& run.passthrough <==> run.env is None && f.gate.action.provider == "env"@
            &&& run.plain.contains(p) <==> f.gate.action.plain_env.contains(p) && !(run.env matches Some(
                pairs,
            ) && exists|i: int| 0 <= i < pairs.len() && (#[trigger] pairs[i]).0 == p.0)
            &&& run.plain.len() <= f.gate.action.plain_env.len()
        }),
{
    if let NextView::Run { run, .. } = fulfil::stepped(f, leases, now, lease_id, via, told).next {
        env::only_the_injected_shadow(f.gate.action.plain_env, run.env, p);
        crate::lists::filter_members(
            f.gate.action.plain_env,
            |q: (Seq<char>, Seq<char>)| !env::shadows(run.env, q.0),
        );
    }
}

/// What is injected is what was opened, or what the window caches, and nothing
/// where there is neither: no step makes up a value, swaps one or leaves one out.
pub proof fn what_is_injected_is_what_was_opened(
    f: RunningView,
    leases: Seq<LeaseView>,
    now: int,
    lease_id: Seq<u8>,
    via: Seq<char>,
    told: ToldView,
)
    ensures
        (fulfil::stepped(f, leases, now, lease_id, via, told).next matches NextView::Run {
            run,
            ..
        } ==> match told {
            ToldView::Described { .. } => run.env is None,
            ToldView::Decoded(pairs) => if f.gate.sealed_env {
                pairs is Some && run.env == pairs
            } else {
                run.env is None
            },
            ToldView::Decided { .. } => run.env is None,
            ToldView::Opened(o) => o matches OpeningView::Values { pairs, .. } && run.env == Some(
                pairs,
            ),
        }),
{
}

/// Opened values run exactly where the names that they set are the names that the
/// rule consents to, whatever their order; anything that did not open runs nothing.
pub proof fn opened_values_run_where_consented(
    f: RunningView,
    leases: Seq<LeaseView>,
    now: int,
    lease_id: Seq<u8>,
    via: Seq<char>,
    o: OpeningView,
)
    ensures
        fulfil::stepped(f, leases, now, lease_id, via, ToldView::Opened(o)).next is Run <==> (o
            matches OpeningView::Values { pairs, .. } && forall|k: Seq<char>|
            #![trigger f.gate.action.env_keys.contains(k)]
            f.gate.action.env_keys.contains(k) <==> exists|i: int|
                0 <= i < pairs.len() && (#[trigger] pairs[i]).0 == k),
        !(fulfil::stepped(f, leases, now, lease_id, via, ToldView::Opened(o)).next is Run)
            ==> fulfil::stepped(f, leases, now, lease_id, via, ToldView::Opened(o)).next is Refuse,
{
    if let OpeningView::Values { pairs, .. } = o {
        env::consented_exactly(pairs, f.gate.action.env_keys);
    }
}

/// A step changes neither who asks nor what for: the request keeps its id and all
/// that was planned of it.
pub proof fn a_step_keeps_the_request(
    f: RunningView,
    leases: Seq<LeaseView>,
    now: int,
    lease_id: Seq<u8>,
    via: Seq<char>,
    told: ToldView,
)
    ensures
        ({
            let after = fulfil::stepped(f, leases, now, lease_id, via, told).after;
            &&& after.id == f.id
            &&& after.gate == f.gate
            &&& told matches ToldView::Described { refs, kind } ==> after.refs == refs && after.kind
                == kind
            &&& !(told is Described) ==> after.refs == f.refs && after.kind == f.kind
        }),
{
}

/// The approver is shown what will run and for whom: the caller's arguments and
/// directory, the chain of callers, the secrets that are read, the rule's own
/// policy, the window's key, and a challenge exactly where something sealed is to
/// be opened, for that very record.
pub proof fn the_approver_is_shown_the_request(
    f: RunningView,
    leases: Seq<LeaseView>,
    now: int,
    lease_id: Seq<u8>,
    via: Seq<char>,
    told: ToldView,
)
    ensures
        (fulfil::stepped(f, leases, now, lease_id, via, told).next matches NextView::Approve {
            coalesce,
            context,
        } ==> {
            &&& coalesce == f.gate.coalesce
            &&& context.id == f.id
            &&& context.command == f.gate.argv
            &&& context.cwd == f.gate.cwd
            &&& context.scope == f.gate.scope
            &&& context.provenance == f.gate.provenance
            &&& context.account == f.gate.account
            &&& context.lease == f.gate.action.lease
            &&& bytes::hex_bytes(context.grant_hex) == f.gate.grant
            &&& context.ssh is None
            &&& told matches ToldView::Described { refs, kind } ==> context.secret_refs == refs
                && context.kind == kind
            &&& !(told is Described) ==> context.secret_refs == f.refs && context.kind == f.kind
            &&& context.threshold is Some <==> f.gate.record is Some
            &&& context.threshold matches Some(c) ==> {
                let r = f.gate.record->0;
                &&& c.account_id == r.account_id
                &&& c.ephemeral_pub == r.ephemeral_pub
                &&& c.se_key_id == r.se_key_id
                &&& c.ecdh_algo == r.ecdh_algo
                &&& c.label == f.gate.account
            }
        }),
{
    bytes::hex_reads_back(f.gate.grant);
}

/// What was shown is what runs: once a request was put to the approver, whatever
/// run it comes to in the next steps has the command, the directory and the account
/// that were shown, and is logged under the id that was shown.
pub proof fn what_was_shown_is_what_runs(
    f: RunningView,
    leases: Seq<LeaseView>,
    now: int,
    lease_id: Seq<u8>,
    via: Seq<char>,
    told: ToldView,
    later: Seq<LeaseView>,
    then: int,
    other_id: Seq<u8>,
    decided: ToldView,
    last: Seq<LeaseView>,
    at: int,
    third_id: Seq<u8>,
    opened: ToldView,
)
    ensures
        (fulfil::stepped(f, leases, now, lease_id, via, told).next matches NextView::Approve {
            context,
            ..
        } ==> {
            let asked = fulfil::stepped(f, leases, now, lease_id, via, told).after;
            let granted = fulfil::stepped(asked, later, then, other_id, via, decided);
            let done = fulfil::stepped(granted.after, last, at, third_id, via, opened);
            &&& granted.next matches NextView::Run { run, audit } ==> run.command
                == context.command && run.cwd == context.cwd && audit.id == context.id
                && audit.account == context.account && audit.cwd == context.cwd && audit.process
                == context.provenance
            &&& done.next matches NextView::Run { run, audit } ==> run.command == context.command
                && run.cwd == context.cwd && audit.id == context.id && audit.account
                == context.account && audit.cwd == context.cwd && audit.process
                == context.provenance
            &&& granted.next matches NextView::Open(record) ==> (context.threshold matches Some(c)
                && c.ephemeral_pub == record.ephemeral_pub && c.account_id == record.account_id)
        }),
{
}

/// The audit log tells the truth: a run is logged as approved, by the window where
/// one answered and by the factor otherwise, a denial as denied, and both with the
/// request's own id, kind, account, caller and directory, under the first secret
/// that is read, or the arguments where none is named.
pub proof fn the_log_tells_what_happened(
    f: RunningView,
    leases: Seq<LeaseView>,
    now: int,
    lease_id: Seq<u8>,
    via: Seq<char>,
    told: ToldView,
)
    ensures
        ({
            let s = fulfil::stepped(f, leases, now, lease_id, via, told);
            let entry = match s.next {
                NextView::Run { audit, .. } => Some(audit),
                NextView::Refuse { audit, .. } => audit,
                _ => None,
            };
            &&& s.next is Run ==> entry->0.decision == "approved"@
            &&& s.next is Run && (told is Described || told is Decoded) ==> entry->0.via == "lease"@
            &&& s.next is Run && !(told is Described || told is Decoded) ==> entry->0.via == via
            &&& s.next is Refuse && entry is Some ==> entry->0.decision == "denied"@
                && entry->0.via.len() == 0 && (told matches ToldView::Decided { decision, .. }
                && decision is Deny)
            &&& entry matches Some(e) ==> {
                &&& e.id == s.after.id
                &&& e.kind == s.after.kind
                &&& e.account == f.gate.account
                &&& e.process == f.gate.provenance
                &&& e.cwd == f.gate.cwd
                &&& s.after.refs.len() > 0 ==> e.label == s.after.refs[0].label
                &&& s.after.refs.len() == 0 ==> e.label == f.gate.scope
            }
        }),
{
}

/// Steps come in their order: a window that answers is used or decoded, else the
/// approver is asked; a denial ends it, a grant runs a plain gate and opens a sealed
/// one, and what opens runs. Nothing is opened but the record that was planned, and
/// nothing is decoded but what the window caches.
pub proof fn steps_come_in_their_order(
    f: RunningView,
    leases: Seq<LeaseView>,
    now: int,
    lease_id: Seq<u8>,
    via: Seq<char>,
    told: ToldView,
)
    ensures
        ({
            let s = fulfil::stepped(f, leases, now, lease_id, via, told);
            &&& s.next is Approve <==> s.after.stage == Stage::Approve
            &&& s.next is Decode <==> s.after.stage == Stage::Decode
            &&& s.next is Open <==> s.after.stage == Stage::Open
            &&& s.next is Run || s.next is Refuse <==> s.after.stage == Stage::Ended
            &&& told is Described ==> !(s.next is Open) && !(s.next is Refuse)
            &&& told is Decoded ==> s.next is Run || s.next is Approve
            &&& told is Opened ==> s.next is Run || s.next is Refuse
            &&& s.next matches NextView::Open(r) ==> f.gate.record == Some(r)
            &&& s.next matches NextView::Decode(token) ==> f.gate.sealed_env && exists|i: int|
                0 <= i < leases.len() && (#[trigger] leases[i]).grant == f.gate.grant
                    && leases[i].binding == f.gate.binding && leases[i].expires > now
                    && leases[i].token == token
            &&& (told is Described && s.next is Run) ==> exists|i: int|
                0 <= i < leases.len() && (#[trigger] leases[i]).grant == f.gate.grant
                    && leases[i].binding == f.gate.binding && leases[i].expires > now
        }),
        ({
            &&& told matches ToldView::Decided { decision, partial } ==> {
                let s = fulfil::stepped(f, leases, now, lease_id, via, told);
                &&& s.next is Run <==> !(decision is Deny) && f.gate.record is None
                &&& s.next is Open <==> !(decision is Deny) && f.gate.record is Some && partial
            }
        }),
{
    if store::looked_up(leases, now, f.gate.grant, f.gate.binding) is Some {
        store::only_a_live_matching_lease_is_served(leases, now, f.gate.grant, f.gate.binding);
    }
}

/// A live window of this caller and rule that injects nothing answers without
/// asking; where none is live, and wherever the caller has no identity, the
/// approver is asked.
pub proof fn the_approver_is_asked_where_no_window_answers(
    f: RunningView,
    leases: Seq<LeaseView>,
    now: int,
    lease_id: Seq<u8>,
    via: Seq<char>,
    refs: Seq<RefView>,
    kind: KindView,
)
    ensures
        ({
            let next = fulfil::stepped(
                f,
                leases,
                now,
                lease_id,
                via,
                ToldView::Described { refs, kind },
            ).next;
            let open = exists|i: int|
                0 <= i < leases.len() && (#[trigger] leases[i]).grant == f.gate.grant
                    && leases[i].binding == f.gate.binding && leases[i].expires > now;
            &&& next is Approve <==> !f.gate.may_lease || !open
            &&& next is Decode <==> f.gate.may_lease && open && f.gate.sealed_env
            &&& next is Run <==> f.gate.may_lease && open && !f.gate.sealed_env
        }),
{
    if store::looked_up(leases, now, f.gate.grant, f.gate.binding) is Some {
        store::only_a_live_matching_lease_is_served(leases, now, f.gate.grant, f.gate.binding);
    } else {
        let live = store::live(leases, now);
        let p = store::answers(f.gate.grant, f.gate.binding);
        crate::lists::first_where_is_first(live, p);
        crate::lists::filter_members(leases, |l: LeaseView| l.expires > now);
        assert forall|i: int| 0 <= i < leases.len() && (#[trigger] leases[i]).expires > now implies !(
        leases[i].grant == f.gate.grant && leases[i].binding == f.gate.binding) by {
            assert(leases.contains(leases[i]));
            assert(live.contains(leases[i]));
            let k = live.index_of(leases[i]);
            assert(!p(live[k]));
        }
    }
}

/// An approval opens the window that was asked for, cut to the rule's cap, and no
/// other: nothing where the approver asks for none, the rule is run-once or the
/// caller has no identity.
pub proof fn a_window_is_as_long_as_asked_and_allowed(g: GateView, window: Option<u128>)
    ensures
        fulfil::window_secs(g, window) is Some <==> window is Some && g.may_lease
            && g.action.lease is Leasable,
        (fulfil::window_secs(g, window) matches Some(secs) ==> {
            let asked = window->0 as int / 1_000_000_000;
            let cap = g.action.lease->max_secs as int;
            &&& secs <= asked
            &&& secs <= cap
            &&& secs == asked || secs == cap
        }),
{
}

/// What an approval does to the open windows: where it opens one, that one is filed
/// under the request's key and binding, with the rule's label and what was opened,
/// and lasts for that time from now; every other window that still lasts stays as it
/// is, and where it opens none, nothing changes.
pub proof fn an_approval_opens_its_own_window_alone(
    f: RunningView,
    leases: Seq<LeaseView>,
    now: int,
    lease_id: Seq<u8>,
    via: Seq<char>,
    told: ToldView,
    x: LeaseView,
)
    requires
        told is Decided || told is Opened,
        fulfil::stepped(f, leases, now, lease_id, via, told).next is Run,
    ensures
        ({
            let asked = match told {
                ToldView::Decided { decision, .. } => decision.window(),
                _ => f.window,
            };
            let token = match told {
                ToldView::Opened(OpeningView::Values { plain, .. }) => plain,
                _ => Seq::empty(),
            };
            let after = fulfil::stepped(f, leases, now, lease_id, via, told).leases;
            let mine = x.grant == f.gate.grant && x.binding == f.gate.binding;
            match fulfil::window_secs(f.gate, asked) {
                None => after == leases,
                Some(secs) => {
                    &&& !mine ==> (after.contains(x) <==> leases.contains(x) && x.expires > now)
                    &&& exists|i: int|
                        0 <= i < after.len() && (#[trigger] after[i]).grant == f.gate.grant
                            && after[i].binding == f.gate.binding && after[i].token == token
                            && after[i].covers == f.gate.action.lease->covers && after[i].expires
                            == now + secs * 1_000_000_000
                },
            }
        }),
{
    let asked = match told {
        ToldView::Decided { decision, .. } => decision.window(),
        _ => f.window,
    };
    let token = match told {
        ToldView::Opened(OpeningView::Values { plain, .. }) => plain,
        _ => Seq::empty(),
    };
    if let Some(secs) = fulfil::window_secs(f.gate, asked) {
        let g = GrantView {
            grant: f.gate.grant,
            binding: f.gate.binding,
            covers: f.gate.action.lease.covers(),
            token,
            ttl: secs as int * 1_000_000_000,
        };
        store::a_grant_touches_one_window(leases, now, lease_id, g, x);
        let after = fulfil::stepped(f, leases, now, lease_id, via, told).leases;
        assert(after == store::granted(leases, now, lease_id, g));
        let i = choose|i: int|
            0 <= i < after.len() && (#[trigger] after[i]).grant == g.grant && after[i].binding
                == g.binding && after[i].token == g.token && after[i].covers == g.covers
                && after[i].expires == now + g.ttl;
        assert(after[i].covers == f.gate.action.lease->covers);
    }
}

/// A window whose cache cannot be used is gone: the approver is asked afresh, every
/// window of the rule ends, no other does, and the log names the rule.
pub proof fn a_window_that_cannot_be_used_is_dropped(
    f: RunningView,
    leases: Seq<LeaseView>,
    now: int,
    lease_id: Seq<u8>,
    via: Seq<char>,
    pairs: Option<Seq<(Seq<char>, Seq<u8>)>>,
    l: LeaseView,
)
    requires
        f.gate.sealed_env,
        pairs is None || exists|k: Seq<char>|
            #[trigger] env::injected(pairs->0).contains(k) != f.gate.action.env_keys.contains(k),
    ensures
        ({
            let s = fulfil::stepped(f, leases, now, lease_id, via, ToldView::Decoded(pairs));
            &&& s.next is Approve
            &&& s.leases.contains(l) <==> leases.contains(l) && l.binding.scope
                != f.gate.action.rule
            &&& s.log matches Some(line) && text::occurs_in(line, f.gate.action.rule)
        }),
{
    broadcast use text::parts_stand_in;

    let rule = f.gate.action.rule;
    if pairs is Some {
        let k = choose|k: Seq<char>|
            #[trigger] env::injected(pairs->0).contains(k) != f.gate.action.env_keys.contains(k);
        assert(env::named(f.gate.action.env_keys).contains(k)
            == f.gate.action.env_keys.contains(k));
    }
    lists::filter_members(leases, |l: LeaseView| l.binding.scope != rule);
}

/// A lookup sweeps away what is over and nothing else; a request that may use no
/// window leaves them all as they are.
pub proof fn a_lookup_sweeps_what_is_over(
    f: RunningView,
    leases: Seq<LeaseView>,
    now: int,
    lease_id: Seq<u8>,
    via: Seq<char>,
    refs: Seq<RefView>,
    kind: KindView,
    l: LeaseView,
)
    ensures
        ({
            let s = fulfil::stepped(
                f,
                leases,
                now,
                lease_id,
                via,
                ToldView::Described { refs, kind },
            );
            &&& f.gate.may_lease ==> (s.leases.contains(l) <==> leases.contains(l) && l.expires
                > now)
            &&& !f.gate.may_lease ==> s.leases == leases
        }),
{
    lists::filter_members(leases, |l: LeaseView| l.expires > now);
}

/// Sealed values that did not open, or that set other names than were approved, run
/// nothing, and the refusal says why.
pub proof fn a_failed_opening_says_why(
    f: RunningView,
    leases: Seq<LeaseView>,
    now: int,
    lease_id: Seq<u8>,
    via: Seq<char>,
    o: OpeningView,
    e: Seq<char>,
)
    requires
        !(o is Values),
    ensures
        ({
            let s = fulfil::stepped(f, leases, now, lease_id, via, ToldView::Opened(o));
            &&& s.leases == leases
            &&& s.after.stage == Stage::Ended
            &&& s.next matches NextView::Refuse { message, audit } && audit is None
                && message.len() > 0 && (o == OpeningView::ShareFailed(e) || o
                == OpeningView::DecryptFailed(e) ==> text::occurs_in(message, e))
        }),
{
    broadcast use text::parts_stand_in;

    reveal_strlit("sigil: no Mac threshold share on this daemon; re-pair\n");
    reveal_strlit("sigil: inline env blob is corrupt; re-set it\n");
    reveal_strlit("\n");
}

/// Whatever a step of a gated run leads to, it is of the request as it came: what runs
/// has every argument of it, in order, in its directory; and what the approver is asked
/// shows every argument, in order, and the directory. No step changes either.
pub proof fn every_step_has_every_argument(
    f: &mut Fulfilment,
    leases: &mut LeaseStore,
    now: u128,
    lease_id: [u8; 16],
    via: &str,
    told: Told,
    r: (Next, Option<String>),
    i: int,
)
    requires
        call_ensures(Fulfilment::tell_at, (f, leases, now, lease_id, via, told), r),
    ensures
        ({
            let asked = old(f).gate.argv@;
            &&& final(f).gate.argv@.len() == asked.len() && final(f).gate.cwd@ == old(f).gate.cwd@
            &&& r.0 matches Next::Run { run, audit } ==> run.command@.len() == asked.len()
                && run.cwd@ == old(f).gate.cwd@ && audit.id@ == old(f).id@ && (0 <= i < asked.len()
                ==> run.command@[i]@ == asked[i]@)
            &&& r.0 matches Next::Approve { context, .. } ==> context.command@.len() == asked.len()
                && context.cwd@ == old(f).gate.cwd@ && context.id@ == old(f).id@
                && context.scope@ == old(f).gate.scope@ && (0 <= i < asked.len()
                ==> context.command@[i]@ == asked[i]@)
            &&& 0 <= i < asked.len() ==> final(f).gate.argv@[i]@ == asked[i]@
        }),
{
    let v = old(f)@;
    let s = fulfil::stepped(v, old(leases)@, now as int, lease_id@, via@, told@);
    let any = (Seq::<char>::empty(), Seq::<char>::empty());
    what_runs_is_what_was_asked_for(
        v,
        old(leases)@,
        now as int,
        lease_id@,
        via@,
        told@,
        any,
    );
    the_approver_is_shown_the_request(v, old(leases)@, now as int, lease_id@, via@, told@);
    let argv = text::texts(old(f).gate.argv@);
    assert(v.gate.argv == argv);
    assert(s.after.gate == v.gate);
    let after = text::texts(final(f).gate.argv@);
    assert(final(f)@.gate.argv == after);
    assert(after.len() == argv.len());
    if 0 <= i < argv.len() {
        assert(after[i] == argv[i]);
    }
    if let Next::Run { run, audit } = r.0 {
        let c = text::texts(run.command@);
        assert(run@.command == c);
        assert(c.len() == argv.len());
        assert(audit@.id == v.id);
        if 0 <= i < argv.len() {
            assert(c[i] == argv[i]);
        }
    }
    if let Next::Approve { context, .. } = r.0 {
        let c = text::texts(context.command@);
        assert(context@.command == c);
        assert(c.len() == argv.len());
        if 0 <= i < argv.len() {
            assert(c[i] == argv[i]);
        }
    }
}

/// An answer opens a window exactly where it asks for one and the rule and the caller
/// may have it: of the whole seconds that were asked for, and of no more than the rule
/// allows. A plain approval opens none, and the length that was asked for is kept while
/// sealed values are opened.
pub proof fn an_answer_opens_the_window_it_asks_for(
    f: RunningView,
    leases: Seq<LeaseView>,
    now: int,
    lease_id: Seq<u8>,
    via: Seq<char>,
    decision: Decision,
    partial: bool,
    max: u32,
    covers: Seq<char>,
)
    requires
        !(decision is Deny),
        f.gate.action.lease == (PolicyView::Leasable { max_secs: max, covers }),
        f.gate.may_lease,
    ensures
        ({
            let s = fulfil::stepped(
                f,
                leases,
                now,
                lease_id,
                via,
                ToldView::Decided { decision, partial },
            );
            &&& f.gate.record is None ==> match decision {
                Decision::Lease(span) => {
                    let asked = span.nanos as int / 1_000_000_000;
                    let secs = if asked < max {
                        asked
                    } else {
                        max as int
                    };
                    exists|i: int|
                        0 <= i < s.leases.len() && (#[trigger] s.leases[i]).grant == f.gate.grant
                            && s.leases[i].binding == f.gate.binding && s.leases[i].expires == now
                            + secs * 1_000_000_000
                },
                _ => s.leases == leases,
            }
            &&& f.gate.record is Some && partial ==> s.leases == leases && match decision {
                Decision::Lease(span) => s.after.window == Some(span.nanos),
                _ => s.after.window is None,
            }
        }),
{
    let told = ToldView::Decided { decision, partial };
    if f.gate.record is None {
        if let Decision::Lease(span) = decision {
            a_window_is_as_long_as_asked_and_allowed(f.gate, Some(span.nanos));
            let none = LeaseView {
                grant: Seq::empty(),
                id: Seq::empty(),
                binding: f.gate.binding,
                covers,
                token: Seq::empty(),
                granted: now,
                expires: now,
            };
            an_approval_opens_its_own_window_alone(f, leases, now, lease_id, via, told, none);
            let s = fulfil::stepped(f, leases, now, lease_id, via, told);
            let secs = fulfil::window_secs(f.gate, Some(span.nanos))->0;
            let i = choose|i: int|
                0 <= i < s.leases.len() && (#[trigger] s.leases[i]).grant == f.gate.grant
                    && s.leases[i].binding == f.gate.binding && s.leases[i].token
                    == Seq::<u8>::empty() && s.leases[i].covers == f.gate.action.lease->covers
                    && s.leases[i].expires == now + secs * 1_000_000_000;
            assert(s.leases[i].grant == f.gate.grant);
        }
    }
}

} // verus!
