//! How approvals are asked for, by the factor that was resolved.
use crate::factor::Factor;
use crate::lists;
use crate::text;
use vstd::prelude::*;
use vstd::string::*;

verus! {

/// A paired phone, as far as asking it goes.
#[derive(Debug, Clone, PartialEq, Eq)]
pub struct RemotePairingConfig {
    /// The relay that the daemon attaches to.
    pub relay_url: String,
    /// The endpoint of a direct link, where this device has one.
    pub direct_endpoint: Option<String>,
}

/// A paired phone as plain values.
#[verifier::ext_equal]
pub struct PairingView {
    pub relay_url: Seq<char>,
    pub direct_endpoint: Option<Seq<char>>,
}

impl View for RemotePairingConfig {
    type V = PairingView;

    open spec fn view(&self) -> PairingView {
        PairingView {
            relay_url: self.relay_url@,
            direct_endpoint: text::maybe_text(self.direct_endpoint),
        }
    }
}

/// What setting up the channels of one device came to.
pub struct DeviceTold {
    /// The relay could be reached.
    pub relay: Result<(), String>,
    /// The direct endpoint could be bound, where the device has one.
    pub bound: Result<(), String>,
}

/// What setting up the channels came to, as plain values.
#[verifier::ext_equal]
pub struct DeviceView {
    pub relay: Result<(), Seq<char>>,
    pub bound: Result<(), Seq<char>>,
}

impl View for DeviceTold {
    type V = DeviceView;

    open spec fn view(&self) -> DeviceView {
        DeviceView {
            relay: match self.relay {
                Ok(_) => Ok(()),
                Err(e) => Err(e@),
            },
            bound: match self.bound {
                Ok(_) => Ok(()),
                Err(e) => Err(e@),
            },
        }
    }
}

/// Who approves.
#[derive(Debug, Clone, Copy, PartialEq, Eq, Structural)]
pub enum ApproverKind {
    /// The one paired phone.
    Phone,
    /// All paired phones at once; the first answer wins.
    Ring,
    /// The local registry, with the dev switch and the control socket or without.
    Local { dev: bool },
    /// Every request is denied.
    Deny,
}

/// How approvals are asked for.
pub struct GatePlan {
    pub approver: ApproverKind,
    /// Which devices have a direct link beside the relay, in order.
    pub direct: Vec<bool>,
    /// What to log.
    pub lines: Vec<String>,
}

/// Why no approval can be asked for, with what was said up to there.
#[derive(Debug)]
pub struct GateFault {
    /// What to log of the devices before the one that failed.
    pub lines: Vec<String>,
    pub message: String,
}

/// The approver for a factor, with this many phones.
pub open spec fn approver_for(factor: Factor, phones: nat) -> ApproverKind {
    match factor {
        Factor::Phone => if phones == 1 {
            ApproverKind::Phone
        } else {
            ApproverKind::Ring
        },
        Factor::Biometric => ApproverKind::Local { dev: false },
        Factor::DevInsecure => ApproverKind::Local { dev: true },
        Factor::NoFactor => ApproverKind::Deny,
    }
}

/// Whether a device gets a direct link: it has an endpoint, and it was bound.
pub open spec fn has_direct(p: PairingView, d: DeviceView) -> bool {
    p.direct_endpoint is Some && d.bound is Ok
}

/// Which devices get a direct link.
pub open spec fn directs(p: Seq<PairingView>, d: Seq<DeviceView>) -> Seq<bool> {
    Seq::new(p.len(), |i: int| has_direct(p[i], d[i]))
}

/// What is said of an endpoint that could not be bound.
pub open spec fn unbound_text(endpoint: Seq<char>, e: Seq<char>) -> Seq<char> {
    "sigil daemon: direct endpoint "@ + endpoint + " unavailable ("@ + e
        + "); serving this device over the relay only"@
}

/// What is said of the endpoints of the first `n` devices: a line for each that
/// could not be bound.
pub open spec fn unbound_lines(p: Seq<PairingView>, d: Seq<DeviceView>, n: int) -> Seq<Seq<char>>
    decreases n,
{
    if n <= 0 {
        Seq::empty()
    } else {
        let before = unbound_lines(p, d, n - 1);
        match (p[n - 1].direct_endpoint, d[n - 1].bound) {
            (Some(endpoint), Err(e)) => before.push(unbound_text(endpoint, e)),
            _ => before,
        }
    }
}

/// The first device whose relay could not be reached.
pub open spec fn unreachable(d: Seq<DeviceView>) -> int {
    lists::first_where(d, |t: DeviceView| t.relay is Err)
}

/// What is said of a relay that could not be reached.
pub open spec fn relay_text(url: Seq<char>, e: Seq<char>) -> Seq<char> {
    "reaching relay "@ + url + ": "@ + e
}

/// How approvals are asked for under a factor. `told` is what setting up the channels
/// of each paired phone came to, as far as it got. One phone is asked directly,
/// several are rung at once; an endpoint that cannot be bound leaves its device on
/// the relay; a relay that cannot be reached is an error, and what was said of the
/// endpoints before it is still said.
pub fn build_gate(factor: Factor, remote: &[RemotePairingConfig], told: &[DeviceTold]) -> (r: Result<
    GatePlan,
    GateFault,
>)
    requires
        factor == Factor::Phone ==> remote@.len() > 0 && (told@.len() == remote@.len() || (
        unreachable(lists::views(told@)) < told@.len() <= remote@.len())),
    ensures
        ({
            let p = lists::views(remote@);
            let d = lists::views(told@);
            let at = unreachable(d);
            if factor == Factor::Phone && at < d.len() {
                &&& r matches Err(f) && f.message@ == relay_text(
                    p[at].relay_url,
                    d[at].relay->Err_0,
                )
                &&& r matches Err(f) && text::texts(f.lines@) == unbound_lines(p, d, at)
            } else {
                &&& r matches Ok(plan) && plan.approver == approver_for(factor, p.len())
                &&& r matches Ok(plan) && plan.direct@ == (if factor == Factor::Phone {
                    directs(p, d)
                } else {
                    Seq::empty()
                })
                &&& r matches Ok(plan) && text::texts(plan.lines@) == (if factor
                    == Factor::Phone {
                    unbound_lines(p, d, p.len() as int)
                } else {
                    Seq::empty()
                })
            }
        }),
{
    let mut direct: Vec<bool> = Vec::new();
    let mut lines: Vec<String> = Vec::new();
    assert(text::texts(lines@) =~= Seq::empty());
    assert(direct@ =~= Seq::empty());
    let approver = match factor {
        Factor::Phone => {
            let ghost p = lists::views(remote@);
            let ghost d = lists::views(told@);
            let ghost bad = |t: DeviceView| t.relay is Err;
            let mut i: usize = 0;
            while i < told.len()
                invariant
                    i <= told.len() <= remote.len(),
                    p == lists::views(remote@),
                    d == lists::views(told@),
                    factor == Factor::Phone,
                    bad == (|t: DeviceView| t.relay is Err),
                    direct@.len() == i,
                    forall|k: int| 0 <= k < i ==> !bad(#[trigger] d[k]),
                    forall|k: int| 0 <= k < i ==> direct@[k] == has_direct(p[k], d[k]),
                    text::texts(lines@) == unbound_lines(p, d, i as int),
                decreases told.len() - i,
            {
                let t = &told[i];
                let cfg = &remote[i];
                assert(t@ == d[i as int] && cfg@ == p[i as int]);
                if let Err(e) = &t.relay {
                    proof {
                        assert(bad(d[i as int]));
                        lists::first_where_is(d, bad, i as int);
                    }
                    let mut s = String::new();
                    s.append("reaching relay ");
                    s.append(cfg.relay_url.as_str());
                    s.append(": ");
                    s.append(e.as_str());
                    assert(s@ =~= relay_text(p[i as int].relay_url, d[i as int].relay->Err_0));
                    return Err(GateFault { lines, message: s });
                }
                assert(!bad(d[i as int]));
                let has = match (&cfg.direct_endpoint, &t.bound) {
                    (Some(endpoint), Err(e)) => {
                        let ghost before = text::texts(lines@);
                        let mut s = String::new();
                        s.append("sigil daemon: direct endpoint ");
                        s.append(endpoint.as_str());
                        s.append(" unavailable (");
                        s.append(e.as_str());
                        s.append("); serving this device over the relay only");
                        assert(s@ =~= unbound_text(endpoint@, e@));
                        lines.push(s);
                        assert(text::texts(lines@) =~= before.push(unbound_text(endpoint@, e@)));
                        false
                    },
                    (Some(_), Ok(_)) => true,
                    (None, _) => false,
                };
                direct.push(has);
                i += 1;
            }
            proof {
                lists::first_where_is(d, bad, i as int);
                assert(direct@ =~= directs(p, d));
            }
            if remote.len() == 1 {
                ApproverKind::Phone
            } else {
                ApproverKind::Ring
            }
        },
        Factor::Biometric => ApproverKind::Local { dev: false },
        Factor::DevInsecure => ApproverKind::Local { dev: true },
        Factor::NoFactor => ApproverKind::Deny,
    };
    Ok(GatePlan { approver, direct, lines })
}

/// The dev switch is wired into a gate only for the insecure factor, and a daemon
/// without a factor denies every request.
pub proof fn only_the_insecure_factor_wires_the_dev_switch(factor: Factor, phones: nat)
    ensures
        approver_for(factor, phones) == (ApproverKind::Local { dev: true }) <==> factor
            == Factor::DevInsecure,
        approver_for(factor, phones) == ApproverKind::Deny <==> factor == Factor::NoFactor,
{
}

/// A device has a direct link exactly where it names an endpoint that was bound, and
/// the links stand in the order of the devices.
pub proof fn a_link_is_direct_where_it_was_bound(
    p: Seq<PairingView>,
    d: Seq<DeviceView>,
    i: int,
)
    requires
        0 <= i < p.len() == d.len(),
    ensures
        directs(p, d).len() == p.len(),
        directs(p, d)[i] <==> p[i].direct_endpoint is Some && d[i].bound is Ok,
{
}

/// An endpoint that could not be bound is said, with its name and the reason; one that
/// was, or that a device does not have, is not.
pub proof fn every_unbound_endpoint_is_said(
    p: Seq<PairingView>,
    d: Seq<DeviceView>,
    n: int,
    i: int,
)
    requires
        0 <= i < n <= p.len() == d.len(),
    ensures
        unbound_lines(p, d, n).len() <= n,
        (p[i].direct_endpoint matches Some(endpoint) ==> (d[i].bound matches Err(e)
            ==> exists|k: int|
            0 <= k < unbound_lines(p, d, n).len() && text::occurs_in(
                #[trigger] unbound_lines(p, d, n)[k],
                endpoint,
            ) && text::occurs_in(unbound_lines(p, d, n)[k], e))),
        (forall|k: int|
            0 <= k < n ==> (#[trigger] p[k]).direct_endpoint is None || d[k].bound is Ok)
            ==> unbound_lines(p, d, n).len() == 0,
    decreases n,
{
    broadcast use text::parts_stand_in;

    let all = unbound_lines(p, d, n);
    let before = unbound_lines(p, d, n - 1);
    assert(p[n - 1].direct_endpoint is None || d[n - 1].bound is Ok ==> all == before);
    if n > 1 {
        every_unbound_endpoint_is_said(
            p,
            d,
            n - 1,
            if i < n - 1 {
                i
            } else {
                0
            },
        );
    } else {
        assert(before =~= Seq::empty());
    }
    if p[i].direct_endpoint is Some && d[i].bound is Err {
        let endpoint = p[i].direct_endpoint->0;
        let e = d[i].bound->Err_0;
        if i == n - 1 {
            let line = all[all.len() - 1];
            assert(line == unbound_text(endpoint, e));
            assert(text::occurs_in(line, endpoint));
            assert(text::occurs_in(line, e));
        } else {
            let k = choose|k: int|
                0 <= k < before.len() && text::occurs_in(#[trigger] before[k], endpoint)
                    && text::occurs_in(before[k], e);
            assert(all[k] == before[k]);
        }
    }
}

/// One phone is asked by itself and several are rung; a relay that cannot be reached
/// is named with the reason.
pub proof fn phones_are_asked_by_their_number(phones: nat, url: Seq<char>, e: Seq<char>)
    requires
        phones > 0,
    ensures
        approver_for(Factor::Phone, phones) == ApproverKind::Phone <==> phones == 1,
        approver_for(Factor::Phone, phones) == ApproverKind::Ring <==> phones > 1,
        approver_for(Factor::Biometric, phones) == (ApproverKind::Local { dev: false }),
        approver_for(Factor::NoFactor, phones) == ApproverKind::Deny,
        text::occurs_in(relay_text(url, e), url),
        text::occurs_in(relay_text(url, e), e),
{
    broadcast use text::parts_stand_in;

}

/// The relay that is named is the first that cannot be reached.
pub proof fn the_first_unreachable_relay_is_named(d: Seq<DeviceView>)
    ensures
        0 <= unreachable(d) <= d.len(),
        unreachable(d) < d.len() ==> d[unreachable(d)].relay is Err,
        forall|i: int| 0 <= i < unreachable(d) ==> (#[trigger] d[i]).relay is Ok,
{
    let p = |t: DeviceView| t.relay is Err;
    lists::first_where_is_first(d, p);
    let at = lists::first_where(d, p);
    if at < d.len() {
        assert(p(d[at]));
    }
    assert forall|i: int| 0 <= i < at implies (#[trigger] d[i]).relay is Ok by {
        assert(!p(d[i]));
    }
}

} // verus!
