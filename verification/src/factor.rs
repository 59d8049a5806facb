//! The approving-factor policy: what gates a secret once the daemon is armed.
//!
//! The local control socket is no adversarial gate: another process of the same
//! user could approve its own requests over it. So the daemon decides, before it
//! serves any gated request, which real approving factor it has. Without one, it
//! fails closed.
use crate::text;
use vstd::prelude::*;

verus! {

/// The approving factor that the daemon resolved.
#[derive(Debug, Clone, Copy, PartialEq, Eq, Structural)]
pub enum Factor {
    /// A paired phone reachable over a transport.
    Phone,
    /// A verified hardware biometric keystore.
    Biometric,
    /// No real factor, but the insecure development path was asked for.
    DevInsecure,
    /// No real factor: every gated request fails closed.
    NoFactor,
}

impl Factor {
    /// The label for the arm banner.
    pub open spec fn label_text(self) -> Seq<char> {
        match self {
            Factor::Phone => "paired phone (sealed remote approval)"@,
            Factor::Biometric => "hardware biometric (Secure Enclave)"@,
            Factor::DevInsecure => "DEV-INSECURE (same-UID self-approval)"@,
            Factor::NoFactor => "none, gated requests fail closed"@,
        }
    }

    /// A short label for the arm banner.
    pub fn label(self) -> (r: &'static str)
        ensures
            r@ == self.label_text(),
    {
        match self {
            Factor::Phone => "paired phone (sealed remote approval)",
            Factor::Biometric => "hardware biometric (Secure Enclave)",
            Factor::DevInsecure => "DEV-INSECURE (same-UID self-approval)",
            Factor::NoFactor => "none, gated requests fail closed",
        }
    }

    /// Whether this factor is immune to self-approval by the same user.
    pub fn is_real(self) -> (r: bool)
        ensures
            r == (self == Factor::Phone || self == Factor::Biometric),
    {
        matches!(self, Factor::Phone | Factor::Biometric)
    }
}

/// The three signals that the policy reads.
#[derive(Debug, Clone, Copy, PartialEq, Eq, Structural)]
pub struct ArmInputs {
    /// The insecure development path was asked for.
    pub dev_insecure: bool,
    /// A phone pairing exists and a transport to it can be built.
    pub phone_paired: bool,
    /// The host keystore reports a real hardware biometric.
    pub biometric: bool,
}

/// The factor for given signals: the strongest there is.
pub open spec fn factor_of(inputs: ArmInputs) -> Factor {
    if inputs.phone_paired {
        Factor::Phone
    } else if inputs.biometric {
        Factor::Biometric
    } else if inputs.dev_insecure {
        Factor::DevInsecure
    } else {
        Factor::NoFactor
    }
}

/// Resolve the approving factor. A real factor always wins over the development
/// path, so asking for that path does not weaken a paired daemon.
pub fn resolve(inputs: &ArmInputs) -> (r: Factor)
    ensures
        r == factor_of(*inputs),
{
    if inputs.phone_paired {
        Factor::Phone
    } else if inputs.biometric {
        Factor::Biometric
    } else if inputs.dev_insecure {
        Factor::DevInsecure
    } else {
        Factor::NoFactor
    }
}

/// Asking for the development path never takes a real factor away, and without
/// asking for it nothing but a real factor ever approves.
pub proof fn the_dev_switch_never_weakens(inputs: ArmInputs)
    ensures
        inputs.phone_paired || inputs.biometric ==> factor_of(inputs) == Factor::Phone || factor_of(
            inputs,
        ) == Factor::Biometric,
        factor_of(inputs) == Factor::DevInsecure ==> inputs.dev_insecure && !inputs.phone_paired
            && !inputs.biometric,
        !inputs.dev_insecure && !inputs.phone_paired && !inputs.biometric ==> factor_of(inputs)
            == Factor::NoFactor,
{
}

/// Whether the insecure development path was asked for: by the argument
/// `--dev-insecure`, or by `env`, the value of `SIGIL_DEV_INSECURE`.
pub fn dev_insecure_requested(args: &[String], env: Option<&str>) -> (r: bool)
    ensures
        r == (text::texts(args@).contains("--dev-insecure"@) || (env is Some && (env->0@ == "1"@
            || env->0@ == "true"@))),
{
    if text::listed(args, "--dev-insecure") {
        return true;
    }
    match env {
        Some(v) => text::same(v, "1") || text::same(v, "true"),
        None => false,
    }
}

/// The warning that appears on every start under [`Factor::DevInsecure`]. It
/// names the concrete risk, so that a development setup is never mistaken for a
/// safe one.
pub const DEV_INSECURE_WARNING: &'static str =
    "\n!! ============================================================ !!\n!!  SIGIL IS RUNNING IN --dev-insecure MODE                     !!\n!! ------------------------------------------------------------ !!\n!!  No paired phone and no hardware biometric are configured,   !!\n!!  so the ONLY approving factor is the local control socket    !!\n!!  (and SIGIL_DEV_AUTOAPPROVE, if set).                        !!\n!!                                                              !!\n!!  RISK: any process running as YOUR user can approve its own  !!\n!!  secret requests (same-UID self-approval). A rogue agent     !!\n!!  such as a compromised `agent` or `op` is exactly the        !!\n!!  adversary Sigil exists to stop, and this mode does not.     !!\n!!                                                              !!\n!!  Use this ONLY for local development. Pair a phone or        !!\n!!  provision a Secure Enclave biometric for a real gate.       !!\n!! ============================================================ !!\n";

/// A factor is what there is: the phone wherever one is paired, the hardware where
/// there is no phone, the insecure path only where there is neither and it was asked
/// for, and none otherwise.
pub proof fn the_strongest_factor_wins(inputs: ArmInputs)
    ensures
        factor_of(inputs) == Factor::Phone <==> inputs.phone_paired,
        factor_of(inputs) == Factor::Biometric <==> inputs.biometric && !inputs.phone_paired,
        factor_of(inputs) == Factor::DevInsecure <==> inputs.dev_insecure && !inputs.biometric
            && !inputs.phone_paired,
        factor_of(inputs) == Factor::NoFactor <==> !inputs.dev_insecure && !inputs.biometric
            && !inputs.phone_paired,
{
}

/// Each factor has a label of its own.
pub proof fn factors_are_told_apart(a: Factor, b: Factor)
    ensures
        a.label_text() == b.label_text() <==> a == b,
{
    reveal_strlit("paired phone (sealed remote approval)");
    reveal_strlit("hardware biometric (Secure Enclave)");
    reveal_strlit("DEV-INSECURE (same-UID self-approval)");
    reveal_strlit("none, gated requests fail closed");
    assert("paired phone (sealed remote approval)"@[0] == 'p');
    assert("hardware biometric (Secure Enclave)"@[0] == 'h');
    assert("DEV-INSECURE (same-UID self-approval)"@[0] == 'D');
    assert("none, gated requests fail closed"@[0] == 'n');
}

} // verus!
