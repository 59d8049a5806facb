//! Lines that the daemon logs, and how often.
use crate::clock;
use crate::config::names;
use crate::daemon::env;
use crate::secrets::Token;
use crate::shelf::Shelf;
use crate::text;
use std::time::Instant;
use vstd::prelude::*;
use vstd::string::*;

verus! {

/// How long the notice of a rule that injects nothing stays quiet for a rule and
/// source, in nanoseconds.
pub const DEGRADED_NOTICE_NANOS: u128 = 300_000_000_000;

/// What a rule and a source are remembered under.
pub open spec fn notice_key(rule: Seq<char>, source: Seq<char>) -> Seq<char> {
    rule.push('\u{1f}') + source
}

/// What is said of a rule that declares variables whose source has nothing sealed.
pub open spec fn degraded_text(rule: Seq<char>, source: Seq<char>) -> Seq<char> {
    "sigil daemon: rule '"@ + rule + "' declares env keys but source '"@ + source
        + "' has no sealed record; running as a plain gate and injecting nothing. Seal it with: sigil-config source env set "@
        + source + " --stdin"@
}

/// Whether a key was announced less than the quiet time ago.
pub open spec fn quiet(seen: Map<Seq<char>, u128>, key: Seq<char>, now: u128) -> bool {
    seen.contains_key(key) && now - seen[key] < DEGRADED_NOTICE_NANOS
}

/// When each rule and source was last announced.
pub struct DegradedNotices {
    start: Instant,
    seen: Shelf<u128>,
}

impl View for DegradedNotices {
    type V = Map<Seq<char>, u128>;

    closed spec fn view(&self) -> Map<Seq<char>, u128> {
        self.seen@
    }
}

impl DegradedNotices {
    /// Nothing announced yet.
    pub fn new() -> (r: DegradedNotices)
        ensures
            r@ == Map::<Seq<char>, u128>::empty(),
    {
        DegradedNotices { start: clock::start(), seen: Shelf::new() }
    }

    /// The line that says a gate rule injects nothing, at the clock reading `now`,
    /// or `None` where the same rule and source were announced within the quiet
    /// time.
    pub fn degraded_gate_notice_at(&mut self, now: u128, rule: &str, source: &str) -> (r: Option<
        String,
    >)
        ensures
            match r {
                None => quiet(old(self)@, notice_key(rule@, source@), now) && final(self)@ == old(
                    self,
                )@,
                Some(line) => !quiet(old(self)@, notice_key(rule@, source@), now) && line@
                    == degraded_text(rule@, source@) && final(self)@ == old(self)@.insert(
                    notice_key(rule@, source@),
                    now,
                ),
            },
    {
        let mut key = String::new();
        key.append(rule);
        key.append("\u{1f}");
        key.append(source);
        proof {
            reveal_strlit("\u{1f}");
            assert(key@ =~= notice_key(rule@, source@));
        }
        if let Some(at) = self.seen.get(key.as_str()) {
            let at: u128 = *at;
            if now < at || now - at < DEGRADED_NOTICE_NANOS {
                return None;
            }
        }
        self.seen.put(key.as_str(), now);
        let mut s = String::new();
        s.append("sigil daemon: rule '");
        s.append(rule);
        s.append("' declares env keys but source '");
        s.append(source);
        s.append(
            "' has no sealed record; running as a plain gate and injecting nothing. Seal it with: sigil-config source env set ",
        );
        s.append(source);
        s.append(" --stdin");
        assert(s@ =~= degraded_text(rule@, source@));
        Some(s)
    }

    /// The line that says a gate rule injects nothing, or `None` where the same
    /// rule and source were announced within the quiet time.
    pub fn degraded_gate_notice(&mut self, rule: &str, source: &str) -> (r: Option<String>)
        ensures
            exists|now: u128|
                #![trigger quiet(old(self)@, notice_key(rule@, source@), now)]
                now < clock::READING_LIMIT && match r {
                    None => quiet(old(self)@, notice_key(rule@, source@), now) && final(self)@
                        == old(self)@,
                    Some(line) => !quiet(old(self)@, notice_key(rule@, source@), now) && line@
                        == degraded_text(rule@, source@) && final(self)@ == old(self)@.insert(
                        notice_key(rule@, source@),
                        now,
                    ),
                },
    {
        let now: u128 = clock::nanos_since(&self.start);
        self.degraded_gate_notice_at(now, rule, source)
    }
}

/// A notice is quiet for its whole window and speaks again after it.
pub proof fn a_notice_speaks_once_per_window(
    seen: Map<Seq<char>, u128>,
    key: Seq<char>,
    said_at: u128,
    now: u128,
)
    requires
        said_at <= now,
    ensures
        quiet(seen.insert(key, said_at), key, now) <==> now < said_at + DEGRADED_NOTICE_NANOS,
{
}

/// What is said of plain variables that give way to sealed ones.
pub open spec fn shadowed_text(source: Seq<char>, gone: Seq<Seq<char>>) -> Seq<char> {
    "sigil daemon: source '"@ + source + "' sets both plain and sealed values for "@ + text::joined(
        gone,
        ", "@,
    ) + "; injecting the sealed ones"@
}

/// The line that is owed of a run that injects `sealed`, where `said` was said
/// before: one where a plain variable gives way, and none that was said already.
pub open spec fn shadow_line(
    said: Seq<Seq<char>>,
    source: Seq<char>,
    plain: Seq<(Seq<char>, Seq<char>)>,
    sealed: Option<Seq<(Seq<char>, Seq<u8>)>>,
) -> Option<Seq<char>> {
    let gone = env::dropped(plain, sealed);
    let line = shadowed_text(source, gone);
    if gone.len() == 0 || said.contains(line) {
        None
    } else {
        Some(line)
    }
}

/// What was said of plain variables that gave way, in order.
pub struct ShadowNotices {
    pub said: Vec<String>,
}

impl View for ShadowNotices {
    type V = Seq<Seq<char>>;

    open spec fn view(&self) -> Seq<Seq<char>> {
        text::texts(self.said@)
    }
}

impl ShadowNotices {
    /// Nothing said yet.
    pub fn new() -> (r: ShadowNotices)
        ensures
            r@ == Seq::<Seq<char>>::empty(),
    {
        let r = ShadowNotices { said: Vec::new() };
        assert(r@ =~= Seq::empty());
        r
    }

    /// The line that says which plain variables of a source give way to the sealed
    /// ones that are injected, the first time it is due.
    pub fn shadow_notice(
        &mut self,
        source: &str,
        plain: &[(String, String)],
        sealed: &Option<Vec<(String, Token)>>,
    ) -> (r: Option<String>)
        ensures
            text::maybe_text(r) == shadow_line(
                old(self)@,
                source@,
                names::pair_texts(plain@),
                env::maybe_pairs(*sealed),
            ),
            final(self)@ == (match r {
                Some(line) => old(self)@.push(line@),
                None => old(self)@,
            }),
    {
        let gone = env::dropped_names(plain, sealed);
        if gone.len() == 0 {
            return None;
        }
        let listed = text::join(gone.as_slice(), ", ");
        let mut s = String::new();
        s.append("sigil daemon: source '");
        s.append(source);
        s.append("' sets both plain and sealed values for ");
        s.append(listed.as_str());
        s.append("; injecting the sealed ones");
        assert(s@ =~= shadowed_text(source@, text::texts(gone@)));
        if text::listed(self.said.as_slice(), s.as_str()) {
            return None;
        }
        self.said.push(s.clone());
        assert(self@ =~= old(self)@.push(s@));
        Some(s)
    }
}

/// A line on variables that gave way is said once: whatever is said in between, the
/// same run is not announced again.
pub proof fn a_shadowed_name_is_said_once(
    said: Seq<Seq<char>>,
    later: Seq<Seq<char>>,
    source: Seq<char>,
    plain: Seq<(Seq<char>, Seq<char>)>,
    sealed: Option<Seq<(Seq<char>, Seq<u8>)>>,
)
    ensures
        (env::dropped(plain, sealed).len() > 0 && shadow_line(said, source, plain, sealed) is None
            ==> said.contains(shadowed_text(source, env::dropped(plain, sealed)))),
        (shadow_line(said, source, plain, sealed) matches Some(line) ==> shadow_line(
            said.push(line) + later,
            source,
            plain,
            sealed,
        ) is None),
        sealed is None ==> shadow_line(said, source, plain, sealed) is None,
{
    if let Some(line) = shadow_line(said, source, plain, sealed) {
        assert((said.push(line) + later)[said.len() as int] == line);
    }
    let any = (source, source);
    env::only_the_injected_shadow(plain, sealed, any);
}

/// The line that logs a request: its arguments, where it came from and who sent
/// it.
pub open spec fn request_text(
    ts: nat,
    argv: Seq<Seq<char>>,
    cwd: Seq<char>,
    peer: Option<i32>,
) -> Seq<char> {
    "sigil daemon: ["@ + text::decimal(ts) + "] op "@ + arguments(argv) + " · cwd "@ + cwd
        + " · pid "@ + peer_text(peer)
}

/// The arguments of an invocation in one line, without the command itself.
pub open spec fn arguments(argv: Seq<Seq<char>>) -> Seq<char> {
    text::joined(
        if argv.len() > 0 {
            argv.skip(1)
        } else {
            argv
        },
        " "@,
    )
}

/// The number of a process, where it is known.
pub open spec fn peer_text(peer: Option<i32>) -> Seq<char> {
    match peer {
        Some(p) => text::signed_decimal(p as int),
        None => "?"@,
    }
}

/// The number of a process, where it is known.
pub fn peer_shown(peer: Option<i32>) -> (r: String)
    ensures
        r@ == peer_text(peer),
{
    match peer {
        Some(p) => text::signed_decimal_text(p),
        None => "?".to_owned(),
    }
}

/// The arguments of an invocation in one line, without the command itself.
pub fn scope_of(argv: &[String]) -> (r: String)
    ensures
        r@ == arguments(text::texts(argv@)),
{
    let mut rest: Vec<String> = Vec::new();
    let mut i: usize = 1;
    while i < argv.len()
        invariant
            1 <= i,
            argv.len() > 0 ==> i <= argv.len(),
            rest@.len() == (if argv.len() > 0 {
                i - 1
            } else {
                0
            }),
            forall|k: int| 0 <= k < rest@.len() ==> rest@[k]@ == argv@[k + 1]@,
        decreases argv.len() - i,
    {
        rest.push(argv[i].clone());
        i += 1;
    }
    proof {
        let t = text::texts(argv@);
        assert(text::texts(rest@) =~= if t.len() > 0 {
            t.skip(1)
        } else {
            t
        });
    }
    text::join(rest.as_slice(), " ")
}

/// The line that logs a request. Names only, never a secret.
pub fn request_line(ts: u64, argv: &[String], cwd: &str, peer: Option<i32>) -> (r: String)
    ensures
        r@ == request_text(ts as nat, text::texts(argv@), cwd@, peer),
{
    let scope = scope_of(argv);
    let pid = peer_shown(peer);
    let mut s = String::new();
    s.append("sigil daemon: [");
    text::push_decimal(&mut s, ts as u128);
    s.append("] op ");
    s.append(scope.as_str());
    s.append(" · cwd ");
    s.append(cwd);
    s.append(" · pid ");
    s.append(pid.as_str());
    assert(s@ =~= request_text(ts as nat, text::texts(argv@), cwd@, peer));
    s
}

/// The line that logs a request for a signature.
pub open spec fn ssh_text(
    ts: nat,
    label: Seq<char>,
    host: Seq<char>,
    fingerprint: Seq<char>,
    peer: Option<i32>,
) -> Seq<char> {
    "sigil daemon: ["@ + text::decimal(ts) + "] ssh-sign "@ + label + " \u{b7} host "@ + host
        + " \u{b7} data "@ + fingerprint + " \u{b7} pid "@ + peer_text(peer)
}

/// The line that logs a request for a signature: the key's label, the host and
/// the hash of what is to be signed, never the data.
pub fn ssh_request_line(
    ts: u64,
    label: &str,
    host: &str,
    fingerprint: &str,
    peer: Option<i32>,
) -> (r: String)
    ensures
        r@ == ssh_text(ts as nat, label@, host@, fingerprint@, peer),
{
    let pid = peer_shown(peer);
    let mut s = String::new();
    s.append("sigil daemon: [");
    text::push_decimal(&mut s, ts as u128);
    s.append("] ssh-sign ");
    s.append(label);
    s.append(" \u{b7} host ");
    s.append(host);
    s.append(" \u{b7} data ");
    s.append(fingerprint);
    s.append(" \u{b7} pid ");
    s.append(pid.as_str());
    assert(s@ =~= ssh_text(ts as nat, label@, host@, fingerprint@, peer));
    s
}

/// Announcements keep to their own rule and source: what was said of one says nothing
/// of another, and what was never said is always said.
pub proof fn a_notice_keeps_to_its_own(
    seen: Map<Seq<char>, u128>,
    rule: Seq<char>,
    source: Seq<char>,
    other_rule: Seq<char>,
    other_source: Seq<char>,
    said_at: u128,
    now: u128,
)
    requires
        !rule.contains('\u{1f}'),
        !other_rule.contains('\u{1f}'),
    ensures
        notice_key(rule, source) == notice_key(other_rule, other_source) <==> rule == other_rule
            && source == other_source,
        (rule != other_rule || source != other_source) ==> quiet(
            seen.insert(notice_key(other_rule, other_source), said_at),
            notice_key(rule, source),
            now,
        ) == quiet(seen, notice_key(rule, source), now),
        !seen.contains_key(notice_key(rule, source)) ==> !quiet(
            seen,
            notice_key(rule, source),
            now,
        ),
{
    let a = notice_key(rule, source);
    let b = notice_key(other_rule, other_source);
    if a == b {
        assert(a[rule.len() as int] == '\u{1f}');
        assert(b[other_rule.len() as int] == '\u{1f}');
        if rule.len() < other_rule.len() {
            assert(other_rule[rule.len() as int] == b[rule.len() as int]);
        }
        if other_rule.len() < rule.len() {
            assert(rule[other_rule.len() as int] == a[other_rule.len() as int]);
        }
        assert(rule =~= a.take(rule.len() as int));
        assert(other_rule =~= b.take(rule.len() as int));
        assert(source =~= a.skip(rule.len() as int + 1));
        assert(other_source =~= b.skip(rule.len() as int + 1));
    }
}

/// A logged request names what was asked and from where: every argument but the
/// command, the directory, and the process where it is known. A request for a
/// signature names the key, the host and the data.
pub proof fn a_logged_request_says_what_was_asked(
    ts: nat,
    argv: Seq<Seq<char>>,
    i: int,
    cwd: Seq<char>,
    label: Seq<char>,
    host: Seq<char>,
    fingerprint: Seq<char>,
    pid: i32,
)
    requires
        1 <= i < argv.len(),
    ensures
        text::occurs_in(request_text(ts, argv, cwd, Some(pid)), argv[i]),
        text::occurs_in(request_text(ts, argv, cwd, Some(pid)), cwd),
        text::occurs_in(request_text(ts, argv, cwd, Some(pid)), text::decimal(ts)),
        text::occurs_in(ssh_text(ts, label, host, fingerprint, Some(pid)), label),
        text::occurs_in(ssh_text(ts, label, host, fingerprint, Some(pid)), host),
        text::occurs_in(ssh_text(ts, label, host, fingerprint, Some(pid)), fingerprint),
        text::occurs_in(ssh_text(ts, label, host, fingerprint, Some(pid)), text::decimal(ts)),
        text::occurs_in(
            request_text(ts, argv, cwd, Some(pid)),
            if pid < 0 {
                seq!['-'] + text::decimal(-pid as nat)
            } else {
                text::decimal(pid as nat)
            },
        ),
        text::occurs_in(
            ssh_text(ts, label, host, fingerprint, Some(pid)),
            if pid < 0 {
                seq!['-'] + text::decimal(-pid as nat)
            } else {
                text::decimal(pid as nat)
            },
        ),
{
    broadcast use text::parts_stand_in;

    text::a_part_stands_in_the_join(argv.skip(1), " "@, i - 1);
    assert(argv.skip(1)[i - 1] == argv[i]);
    let head = "sigil daemon: ["@ + text::decimal(ts) + "] op "@;
    let args = arguments(argv);
    let at = choose|at: int| text::occurs_at(args, argv[i], at);
    assert((head + args).subrange(head.len() + at, head.len() + at + argv[i].len()) =~= argv[i]);
    assert(text::occurs_at(head + args, argv[i], head.len() + at));
    assert(text::occurs_in(head + args, argv[i]));
}

/// A notice names the rule and the source that it is about.
pub proof fn a_notice_names_its_rule_and_source(
    rule: Seq<char>,
    source: Seq<char>,
    gone: Seq<Seq<char>>,
    i: int,
)
    requires
        0 <= i < gone.len(),
    ensures
        text::occurs_in(degraded_text(rule, source), rule),
        text::occurs_in(degraded_text(rule, source), source),
        text::occurs_in(shadowed_text(source, gone), source),
        text::occurs_in(shadowed_text(source, gone), text::joined(gone, ", "@)),
{
    broadcast use text::parts_stand_in;

}

/// The same thing is announced again once five minutes are over, and not before.
pub proof fn a_notice_rests_for_five_minutes(
    seen: Map<Seq<char>, u128>,
    key: Seq<char>,
    said_at: u128,
    now: u128,
)
    requires
        said_at <= now,
    ensures
        quiet(seen.insert(key, said_at), key, now) <==> now - said_at < 300 * 1_000_000_000,
{
}

} // verus!
