//! Leases and the caller identity they are scoped to.
//!
//! The daemon derives the caller's identity itself and never trusts the
//! client's account of it. It walks the ancestor chain pid by pid, resolving
//! each process to an executable path and a code-identity measurement
//! ([`CodeIdentity`]) in one lookup. The grant key is a BLAKE2b digest over the
//! chain, the project root, the request kind and the scope. Pids are left out,
//! because they recycle: only the path, the measure tag and the digest of each
//! ancestor are bound in.

pub mod notes;
pub mod procfs;
pub mod store;

pub use notes::{
    doomed_index, live_unmeasured_notes, note_unmeasured, unmeasured_notes, GuestFailure,
    UnmeasuredNote, UnmeasuredNotes,
};
pub use store::{hex16, hex32, LeaseBinding, LeaseControl, LeaseInfo, LeaseStore};

use crate::bytes;
use crate::path;
use crate::text;
use vstd::bytes::*;
use vstd::prelude::*;
use vstd::string::*;
use vstd::utf8::*;

verus! {

/// Cap on the ancestry walk, so that a looping process table cannot spin it.
pub const MAX_ANCESTRY_DEPTH: usize = 64;

/// How an ancestor's 32 bytes of code identity were arrived at. Hashed into the
/// grant key beside the digest, so the measures never share a namespace.
#[derive(Debug, Clone, Copy, PartialEq, Eq, Structural)]
pub enum IdentityMeasure {
    /// The cdhash of a running image whose signature has a signer.
    Signed,
    /// The cdhash of a running image whose signature is ad-hoc: a digest of the
    /// binary and nothing more.
    AdHoc,
    /// A hash of the executable's bytes.
    Content,
    /// No measurement was obtainable. The digest names a process instance (the
    /// pid and its start time), not code.
    Unmeasured,
}

impl IdentityMeasure {
    /// The tag hashed into the grant key.
    pub open spec fn tag_bytes(self) -> Seq<u8> {
        match self {
            IdentityMeasure::Signed => "cdhash".spec_bytes(),
            IdentityMeasure::AdHoc => "adhoc".spec_bytes(),
            IdentityMeasure::Content => "bytes".spec_bytes(),
            IdentityMeasure::Unmeasured => "none".spec_bytes(),
        }
    }

    /// The tag hashed into the grant key. Short and fixed; never displayed.
    pub fn tag(self) -> (r: &'static [u8])
        ensures
            r@ == self.tag_bytes(),
    {
        match self {
            IdentityMeasure::Signed => "cdhash".as_bytes(),
            IdentityMeasure::AdHoc => "adhoc".as_bytes(),
            IdentityMeasure::Content => "bytes".as_bytes(),
            IdentityMeasure::Unmeasured => "none".as_bytes(),
        }
    }
}

/// The kernel's start time for a process: seconds and microseconds since the
/// epoch. Together with a pid it names one process instance.
#[derive(Debug, Clone, Copy, PartialEq, Eq, Structural)]
pub struct ProcessStart {
    pub sec: u64,
    pub usec: u32,
}

/// A 32-byte measurement of one executable and how it was measured. Both halves
/// bind into the grant key.
#[derive(Debug, Clone, Copy, PartialEq, Eq)]
pub struct CodeIdentity {
    pub measure: IdentityMeasure,
    pub digest: [u8; 32],
}

/// A code identity as plain values.
#[verifier::ext_equal]
pub struct IdentityView {
    pub measure: IdentityMeasure,
    pub digest: Seq<u8>,
}

impl View for CodeIdentity {
    type V = IdentityView;

    open spec fn view(&self) -> IdentityView {
        IdentityView { measure: self.measure, digest: self.digest@ }
    }
}

/// The bytes that a cdhash is folded from.
pub open spec fn cdhash_record(cdhash: Seq<u8>) -> Seq<u8> {
    "sigil.cdhash.v1".spec_bytes() + bytes::field(cdhash)
}

/// The bytes that a process instance is folded from.
pub open spec fn instance_record(pid: i32, started: ProcessStart) -> Seq<u8> {
    "sigil.unmeasured.v1".spec_bytes() + spec_u32_to_le_bytes(pid as u32) + spec_u64_to_le_bytes(
        started.sec,
    ) + spec_u32_to_le_bytes(started.usec)
}

impl CodeIdentity {
    /// A cdhash off a running image, folded to 32 bytes. `adhoc` decides the
    /// measure, never the digest.
    pub fn from_cdhash(cdhash: &[u8], adhoc: bool) -> (r: CodeIdentity)
        ensures
            r@.digest == bytes::blake2b256_of(cdhash_record(cdhash@)),
            r@.measure == (if adhoc {
                IdentityMeasure::AdHoc
            } else {
                IdentityMeasure::Signed
            }),
    {
        let mut m: Vec<u8> = Vec::new();
        bytes::push_bytes(&mut m, "sigil.cdhash.v1".as_bytes());
        bytes::push_field(&mut m, cdhash);
        assert(m@ =~= cdhash_record(cdhash@));
        CodeIdentity {
            measure: if adhoc {
                IdentityMeasure::AdHoc
            } else {
                IdentityMeasure::Signed
            },
            digest: bytes::blake2b256(m.as_slice()),
        }
    }

    /// A measurement of the executable's bytes that was already made.
    pub fn content(digest: [u8; 32]) -> (r: CodeIdentity)
        ensures
            r@ == (IdentityView { measure: IdentityMeasure::Content, digest: digest@ }),
    {
        CodeIdentity { measure: IdentityMeasure::Content, digest }
    }

    /// A measurement of the bytes of a running image.
    pub fn of_image(image: &[u8]) -> (r: CodeIdentity)
        ensures
            r@ == (IdentityView {
                measure: IdentityMeasure::Content,
                digest: bytes::blake2b256_of(image@),
            }),
    {
        CodeIdentity::content(bytes::blake2b256(image))
    }

    /// The nothing-to-measure case, keyed to one process instance. The pid alone
    /// recycles; the start time is what makes a new process a new identity.
    pub fn unmeasured(pid: i32, started: ProcessStart) -> (r: CodeIdentity)
        ensures
            r@ == (IdentityView {
                measure: IdentityMeasure::Unmeasured,
                digest: bytes::blake2b256_of(instance_record(pid, started)),
            }),
    {
        let mut m: Vec<u8> = Vec::new();
        bytes::push_bytes(&mut m, "sigil.unmeasured.v1".as_bytes());
        bytes::push_u32(
            &mut m,
            #[verifier::truncate]
            (pid as u32),
        );
        bytes::push_u64(&mut m, started.sec);
        bytes::push_u32(&mut m, started.usec);
        assert(m@ =~= instance_record(pid, started));
        CodeIdentity { measure: IdentityMeasure::Unmeasured, digest: bytes::blake2b256(m.as_slice()) }
    }
}

/// One resolved ancestor: its pid (for display only, never hashed), the bytes of
/// its executable path, and the code identity of that executable.
#[derive(Debug, Clone)]
pub struct Ancestor {
    pub pid: i32,
    pub exe: Vec<u8>,
    pub identity: CodeIdentity,
}

/// An ancestor as plain values.
#[verifier::ext_equal]
pub struct AncestorView {
    pub pid: i32,
    pub exe: Seq<u8>,
    pub identity: IdentityView,
}

impl View for Ancestor {
    type V = AncestorView;

    open spec fn view(&self) -> AncestorView {
        AncestorView { pid: self.pid, exe: self.exe@, identity: self.identity@ }
    }
}

/// Ancestors are equal where their paths have the same components and all else is
/// the same.
impl PartialEq for Ancestor {
    fn eq(&self, other: &Ancestor) -> (r: bool) {
        self.pid == other.pid && path::same(self.exe.as_slice(), other.exe.as_slice())
            && self.identity.measure == other.identity.measure && bytes::same_key(
            &self.identity.digest,
            &other.identity.digest,
        )
    }
}

impl vstd::std_specs::cmp::PartialEqSpecImpl for Ancestor {
    open spec fn obeys_eq_spec() -> bool {
        true
    }

    open spec fn eq_spec(&self, other: &Ancestor) -> bool {
        self.pid == other.pid && path::components(self.exe@) == path::components(other.exe@)
            && self.identity.measure == other.identity.measure && self.identity.digest@
            == other.identity.digest@
    }
}

impl Eq for Ancestor {

}

/// The daemon's own measurement of who is calling: the leaf process and its
/// ancestors, root-first. Never built from anything the client sent.
#[derive(Debug, Clone, PartialEq, Eq)]
pub struct Caller {
    pub chain: Vec<Ancestor>,
}

impl View for Caller {
    type V = Seq<AncestorView>;

    open spec fn view(&self) -> Seq<AncestorView> {
        Seq::new(self.chain@.len(), |i: int| self.chain@[i]@)
    }
}

/// The short name of a process: the last component of its executable path, or
/// its pid where the path has none.
pub open spec fn short_name(exe: Seq<u8>, pid: i32) -> Seq<char> {
    match path::final_component(exe) {
        Some(name) => path::utf8_lossy(name),
        None => text::signed_decimal(pid as int),
    }
}

/// A chain in one line: the short names root-first, with an arrow between each
/// two.
pub open spec fn chain_text(chain: Seq<AncestorView>) -> Seq<char> {
    text::joined(
        Seq::new(chain.len(), |i: int| short_name(chain[i].exe, chain[i].pid)),
        " \u{2192} "@,
    )
}

/// The short name of a process.
pub fn short_name_text(exe: &[u8], pid: i32) -> (r: String)
    ensures
        r@ == short_name(exe@, pid),
{
    match path::file_name(exe) {
        Some(name) => path::lossy(name.as_slice()),
        None => text::signed_decimal_text(pid),
    }
}

impl Caller {
    /// A short string for the approval screen: the short names root-first, with
    /// an arrow between each two.
    pub fn provenance(&self) -> (r: String)
        ensures
            r@ == chain_text(self@),
    {
        let mut names: Vec<String> = Vec::new();
        let mut i: usize = 0;
        while i < self.chain.len()
            invariant
                i <= self.chain.len(),
                names.len() == i,
                forall|k: int|
                    0 <= k < i ==> (#[trigger] names@[k])@ == short_name(self@[k].exe, self@[k].pid),
            decreases self.chain.len() - i,
        {
            let a = &self.chain[i];
            names.push(short_name_text(a.exe.as_slice(), a.pid));
            i += 1;
        }
        assert(text::texts(names@) =~= Seq::new(
            self@.len(),
            |i: int| short_name(self@[i].exe, self@[i].pid),
        ));
        text::join(names.as_slice(), " \u{2192} ")
    }

    /// Whether this caller may touch a lease at all. An empty chain means that no
    /// process could be named behind the request, and every such caller would
    /// derive the same grant key, so it gets no window.
    pub fn may_lease(&self) -> (r: bool)
        ensures
            r == (self@.len() > 0),
    {
        self.chain.len() > 0
    }

    /// The ancestors that could not be measured, in chain order.
    pub fn unmeasured(&self) -> (r: Vec<&Ancestor>)
        ensures
            Seq::new(r@.len(), |i: int| r@[i]@) == self@.filter(
                |a: AncestorView| a.identity.measure == IdentityMeasure::Unmeasured,
            ),
    {
        let ghost keep = |a: AncestorView| a.identity.measure == IdentityMeasure::Unmeasured;
        let mut out: Vec<&Ancestor> = Vec::new();
        let mut i: usize = 0;
        assert(self@.take(0) =~= Seq::empty());
        assert(Seq::new(out@.len(), |k: int| out@[k]@) =~= self@.take(0).filter(keep)) by {
            reveal(Seq::filter);
        }
        while i < self.chain.len()
            invariant
                i <= self.chain.len(),
                keep == (|a: AncestorView| a.identity.measure == IdentityMeasure::Unmeasured),
                Seq::new(out@.len(), |k: int| out@[k]@) == self@.take(i as int).filter(keep),
            decreases self.chain.len() - i,
        {
            let ghost before = Seq::new(out@.len(), |k: int| out@[k]@);
            proof {
                reveal(Seq::filter);
                assert(self@.take(i + 1).drop_last() =~= self@.take(i as int));
                assert(self@.take(i + 1).last() == self.chain@[i as int]@);
            }
            if self.chain[i].identity.measure == IdentityMeasure::Unmeasured {
                out.push(&self.chain[i]);
                assert(Seq::new(out@.len(), |k: int| out@[k]@) =~= before.push(
                    self.chain@[i as int]@,
                ));
            }
            i += 1;
        }
        assert(self@.take(i as int) =~= self@);
        out
    }
}

/// The kernel's view of the process table, abstracted so that the walk can run
/// over a synthetic tree.
pub trait ProcessTable {
    /// The parent pid of `pid`, or `None` at the root or for an unknown pid.
    fn parent(&self, pid: i32) -> Option<i32>;

    /// The executable path backing `pid` and the code identity of the image it
    /// runs, as one resolution. `None` means that the pid names no process.
    fn resolve(&self, pid: i32) -> Option<(Vec<u8>, CodeIdentity)>;
}

/// What a process table said of one pid: its image, and its parent.
pub type Answer = (Option<(Vec<u8>, CodeIdentity)>, Option<i32>);

/// A walk towards the root: the ancestors so far, leaf-first, and the pid it
/// stands at, unless it has ended.
#[verifier::ext_equal]
pub struct WalkView {
    pub chain: Seq<AncestorView>,
    pub pid: i32,
    pub open: bool,
}

/// The pid that a walk wants to know of next. It ends at the root, at a pid it
/// has seen, and at the depth cap.
pub open spec fn walk_asks(w: WalkView) -> Option<i32> {
    if w.open && w.chain.len() < MAX_ANCESTRY_DEPTH && w.pid > 1 && (forall|i: int|
        0 <= i < w.chain.len() ==> (#[trigger] w.chain[i]).pid != w.pid) {
        Some(w.pid)
    } else {
        None
    }
}

/// A walk after one answer: a pid that resolves joins the chain, and the walk
/// moves on to a parent that is another process.
pub open spec fn walk_step(w: WalkView, answer: Answer) -> WalkView {
    match answer.0 {
        None => WalkView { chain: w.chain, pid: w.pid, open: false },
        Some(image) => {
            let chain = w.chain.push(
                AncestorView { pid: w.pid, exe: image.0@, identity: image.1@ },
            );
            match answer.1 {
                Some(parent) if parent != w.pid => WalkView { chain, pid: parent, open: true },
                _ => WalkView { chain, pid: w.pid, open: false },
            }
        },
    }
}

/// The walk from `start` after all of `answers`.
pub open spec fn walk_after(start: i32, answers: Seq<Answer>) -> WalkView
    decreases answers.len(),
{
    if answers.len() == 0 {
        WalkView { chain: Seq::empty(), pid: start, open: true }
    } else {
        walk_step(walk_after(start, answers.drop_last()), answers.last())
    }
}

/// Each of `answers` is what `table` said of the pid that the walk asked for.
/// The parent is asked for only where the pid resolves.
pub open spec fn answered_by<T: ProcessTable>(table: &T, start: i32, answers: Seq<Answer>) -> bool {
    forall|i: int|
        0 <= i < answers.len() ==> {
            let asked = walk_asks(walk_after(start, #[trigger] answers.take(i)));
            &&& asked is Some
            &&& call_ensures(T::resolve, (table, asked->0), answers[i].0)
            &&& answers[i].0 is Some ==> call_ensures(T::parent, (table, asked->0), answers[i].1)
        }
}

/// A walk from a process up to the root, driven by what a process table says.
pub struct AncestryWalk {
    chain: Vec<Ancestor>,
    pid: i32,
    open: bool,
}

impl View for AncestryWalk {
    type V = WalkView;

    closed spec fn view(&self) -> WalkView {
        WalkView {
            chain: Seq::new(self.chain@.len(), |i: int| self.chain@[i]@),
            pid: self.pid,
            open: self.open,
        }
    }
}

impl AncestryWalk {
    /// A walk that starts at `start`.
    pub fn new(start: i32) -> (w: AncestryWalk)
        ensures
            w@ == walk_after(start, Seq::empty()),
    {
        let w = AncestryWalk { chain: Vec::new(), pid: start, open: true };
        assert(w@ =~= walk_after(start, Seq::empty()));
        w
    }

    /// The pid to look up next, or `None` where the walk has ended.
    pub fn asks(&self) -> (r: Option<i32>)
        ensures
            r == walk_asks(self@),
    {
        if !self.open || self.chain.len() >= MAX_ANCESTRY_DEPTH || self.pid <= 1 {
            return None;
        }
        let mut i: usize = 0;
        while i < self.chain.len()
            invariant
                i <= self.chain.len(),
                forall|k: int| 0 <= k < i ==> (#[trigger] self@.chain[k]).pid != self.pid,
            decreases self.chain.len() - i,
        {
            if self.chain[i].pid == self.pid {
                assert(self@.chain[i as int].pid == self@.pid);
                return None;
            }
            i += 1;
        }
        Some(self.pid)
    }

    /// Take in what the process table said of the pid that was asked for.
    pub fn told(&mut self, image: Option<(Vec<u8>, CodeIdentity)>, parent: Option<i32>)
        ensures
            final(self)@ == walk_step(old(self)@, (image, parent)),
    {
        match image {
            None => {
                self.open = false;
                assert(self@.chain =~= old(self)@.chain);
            },
            Some((exe, identity)) => {
                let ghost before = self@;
                let ghost added = AncestorView { pid: self.pid, exe: exe@, identity: identity@ };
                self.chain.push(Ancestor { pid: self.pid, exe, identity });
                assert(self@.chain =~= before.chain.push(added));
                let next: i32 = match parent {
                    Some(p) => p,
                    None => self.pid,
                };
                if next != self.pid {
                    self.pid = next;
                    self.open = true;
                } else {
                    self.open = false;
                }
                assert(self@.chain =~= before.chain.push(added));
            },
        }
    }

    /// The chain that the walk found, root-first.
    pub fn caller(self) -> (r: Caller)
        ensures
            r@ == self@.chain.reverse(),
    {
        let ghost found = self@.chain;
        let mut left: Vec<Ancestor> = self.chain;
        let mut chain: Vec<Ancestor> = Vec::new();
        let ghost n = left@.len();
        while left.len() > 0
            invariant
                found.len() == n,
                left.len() + chain.len() == n,
                forall|i: int| 0 <= i < left.len() ==> (#[trigger] left@[i])@ == found[i],
                forall|i: int|
                    0 <= i < chain.len() ==> (#[trigger] chain@[i])@ == found[n - 1 - i],
            decreases left.len(),
        {
            match left.pop() {
                Some(a) => {
                    chain.push(a);
                },
                None => {},
            }
        }
        let r = Caller { chain };
        assert(r@ =~= found.reverse());
        r
    }
}

/// Walk from `start` up to the root, resolving each process. The chain comes
/// root-first, so the grant key does not depend on the direction of the walk.
/// The chain is the one that the table's own answers give, one per pid asked.
pub fn walk_ancestry<T: ProcessTable>(table: &T, start: i32) -> (r: Caller)
    ensures
        exists|answers: Seq<Answer>|
            #![trigger walk_after(start, answers)]
            {
                &&& answered_by(table, start, answers)
                &&& walk_asks(walk_after(start, answers)) is None
                &&& r@ == walk_after(start, answers).chain.reverse()
            },
{
    let mut walk = AncestryWalk::new(start);
    let ghost mut answers: Seq<Answer> = Seq::empty();
    loop
        invariant
            walk@ == walk_after(start, answers),
            walk@.chain.len() <= MAX_ANCESTRY_DEPTH,
            answered_by(table, start, answers),
        ensures
            walk@ == walk_after(start, answers),
            answered_by(table, start, answers),
            walk_asks(walk@) is None,
        decreases MAX_ANCESTRY_DEPTH - walk@.chain.len(), walk@.open as int,
    {
        match walk.asks() {
            None => {
                break;
            },
            Some(pid) => {
                let image = table.resolve(pid);
                let parent = if image.is_some() {
                    table.parent(pid)
                } else {
                    None
                };
                let ghost before = answers;
                let ghost answer: Answer = (image, parent);
                walk.told(image, parent);
                proof {
                    answers = before.push(answer);
                    assert(answers.drop_last() =~= before);
                    assert forall|i: int| 0 <= i < answers.len() implies {
                        let asked = walk_asks(walk_after(start, #[trigger] answers.take(i)));
                        &&& asked is Some
                        &&& call_ensures(T::resolve, (table, asked->0), answers[i].0)
                        &&& answers[i].0 is Some ==> call_ensures(
                            T::parent,
                            (table, asked->0),
                            answers[i].1,
                        )
                    } by {
                        if i < before.len() {
                            assert(answers.take(i) =~= before.take(i));
                        } else {
                            assert(answers.take(i) =~= before);
                        }
                    }
                }
            },
        }
    }
    walk.caller()
}

/// Whatever a table answers, a walk never passes the depth cap, never holds a
/// pid twice, never holds the root process, and its leaf is where it started.
pub proof fn walk_is_bounded<T: ProcessTable>(table: &T, start: i32, answers: Seq<Answer>)
    requires
        answered_by(table, start, answers),
    ensures
        walk_after(start, answers).chain.len() <= MAX_ANCESTRY_DEPTH,
        forall|i: int, j: int|
            0 <= i < j < walk_after(start, answers).chain.len() ==> (#[trigger] walk_after(
                start,
                answers,
            ).chain[i]).pid != (#[trigger] walk_after(start, answers).chain[j]).pid,
        forall|i: int|
            0 <= i < walk_after(start, answers).chain.len() ==> (#[trigger] walk_after(
                start,
                answers,
            ).chain[i]).pid > 1,
        walk_after(start, answers).chain.len() > 0 ==> walk_after(start, answers).chain[0].pid
            == start,
        walk_after(start, answers).chain.len() == 0 && walk_after(start, answers).open
            ==> walk_after(start, answers).pid == start,
    decreases answers.len(),
{
    if answers.len() > 0 {
        let before = answers.drop_last();
        let n = before.len() as int;
        assert(answers.take(n) =~= before);
        assert forall|i: int| 0 <= i < before.len() implies {
            let asked = walk_asks(walk_after(start, #[trigger] before.take(i)));
            &&& asked is Some
            &&& call_ensures(T::resolve, (table, asked->0), before[i].0)
            &&& before[i].0 is Some ==> call_ensures(T::parent, (table, asked->0), before[i].1)
        } by {
            assert(before.take(i) =~= answers.take(i));
        }
        walk_is_bounded(table, start, before);
    }
}

/// Which kind of request a scope string belongs to. Hashed into the grant key,
/// so the two scope namespaces never meet.
#[derive(Debug, Clone, Copy, PartialEq, Eq, Structural)]
pub enum ScopeKind {
    /// A gated command run; the scope is the matched rule's name.
    Command,
    /// One SSH signature; the scope folds in the data-to-sign fingerprint.
    SshSignature,
}

impl ScopeKind {
    /// The tag hashed into the grant key.
    pub open spec fn tag_bytes(self) -> Seq<u8> {
        match self {
            ScopeKind::Command => "cmd".spec_bytes(),
            ScopeKind::SshSignature => "ssh".spec_bytes(),
        }
    }

    /// The tag hashed into the grant key. Short and fixed; never displayed.
    pub fn tag(self) -> (r: &'static [u8])
        ensures
            r@ == self.tag_bytes(),
    {
        match self {
            ScopeKind::Command => "cmd".as_bytes(),
            ScopeKind::SshSignature => "ssh".as_bytes(),
        }
    }
}

/// What one ancestor contributes to the grant key: its path, the tag naming how
/// it was measured, and the digest. Never its pid.
pub open spec fn ancestor_record(a: AncestorView) -> Seq<u8> {
    bytes::field(a.exe) + bytes::field(a.identity.measure.tag_bytes()) + a.identity.digest
}

/// The records of a chain, one after the other.
pub open spec fn chain_record(chain: Seq<AncestorView>) -> Seq<u8>
    decreases chain.len(),
{
    if chain.len() == 0 {
        Seq::empty()
    } else {
        ancestor_record(chain[0]) + chain_record(chain.skip(1))
    }
}

/// The bytes that a grant key is the digest of.
pub open spec fn grant_record(
    chain: Seq<AncestorView>,
    kind: ScopeKind,
    root: Seq<char>,
    scope: Seq<char>,
) -> Seq<u8> {
    "sigil.grant.v1".spec_bytes() + (spec_u64_to_le_bytes(chain.len() as u64) + (chain_record(chain)
        + (bytes::field(encode_utf8(root)) + (bytes::field(kind.tag_bytes()) + bytes::field(
        encode_utf8(scope),
    )))))
}

/// The lease grant key: the digest of the chain, the project root, the request
/// kind and the scope, every field length-prefixed.
pub fn grant_key(caller: &Caller, kind: ScopeKind, project_root: &str, scope: &str) -> (r: [u8; 32])
    ensures
        r@ == bytes::blake2b256_of(grant_record(caller@, kind, project_root@, scope@)),
{
    let mut m: Vec<u8> = Vec::new();
    bytes::push_bytes(&mut m, "sigil.grant.v1".as_bytes());
    let n: usize = caller.chain.len();
    bytes::push_u64(&mut m, n as u64);
    let ghost head = m@;
    let mut i: usize = 0;
    assert(caller@.skip(0) =~= caller@);
    assert(m@ + chain_record(caller@.skip(0)) =~= head + chain_record(caller@));
    while i < caller.chain.len()
        invariant
            i <= caller.chain.len(),
            m@ + chain_record(caller@.skip(i as int)) == head + chain_record(caller@),
        decreases caller.chain.len() - i,
    {
        let a = &caller.chain[i];
        let ghost before = m@;
        bytes::push_field(&mut m, a.exe.as_slice());
        bytes::push_field(&mut m, a.identity.measure.tag());
        bytes::push_bytes(&mut m, a.identity.digest.as_slice());
        assert(m@ =~= before + ancestor_record(caller@[i as int]));
        assert(caller@.skip(i as int).skip(1) =~= caller@.skip(i + 1));
        assert(m@ + chain_record(caller@.skip(i + 1)) =~= before + chain_record(
            caller@.skip(i as int),
        ));
        i += 1;
    }
    assert(caller@.skip(i as int) =~= Seq::empty());
    assert(m@ =~= head + chain_record(caller@));
    bytes::push_field(&mut m, project_root.as_bytes());
    bytes::push_field(&mut m, kind.tag());
    bytes::push_field(&mut m, scope.as_bytes());
    assert(m@ =~= grant_record(caller@, kind, project_root@, scope@));
    bytes::blake2b256(m.as_slice())
}

/// What a record says of one ancestor: everything but its pid.
pub open spec fn same_identity(a: AncestorView, b: AncestorView) -> bool {
    a.exe == b.exe && a.identity == b.identity
}

/// Two chains that agree in everything but pids.
pub open spec fn same_tree(a: Seq<AncestorView>, b: Seq<AncestorView>) -> bool {
    a.len() == b.len() && forall|i: int| 0 <= i < a.len() ==> same_identity(#[trigger] a[i], b[i])
}

/// A chain as the process table can give it: digests of 32 bytes, and paths and
/// a depth that a machine can hold.
pub open spec fn measured_chain(chain: Seq<AncestorView>) -> bool {
    &&& chain.len() <= u64::MAX
    &&& forall|i: int|
        0 <= i < chain.len() ==> (#[trigger] chain[i]).identity.digest.len() == 32
            && chain[i].exe.len() <= u64::MAX
}

/// The four measure tags are different byte strings.
pub proof fn measure_tags_differ(a: IdentityMeasure, b: IdentityMeasure)
    ensures
        a.tag_bytes() == b.tag_bytes() ==> a == b,
        a.tag_bytes().len() <= 6,
{
    tag_literals();
}

proof fn tag_literals()
    ensures
        "cdhash".spec_bytes().len() == 6,
        "adhoc".spec_bytes().len() == 5,
        "bytes".spec_bytes().len() == 5,
        "none".spec_bytes().len() == 4,
        "adhoc".spec_bytes() != "bytes".spec_bytes(),
        "cmd".spec_bytes().len() == 3,
        "ssh".spec_bytes().len() == 3,
        "cmd".spec_bytes() != "ssh".spec_bytes(),
{
    reveal_strlit("cdhash");
    reveal_strlit("adhoc");
    reveal_strlit("bytes");
    reveal_strlit("none");
    reveal_strlit("cmd");
    reveal_strlit("ssh");
    is_ascii_spec_bytes("cdhash");
    is_ascii_spec_bytes("adhoc");
    is_ascii_spec_bytes("bytes");
    is_ascii_spec_bytes("none");
    is_ascii_spec_bytes("cmd");
    is_ascii_spec_bytes("ssh");
    assert("adhoc".spec_bytes()[0] == 97u8);
    assert("bytes".spec_bytes()[0] == 98u8);
    assert("cmd".spec_bytes()[0] == 99u8);
    assert("ssh".spec_bytes()[0] == 115u8);
}

/// The two kind tags are different byte strings.
pub proof fn kind_tags_differ(a: ScopeKind, b: ScopeKind)
    ensures
        a.tag_bytes() == b.tag_bytes() ==> a == b,
        a.tag_bytes().len() == 3,
{
    tag_literals();
}

/// Pids are never hashed: chains that agree in everything else give the same
/// record, and so the same grant key.
pub proof fn grant_record_ignores_pids(
    a: Seq<AncestorView>,
    b: Seq<AncestorView>,
    kind: ScopeKind,
    root: Seq<char>,
    scope: Seq<char>,
)
    requires
        same_tree(a, b),
    ensures
        grant_record(a, kind, root, scope) == grant_record(b, kind, root, scope),
{
    chain_record_ignores_pids(a, b);
}

proof fn chain_record_ignores_pids(a: Seq<AncestorView>, b: Seq<AncestorView>)
    requires
        same_tree(a, b),
    ensures
        chain_record(a) == chain_record(b),
    decreases a.len(),
{
    if a.len() > 0 {
        assert(same_identity(a[0], b[0]));
        assert forall|i: int| 0 <= i < a.skip(1).len() implies same_identity(
            #[trigger] a.skip(1)[i],
            b.skip(1)[i],
        ) by {
            assert(same_identity(a[i + 1], b[i + 1]));
        }
        chain_record_ignores_pids(a.skip(1), b.skip(1));
    }
}

proof fn ancestor_record_reads_one_way(
    a: AncestorView,
    x: Seq<u8>,
    b: AncestorView,
    y: Seq<u8>,
)
    requires
        a.exe.len() <= u64::MAX,
        b.exe.len() <= u64::MAX,
        a.identity.digest.len() == b.identity.digest.len(),
        ancestor_record(a) + x == ancestor_record(b) + y,
    ensures
        same_identity(a, b),
        x == y,
{
    let ta = a.identity.measure.tag_bytes();
    let tb = b.identity.measure.tag_bytes();
    let da = a.identity.digest;
    let db = b.identity.digest;
    measure_tags_differ(a.identity.measure, b.identity.measure);
    measure_tags_differ(b.identity.measure, a.identity.measure);
    assert(ancestor_record(a) + x =~= bytes::field(a.exe) + (bytes::field(ta) + (da + x)));
    assert(ancestor_record(b) + y =~= bytes::field(b.exe) + (bytes::field(tb) + (db + y)));
    bytes::field_reads_one_way(
        a.exe,
        bytes::field(ta) + (da + x),
        b.exe,
        bytes::field(tb) + (db + y),
    );
    bytes::field_reads_one_way(ta, da + x, tb, db + y);
    bytes::prefix_reads_one_way(da, x, db, y);
}

proof fn measured_chain_rest(chain: Seq<AncestorView>)
    requires
        measured_chain(chain),
        chain.len() > 0,
    ensures
        measured_chain(chain.skip(1)),
{
    assert forall|i: int| 0 <= i < chain.skip(1).len() implies (#[trigger] chain.skip(
        1,
    )[i]).identity.digest.len() == 32 && chain.skip(1)[i].exe.len() <= u64::MAX by {
        assert(chain[i + 1].identity.digest.len() == 32);
    }
}

proof fn chain_record_reads_one_way(
    a: Seq<AncestorView>,
    x: Seq<u8>,
    b: Seq<AncestorView>,
    y: Seq<u8>,
)
    requires
        measured_chain(a),
        measured_chain(b),
        a.len() == b.len(),
        chain_record(a) + x == chain_record(b) + y,
    ensures
        same_tree(a, b),
        x == y,
    decreases a.len(),
{
    if a.len() == 0 {
        assert(chain_record(a) + x =~= x);
        assert(chain_record(b) + y =~= y);
    } else {
        let ra = chain_record(a.skip(1)) + x;
        let rb = chain_record(b.skip(1)) + y;
        assert(chain_record(a) + x =~= ancestor_record(a[0]) + ra);
        assert(chain_record(b) + y =~= ancestor_record(b[0]) + rb);
        assert(a[0].identity.digest.len() == b[0].identity.digest.len());
        ancestor_record_reads_one_way(a[0], ra, b[0], rb);
        measured_chain_rest(a);
        measured_chain_rest(b);
        chain_record_reads_one_way(a.skip(1), x, b.skip(1), y);
        assert forall|i: int| 0 <= i < a.len() implies same_identity(#[trigger] a[i], b[i]) by {
            if i > 0 {
                assert(same_identity(a.skip(1)[i - 1], b.skip(1)[i - 1]));
            }
        }
    }
}

/// No two different inputs serialize to the same record: equal records hold the
/// same tree, the same kind, the same project root and the same scope. So two
/// grant keys over different inputs are digests of different messages.
pub proof fn grant_record_reads_one_way(
    a: Seq<AncestorView>,
    kind_a: ScopeKind,
    root_a: Seq<char>,
    scope_a: Seq<char>,
    b: Seq<AncestorView>,
    kind_b: ScopeKind,
    root_b: Seq<char>,
    scope_b: Seq<char>,
)
    requires
        measured_chain(a),
        measured_chain(b),
        encode_utf8(root_a).len() <= u64::MAX,
        encode_utf8(root_b).len() <= u64::MAX,
        encode_utf8(scope_a).len() <= u64::MAX,
        encode_utf8(scope_b).len() <= u64::MAX,
        grant_record(a, kind_a, root_a, scope_a) == grant_record(b, kind_b, root_b, scope_b),
    ensures
        same_tree(a, b),
        kind_a == kind_b,
        root_a == root_b,
        scope_a == scope_b,
{
    lemma_auto_spec_u64_to_from_le_bytes();
    kind_tags_differ(kind_a, kind_b);
    kind_tags_differ(kind_b, kind_a);
    let sa = bytes::field(encode_utf8(scope_a));
    let sb = bytes::field(encode_utf8(scope_b));
    let ka = bytes::field(kind_a.tag_bytes()) + sa;
    let kb = bytes::field(kind_b.tag_bytes()) + sb;
    let ra = bytes::field(encode_utf8(root_a)) + ka;
    let rb = bytes::field(encode_utf8(root_b)) + kb;
    let la = spec_u64_to_le_bytes(a.len() as u64);
    let lb = spec_u64_to_le_bytes(b.len() as u64);
    bytes::prefix_reads_one_way(
        "sigil.grant.v1".spec_bytes(),
        la + (chain_record(a) + ra),
        "sigil.grant.v1".spec_bytes(),
        lb + (chain_record(b) + rb),
    );
    bytes::prefix_reads_one_way(la, chain_record(a) + ra, lb, chain_record(b) + rb);
    assert(a.len() as u64 == b.len() as u64);
    chain_record_reads_one_way(a, ra, b, rb);
    bytes::field_reads_one_way(encode_utf8(root_a), ka, encode_utf8(root_b), kb);
    bytes::field_reads_one_way(kind_a.tag_bytes(), sa, kind_b.tag_bytes(), sb);
    assert(sa + Seq::<u8>::empty() =~= sa);
    assert(sb + Seq::<u8>::empty() =~= sb);
    bytes::field_reads_one_way(
        encode_utf8(scope_a),
        Seq::empty(),
        encode_utf8(scope_b),
        Seq::empty(),
    );
    bytes::utf8_reads_one_way(root_a, root_b);
    bytes::utf8_reads_one_way(scope_a, scope_b);
}

/// Different cdhashes are folded from different messages.
pub proof fn cdhash_record_reads_one_way(a: Seq<u8>, b: Seq<u8>)
    requires
        a.len() <= u64::MAX,
        b.len() <= u64::MAX,
        cdhash_record(a) == cdhash_record(b),
    ensures
        a == b,
{
    bytes::prefix_reads_one_way(
        "sigil.cdhash.v1".spec_bytes(),
        bytes::field(a),
        "sigil.cdhash.v1".spec_bytes(),
        bytes::field(b),
    );
    assert(bytes::field(a) + Seq::<u8>::empty() =~= bytes::field(a));
    assert(bytes::field(b) + Seq::<u8>::empty() =~= bytes::field(b));
    bytes::field_reads_one_way(a, Seq::empty(), b, Seq::empty());
}

/// Different process instances are folded from different messages: a recycled
/// pid with another start time is another identity.
pub proof fn instance_record_reads_one_way(
    p: i32,
    s: ProcessStart,
    q: i32,
    t: ProcessStart,
)
    requires
        instance_record(p, s) == instance_record(q, t),
    ensures
        p == q,
        s == t,
{
    lemma_auto_spec_u32_to_from_le_bytes();
    lemma_auto_spec_u64_to_from_le_bytes();
    let d = "sigil.unmeasured.v1".spec_bytes();
    let (p4, q4) = (spec_u32_to_le_bytes(p as u32), spec_u32_to_le_bytes(q as u32));
    let (s8, t8) = (spec_u64_to_le_bytes(s.sec), spec_u64_to_le_bytes(t.sec));
    let (s4, t4) = (spec_u32_to_le_bytes(s.usec), spec_u32_to_le_bytes(t.usec));
    assert(instance_record(p, s) =~= d + (p4 + (s8 + s4)));
    assert(instance_record(q, t) =~= d + (q4 + (t8 + t4)));
    bytes::prefix_reads_one_way(d, p4 + (s8 + s4), d, q4 + (t8 + t4));
    bytes::prefix_reads_one_way(p4, s8 + s4, q4, t8 + t4);
    bytes::prefix_reads_one_way(s8, s4, t8, t4);
    assert(p as u32 == q as u32);
    assert(p as u32 == q as u32 ==> p == q) by (bit_vector);
}

/// A cdhash and a process instance are never folded from the same message.
pub proof fn identity_records_are_apart(cdhash: Seq<u8>, pid: i32, started: ProcessStart)
    ensures
        cdhash_record(cdhash) != instance_record(pid, started),
{
    reveal_strlit("sigil.cdhash.v1");
    reveal_strlit("sigil.unmeasured.v1");
    is_ascii_spec_bytes("sigil.cdhash.v1");
    is_ascii_spec_bytes("sigil.unmeasured.v1");
    assert(cdhash_record(cdhash)[6] == 99u8);
    assert(instance_record(pid, started)[6] == 117u8);
}

/// A grant key is of everything that was measured of the caller and of everything
/// that is asked: two messages are one only where the chains are as long as each
/// other and agree, ancestor by ancestor, in the path, in how it was measured and in
/// the digest, and where the kind, the root and the scope agree.
pub proof fn a_grant_message_is_of_every_ancestor(
    a: Seq<AncestorView>,
    kind_a: ScopeKind,
    root_a: Seq<char>,
    scope_a: Seq<char>,
    b: Seq<AncestorView>,
    kind_b: ScopeKind,
    root_b: Seq<char>,
    scope_b: Seq<char>,
)
    requires
        measured_chain(a),
        measured_chain(b),
        encode_utf8(root_a).len() <= u64::MAX,
        encode_utf8(root_b).len() <= u64::MAX,
        encode_utf8(scope_a).len() <= u64::MAX,
        encode_utf8(scope_b).len() <= u64::MAX,
    ensures
        grant_record(a, kind_a, root_a, scope_a) == grant_record(b, kind_b, root_b, scope_b) <==> {
            &&& a.len() == b.len()
            &&& forall|i: int|
                0 <= i < a.len() ==> (#[trigger] a[i]).exe == b[i].exe && a[i].identity.measure
                    == b[i].identity.measure && a[i].identity.digest == b[i].identity.digest
            &&& kind_a == kind_b
            &&& root_a == root_b
            &&& scope_a == scope_b
        },
{
    if grant_record(a, kind_a, root_a, scope_a) == grant_record(b, kind_b, root_b, scope_b) {
        grant_record_reads_one_way(a, kind_a, root_a, scope_a, b, kind_b, root_b, scope_b);
        assert forall|i: int| 0 <= i < a.len() implies (#[trigger] a[i]).exe == b[i].exe
            && a[i].identity.measure == b[i].identity.measure && a[i].identity.digest
            == b[i].identity.digest by {
            assert(same_identity(a[i], b[i]));
        }
    }
    if a.len() == b.len() && (forall|i: int|
        0 <= i < a.len() ==> (#[trigger] a[i]).exe == b[i].exe && a[i].identity.measure
            == b[i].identity.measure && a[i].identity.digest == b[i].identity.digest) && kind_a
        == kind_b && root_a == root_b && scope_a == scope_b {
        assert forall|i: int| 0 <= i < a.len() implies same_identity(#[trigger] a[i], b[i]) by {
            assert(a[i].identity =~= b[i].identity);
        }
        grant_record_ignores_pids(a, b, kind_a, root_a, scope_a);
    }
}

/// The chain is shown root-first, every ancestor of it: one more process stands
/// behind an arrow, under the last name of its path, or its pid where the path has
/// none.
pub proof fn every_ancestor_is_shown(chain: Seq<AncestorView>, a: AncestorView)
    ensures
        ({
            let name = match path::final_component(a.exe) {
                Some(part) => path::utf8_lossy(part),
                None => text::signed_decimal(a.pid as int),
            };
            &&& chain.len() == 0 ==> chain_text(chain).len() == 0 && chain_text(chain.push(a))
                == name
            &&& chain.len() > 0 ==> chain_text(chain.push(a)) == chain_text(chain)
                + " \u{2192} "@ + name
        }),
{
    let more = chain.push(a);
    let names = Seq::new(more.len(), |i: int| short_name(more[i].exe, more[i].pid));
    let before = Seq::new(chain.len(), |i: int| short_name(chain[i].exe, chain[i].pid));
    assert(names.drop_last() =~= before);
    assert(names.last() == short_name(a.exe, a.pid));
}

/// A walk holds what the table answered, process by process: the path and the
/// identity of each, under the pid that was asked for, and each next pid is the
/// parent that was named for the one before. It leaves out no process that resolved.
pub proof fn a_walk_holds_what_was_answered(start: i32, answers: Seq<Answer>, i: int)
    requires
        forall|k: int| 0 <= k < answers.len() - 1 ==> (#[trigger] answers[k]).0 is Some,
        0 <= i < answers.len(),
    ensures
        ({
            let chain = walk_after(start, answers).chain;
            &&& answers.last().0 is Some ==> chain.len() == answers.len()
            &&& answers.last().0 is None ==> chain.len() == answers.len() - 1
            &&& answers[i].0 matches Some(image) ==> chain[i].exe == image.0@ && chain[i].identity
                == image.1@
            &&& i > 0 && i < chain.len() && answers[i - 1].1 is Some ==> chain[i].pid
                == answers[i - 1].1->0
            &&& i == 0 && chain.len() > 0 ==> chain[0].pid == start
        }),
    decreases answers.len(),
{
    let before = answers.drop_last();
    let w = walk_after(start, before);
    if before.len() > 0 {
        assert(before.last().0 is Some) by {
            assert(answers[before.len() - 1].0 is Some);
        }
        assert forall|k: int| 0 <= k < before.len() - 1 implies (#[trigger] before[k]).0 is Some by {
            assert(answers[k].0 is Some);
        }
        a_walk_holds_what_was_answered(start, before, before.len() - 1);
        if i < before.len() {
            a_walk_holds_what_was_answered(start, before, i);
            assert(before[i] == answers[i]);
        }
        if i == before.len() && answers[i - 1].1 is Some {
            assert(before.last() == answers[i - 1]);
            let w0 = walk_after(start, before.drop_last());
            assert(w == walk_step(w0, before.last()));
        }
        if i > 0 && i < before.len() {
            assert(before[i - 1] == answers[i - 1]);
        }
    }
}

/// A walk goes on to the root: it asks no further only at the root process, at a
/// pid that it holds already, at its cap, or where the table named no process or no
/// other parent.
pub proof fn a_walk_goes_on_to_the_root(w: WalkView)
    ensures
        walk_asks(w) is None <==> !w.open || w.pid <= 1 || w.chain.len() >= MAX_ANCESTRY_DEPTH
            || exists|i: int| 0 <= i < w.chain.len() && (#[trigger] w.chain[i]).pid == w.pid,
        walk_asks(w) matches Some(pid) ==> pid == w.pid,
        forall|image: (Vec<u8>, CodeIdentity), parent: i32|
            parent != w.pid ==> #[trigger] walk_step(w, (Some(image), Some(parent))).open
                && walk_step(w, (Some(image), Some(parent))).pid == parent,
{
}

/// A walk ends where a process cannot be resolved, has no parent, or is its own parent;
/// what it holds up to there stays, and what was resolved joins it.
pub proof fn a_walk_ends_where_nothing_leads_on(
    w: WalkView,
    image: (Vec<u8>, CodeIdentity),
    parent: Option<i32>,
)
    ensures
        !walk_step(w, (None, parent)).open && walk_step(w, (None, parent)).chain == w.chain,
        !walk_step(w, (Some(image), None)).open,
        !walk_step(w, (Some(image), Some(w.pid))).open,
        walk_step(w, (Some(image), parent)).chain.len() == w.chain.len() + 1,
        walk_step(w, (Some(image), parent)).chain.drop_last() == w.chain,
        walk_step(w, (Some(image), parent)).chain.last().pid == w.pid,
        walk_step(w, (Some(image), parent)).chain.last().exe == image.0@,
        walk_step(w, (Some(image), parent)).chain.last().identity == image.1@,
{
    assert(walk_step(w, (Some(image), parent)).chain.drop_last() =~= w.chain);
}

/// A walk asks for no process beyond the first sixty-four.
pub proof fn a_walk_is_no_longer_than_sixty_four(w: WalkView)
    ensures
        walk_asks(w) is Some ==> w.chain.len() < 64 && w.pid > 1,
        w.open && w.chain.len() < 64 && w.pid > 1 && (forall|i: int|
            0 <= i < w.chain.len() ==> (#[trigger] w.chain[i]).pid != w.pid) ==> walk_asks(w)
            == Some(w.pid),
{
}

} // verus!
