//! Ancestors that could not be measured, remembered so that a person can find
//! out why their approvals came back.
use crate::lease;
use crate::lease::ProcessStart;
use crate::lists;
use crate::path;
use crate::text;
use vstd::prelude::*;

verus! {

/// Cap on remembered notes.
pub const UNMEASURED_NOTES_MAX: usize = 64;

/// Why the platform would not describe a process.
#[derive(Debug, Clone, Copy, PartialEq, Eq, Structural)]
pub enum GuestFailure {
    /// The pid does not resolve to a live image.
    NoLiveImage,
    /// The platform declined to vouch for the image.
    ImageNotVouched,
    /// The image carries no identity.
    NoIdentity,
}

/// One ancestor that the platform would not describe. Non-secret: a pid, a start
/// time, an executable path and a fixed reason.
#[derive(Debug, Clone)]
pub struct UnmeasuredNote {
    pub pid: i32,
    pub started: ProcessStart,
    pub exe: Vec<u8>,
    pub reason: GuestFailure,
}

/// A note as plain values.
#[verifier::ext_equal]
pub struct NoteView {
    pub pid: i32,
    pub started: ProcessStart,
    pub exe: Seq<u8>,
    pub reason: GuestFailure,
}

impl View for UnmeasuredNote {
    type V = NoteView;

    open spec fn view(&self) -> NoteView {
        NoteView { pid: self.pid, started: self.started, exe: self.exe@, reason: self.reason }
    }
}

/// Notes are equal where their paths have the same components and all else is the
/// same.
impl PartialEq for UnmeasuredNote {
    fn eq(&self, other: &UnmeasuredNote) -> (r: bool) {
        self.pid == other.pid && self.started == other.started && path::same(
            self.exe.as_slice(),
            other.exe.as_slice(),
        ) && self.reason == other.reason
    }
}

impl vstd::std_specs::cmp::PartialEqSpecImpl for UnmeasuredNote {
    open spec fn obeys_eq_spec() -> bool {
        true
    }

    open spec fn eq_spec(&self, other: &UnmeasuredNote) -> bool {
        self.pid == other.pid && self.started == other.started && path::components(self.exe@)
            == path::components(other.exe@) && self.reason == other.reason
    }
}

impl Eq for UnmeasuredNote {

}

impl UnmeasuredNote {
    /// The ancestor's short name, for a one-line report.
    pub fn name(&self) -> (r: String)
        ensures
            r@ == lease::short_name(self@.exe, self@.pid),
    {
        lease::short_name_text(self.exe.as_slice(), self.pid)
    }

    /// Another note of the same process.
    pub fn duplicate(&self) -> (r: UnmeasuredNote)
        ensures
            r@ == self@,
    {
        UnmeasuredNote {
            pid: self.pid,
            started: self.started,
            exe: self.exe.clone(),
            reason: self.reason,
        }
    }
}

/// The notes that a daemon holds, oldest first.
pub struct UnmeasuredNotes {
    notes: Vec<UnmeasuredNote>,
}

impl View for UnmeasuredNotes {
    type V = Seq<NoteView>;

    open spec fn view(&self) -> Seq<NoteView> {
        lists::views(self.held())
    }
}

impl UnmeasuredNotes {
    /// The notes themselves, of which the view is the values.
    pub closed spec fn held(&self) -> Seq<UnmeasuredNote> {
        self.notes@
    }

    /// No notes yet.
    pub fn new() -> (r: UnmeasuredNotes)
        ensures
            r@.len() == 0,
    {
        UnmeasuredNotes { notes: Vec::new() }
    }
}

/// Notes of one problem: the same executable, by the components of its path, and the
/// same reason.
pub open spec fn one_problem(a: NoteView, b: NoteView) -> bool {
    path::components(a.exe) == path::components(b.exe) && a.reason == b.reason
}

/// The notes of the problem that `note` names.
pub open spec fn same_problem(note: NoteView) -> spec_fn(NoteView) -> bool {
    |n: NoteView| one_problem(n, note)
}

/// The notes after `note`: a known problem is brought up to date in its place;
/// a new one joins at the end, and where the notes are full the one at `doomed`
/// makes room.
pub open spec fn noted(s: Seq<NoteView>, note: NoteView, doomed: int) -> Seq<NoteView> {
    let at = lists::first_where(s, same_problem(note));
    if at < s.len() {
        s.update(at, note)
    } else if s.len() >= UNMEASURED_NOTES_MAX {
        s.remove(doomed).push(note)
    } else {
        s.push(note)
    }
}

/// `at` is the note to drop, going by what `live` said: the first whose process
/// is over, and the oldest where every process still runs.
pub open spec fn is_doomed<F: Fn(&UnmeasuredNote) -> bool>(
    notes: Seq<UnmeasuredNote>,
    live: F,
    at: int,
) -> bool {
    ||| 0 <= at < notes.len() && call_ensures(live, (&notes[at],), false) && forall|i: int|
        0 <= i < at ==> call_ensures(live, (&#[trigger] notes[i],), true)
    ||| at == 0 && forall|i: int|
        0 <= i < notes.len() ==> call_ensures(live, (&#[trigger] notes[i],), true)
}

/// Which note is dropped when the notes are full: the first whose process is
/// over, and only if every process is still live, the oldest.
pub fn doomed_index<F: Fn(&UnmeasuredNote) -> bool>(notes: &[UnmeasuredNote], live: F) -> (r: usize)
    requires
        forall|n: &UnmeasuredNote| call_requires(live, (n,)),
    ensures
        is_doomed(notes@, live, r as int),
        r < notes@.len() || r == 0,
{
    let mut i: usize = 0;
    while i < notes.len()
        invariant
            i <= notes.len(),
            forall|n: &UnmeasuredNote| call_requires(live, (n,)),
            forall|k: int| 0 <= k < i ==> call_ensures(live, (&#[trigger] notes@[k],), true),
        decreases notes.len() - i,
    {
        if !live(&notes[i]) {
            return i;
        }
        i += 1;
    }
    0
}

/// Record an unmeasurable ancestor. Returns whether it is worth a line in the
/// log: once per executable and reason, not once per command.
pub fn note_unmeasured<F: Fn(&UnmeasuredNote) -> bool>(
    notes: &mut UnmeasuredNotes,
    note: UnmeasuredNote,
    live: F,
) -> (r: bool)
    requires
        forall|n: &UnmeasuredNote| call_requires(live, (n,)),
    ensures
        r == (lists::first_where(old(notes)@, same_problem(note@)) >= old(notes)@.len()),
        exists|doomed: int|
            #![trigger noted(old(notes)@, note@, doomed)]
            {
                &&& r && old(notes)@.len() >= UNMEASURED_NOTES_MAX ==> is_doomed(
                    old(notes).held(),
                    live,
                    doomed,
                )
                &&& final(notes)@ == noted(old(notes)@, note@, doomed)
            },
{
    let ghost p = same_problem(note@);
    let mut i: usize = 0;
    while i < notes.notes.len()
        invariant
            i <= notes.notes.len(),
            *notes == *old(notes),
            p == same_problem(note@),
            forall|k: int| 0 <= k < i ==> !p(#[trigger] notes@[k]),
        decreases notes.notes.len() - i,
    {
        let n = &notes.notes[i];
        if path::same(n.exe.as_slice(), note.exe.as_slice()) && n.reason == note.reason {
            assert(p(notes@[i as int]));
            proof {
                lists::first_where_is(notes@, p, i as int);
            }
            let ghost before = notes@;
            let ghost shown = note@;
            notes.notes.remove(i);
            notes.notes.insert(i, note);
            assert(notes@ =~= noted(before, shown, 0));
            return false;
        }
        assert(!p(notes@[i as int]));
        i += 1;
    }
    proof {
        lists::first_where_is(notes@, p, i as int);
    }
    let ghost before = notes@;
    let ghost shown = note@;
    let ghost mut at: int = 0;
    if notes.notes.len() >= UNMEASURED_NOTES_MAX {
        let doomed: usize = doomed_index(notes.notes.as_slice(), live);
        proof {
            at = doomed as int;
        }
        notes.notes.remove(doomed);
        assert(notes@ =~= before.remove(doomed as int));
    }
    notes.notes.push(note);
    assert(notes@ =~= noted(before, shown, at));
    true
}

/// Every ancestor that could not be measured, oldest first.
pub fn unmeasured_notes(notes: &UnmeasuredNotes) -> (r: Vec<UnmeasuredNote>)
    ensures
        lists::views(r@) == notes@,
{
    let mut out: Vec<UnmeasuredNote> = Vec::new();
    let mut i: usize = 0;
    while i < notes.notes.len()
        invariant
            i <= notes.notes.len(),
            out.len() == i,
            forall|k: int| 0 <= k < i ==> (#[trigger] out@[k])@ == notes@[k],
        decreases notes.notes.len() - i,
    {
        out.push(notes.notes[i].duplicate());
        i += 1;
    }
    assert(lists::views(out@) =~= notes@);
    out
}

/// The unmeasurable ancestors that still run, oldest first. `started` is the
/// kernel's start time for the pid of each note now; a recycled pid is another
/// process, and its predecessor's note is history.
pub fn live_unmeasured_notes(
    notes: &UnmeasuredNotes,
    started: &[Option<ProcessStart>],
) -> (r: Vec<UnmeasuredNote>)
    requires
        started@.len() == notes@.len(),
    ensures
        lists::views(r@) == still_live(notes@, started@),
{
    let mut out: Vec<UnmeasuredNote> = Vec::new();
    let mut i: usize = 0;
    assert(lists::views(out@) =~= still_live(notes@.take(0), started@.take(0)));
    while i < notes.notes.len()
        invariant
            i <= notes.notes.len(),
            started@.len() == notes@.len(),
            notes@.len() == notes.notes.len(),
            lists::views(out@) == still_live(notes@.take(i as int), started@.take(i as int)),
        decreases notes.notes.len() - i,
    {
        let ghost before = lists::views(out@);
        assert(notes@.take(i + 1).drop_last() =~= notes@.take(i as int));
        assert(started@.take(i + 1).drop_last() =~= started@.take(i as int));
        let n = &notes.notes[i];
        let live = match started[i] {
            Some(s) => s == n.started,
            None => false,
        };
        if live {
            out.push(n.duplicate());
            assert(lists::views(out@) =~= before.push(notes@[i as int]));
        }
        i += 1;
    }
    assert(notes@.take(i as int) =~= notes@);
    assert(started@.take(i as int) =~= started@);
    out
}

/// The notes whose process still runs: the start time for the pid is the one in
/// the note.
pub open spec fn still_live(s: Seq<NoteView>, started: Seq<Option<ProcessStart>>) -> Seq<NoteView>
    decreases s.len(),
{
    if s.len() == 0 {
        Seq::empty()
    } else {
        let rest = still_live(s.drop_last(), started.drop_last());
        if started.last() == Some(s.last().started) {
            rest.push(s.last())
        } else {
            rest
        }
    }
}

/// The log line for an unmeasurable ancestor.
pub open spec fn unmeasured_line_text(ts: u64, note: NoteView, why: Seq<char>) -> Seq<char> {
    "sigil daemon: ["@ + text::decimal(ts as nat) + "] caller ancestor not measurable \u{b7} "@
        + path::utf8_lossy(note.exe) + " \u{b7} pid "@ + text::signed_decimal(note.pid as int)
        + " \u{b7} "@ + why
        + " \u{b7} leases under it are keyed to this process, not to its code"@
}

/// The log line for an unmeasurable ancestor, at `ts` seconds; `why` is the
/// platform's reason in words.
pub fn unmeasured_line(ts: u64, note: &UnmeasuredNote, why: &str) -> (r: String)
    ensures
        r@ == unmeasured_line_text(ts, note@, why@),
{
    let mut s = String::new();
    s.append("sigil daemon: [");
    text::push_decimal(&mut s, ts as u128);
    s.append("] caller ancestor not measurable \u{b7} ");
    s.append(path::lossy(note.exe.as_slice()).as_str());
    s.append(" \u{b7} pid ");
    s.append(text::signed_decimal_text(note.pid).as_str());
    s.append(" \u{b7} ");
    s.append(why);
    s.append(" \u{b7} leases under it are keyed to this process, not to its code");
    assert(s@ =~= unmeasured_line_text(ts, note@, why@));
    s
}

/// The notes never outgrow their cap, and no problem is noted twice.
pub proof fn notes_stay_bounded(s: Seq<NoteView>, note: NoteView, doomed: int)
    requires
        s.len() <= UNMEASURED_NOTES_MAX,
        0 <= doomed < s.len() || s.len() < UNMEASURED_NOTES_MAX,
        forall|i: int, j: int|
            0 <= i < j < s.len() ==> !one_problem(#[trigger] s[i], #[trigger] s[j]),
    ensures
        noted(s, note, doomed).len() <= UNMEASURED_NOTES_MAX,
        forall|i: int, j: int|
            0 <= i < j < noted(s, note, doomed).len() ==> !one_problem(
                #[trigger] noted(s, note, doomed)[i],
                #[trigger] noted(s, note, doomed)[j],
            ),
        noted(s, note, doomed).contains(note),
{
    let p = same_problem(note);
    lists::first_where_is_first(s, p);
    let at = lists::first_where(s, p);
    let after = noted(s, note, doomed);
    if at < s.len() {
        assert(after[at] == note);
        assert(p(s[at]));
        assert forall|i: int, j: int| 0 <= i < j < after.len() implies !one_problem(
            #[trigger] after[i],
            #[trigger] after[j],
        ) by {
            assert(!one_problem(s[i], s[j]));
        }
    } else {
        let kept = if s.len() >= UNMEASURED_NOTES_MAX {
            s.remove(doomed)
        } else {
            s
        };
        assert(after[kept.len() as int] == note);
        assert forall|i: int| 0 <= i < kept.len() implies !(#[trigger] p(kept[i])) by {
            if s.len() >= UNMEASURED_NOTES_MAX && i >= doomed {
                assert(kept[i] == s[i + 1]);
            } else {
                assert(kept[i] == s[i]);
            }
        }
        assert forall|i: int, j: int| 0 <= i < j < after.len() implies !one_problem(
            #[trigger] after[i],
            #[trigger] after[j],
        ) by {
            if j == kept.len() {
                assert(!p(kept[i]));
            } else if s.len() >= UNMEASURED_NOTES_MAX {
                let a = if i >= doomed {
                    i + 1
                } else {
                    i
                };
                let b = if j >= doomed {
                    j + 1
                } else {
                    j
                };
                assert(after[i] == s[a] && after[j] == s[b]);
            }
        }
    }
}

/// A note takes the place of no other problem: a known problem leaves every other
/// note where it is, and so does a new one while there is room; where there is none,
/// one note goes and the others stay.
pub proof fn a_note_displaces_no_other(s: Seq<NoteView>, note: NoteView, doomed: int, i: int)
    requires
        0 <= i < s.len(),
        s.len() >= UNMEASURED_NOTES_MAX ==> 0 <= doomed < s.len(),
        path::components(s[i].exe) != path::components(note.exe) || s[i].reason != note.reason,
    ensures
        noted(s, note, doomed).contains(note),
        noted(s, note, doomed).contains(s[i]) || (i == doomed && s.len() >= UNMEASURED_NOTES_MAX),
        (exists|k: int|
            0 <= k < s.len() && path::components((#[trigger] s[k]).exe) == path::components(
                note.exe,
            ) && s[k].reason == note.reason) ==> noted(s, note, doomed).len() == s.len()
            && noted(s, note, doomed)[i] == s[i],
        s.len() < UNMEASURED_NOTES_MAX ==> noted(s, note, doomed)[i] == s[i],
{
    let p = same_problem(note);
    lists::first_where_is_first(s, p);
    let at = lists::first_where(s, p);
    let after = noted(s, note, doomed);
    assert(!p(s[i]));
    if at < s.len() {
        assert(p(s[at]));
        assert(after[at] == note);
        assert(after[i] == s[i]);
    } else {
        assert(after[after.len() - 1] == note);
        assert forall|k: int| 0 <= k < s.len() implies !(path::components((#[trigger] s[k]).exe)
            == path::components(note.exe) && s[k].reason == note.reason) by {
            assert(!p(s[k]));
        }
        if s.len() < UNMEASURED_NOTES_MAX {
            assert(after[i] == s[i]);
        } else if i < doomed {
            assert(after[i] == s[i]);
        } else if i > doomed {
            assert(after[i - 1] == s[i]);
        }
    }
}

/// The notes that are shown are those whose process is still the one that was noted:
/// each of them, in order, and no other.
pub proof fn a_note_is_shown_while_its_process_runs(
    s: Seq<NoteView>,
    started: Seq<Option<ProcessStart>>,
    n: NoteView,
)
    requires
        s.len() == started.len(),
    ensures
        still_live(s, started).contains(n) <==> exists|i: int|
            0 <= i < s.len() && #[trigger] s[i] == n && started[i] == Some(n.started),
        still_live(s, started).len() <= s.len(),
        (forall|i: int| 0 <= i < s.len() ==> #[trigger] started[i] == Some(s[i].started))
            ==> still_live(s, started) == s,
    decreases s.len(),
{
    let shown = still_live(s, started);
    if s.len() > 0 {
        let a = s.drop_last();
        let b = started.drop_last();
        a_note_is_shown_while_its_process_runs(a, b, n);
        let rest = still_live(a, b);
        let last = s.len() - 1;
        if shown.contains(n) {
            let k = shown.index_of(n);
            if k < rest.len() {
                assert(rest[k] == n);
                let i = choose|i: int|
                    0 <= i < a.len() && #[trigger] a[i] == n && b[i] == Some(n.started);
                assert(s[i] == n && started[i] == Some(n.started));
            } else {
                assert(s[last] == n);
            }
        }
        if exists|i: int|
            0 <= i < s.len() && #[trigger] s[i] == n && started[i] == Some(n.started) {
            let i = choose|i: int|
                0 <= i < s.len() && #[trigger] s[i] == n && started[i] == Some(n.started);
            if i < last {
                assert(a[i] == n && b[i] == Some(n.started));
                let k = rest.index_of(n);
                assert(shown[k] == n);
            } else {
                assert(shown[shown.len() - 1] == n);
            }
        }
        if forall|i: int| 0 <= i < s.len() ==> #[trigger] started[i] == Some(s[i].started) {
            assert forall|i: int| 0 <= i < a.len() implies #[trigger] b[i] == Some(
                a[i].started,
            ) by {
                assert(started[i] == Some(s[i].started));
            }
            assert(started[last] == Some(s[last].started));
            assert(shown =~= s);
        }
    } else {
        assert(shown =~= s);
    }
}

/// The line that is logged names the executable, the process and the reason.
pub proof fn a_logged_note_names_its_process(ts: u64, note: NoteView, why: Seq<char>)
    ensures
        text::occurs_in(unmeasured_line_text(ts, note, why), path::utf8_lossy(note.exe)),
        text::occurs_in(
            unmeasured_line_text(ts, note, why),
            text::signed_decimal(note.pid as int),
        ),
        text::occurs_in(unmeasured_line_text(ts, note, why), why),
        text::occurs_in(unmeasured_line_text(ts, note, why), text::decimal(ts as nat)),
{
    broadcast use text::parts_stand_in;

}

/// The note that makes room is one whose process is over, where there is one, and the
/// first of those; where every process runs, it is the oldest.
pub proof fn the_doomed_note_is_over_or_oldest<F: Fn(&UnmeasuredNote) -> bool>(
    notes: Seq<UnmeasuredNote>,
    live: F,
    at: int,
)
    requires
        is_doomed(notes, live, at),
    ensures
        at == 0 || (0 < at < notes.len() && call_ensures(live, (&notes[at],), false)),
        forall|i: int| 0 <= i < at ==> call_ensures(live, (&#[trigger] notes[i],), true),
        notes.len() > 0 ==> call_ensures(live, (&notes[at],), false) || forall|i: int|
            0 <= i < notes.len() ==> call_ensures(live, (&#[trigger] notes[i],), true),
{
}

/// Notes are kept up to sixty-four: below that a new one joins and none goes.
pub proof fn a_note_goes_only_beyond_sixty_four(s: Seq<NoteView>, note: NoteView, doomed: int)
    requires
        s.len() <= 64,
        s.len() == 64 ==> 0 <= doomed < s.len(),
        forall|k: int|
            0 <= k < s.len() ==> path::components((#[trigger] s[k]).exe) != path::components(
                note.exe,
            ) || s[k].reason != note.reason,
    ensures
        s.len() < 64 ==> noted(s, note, doomed) == s.push(note),
        s.len() == 64 ==> noted(s, note, doomed) == s.remove(doomed).push(note),
{
    let p = same_problem(note);
    lists::first_where_is_first(s, p);
    let at = lists::first_where(s, p);
    if at < s.len() {
        assert(p(s[at]));
    }
}

} // verus!
