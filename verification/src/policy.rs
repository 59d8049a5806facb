//! Lease policies, and the labels that a consent surface shows.
use crate::text;
use vstd::prelude::*;

verus! {

/// The longest a coverage label may be, in characters.
pub const COVERS_MAX_CHARS: usize = 72;

/// `String::push`: the character joins the end of the text.
pub assume_specification[ String::push ](s: &mut String, c: char)
    ensures
        final(s)@ == old(s)@.push(c),
;

/// A printable ASCII character other than the space.
pub open spec fn graphic(c: char) -> bool {
    0x21 <= c as int <= 0x7e
}

/// A label character by character: printable ASCII and the elision mark stay,
/// white space becomes one space and none at the start, and each stretch of
/// anything else becomes one replacement mark.
pub open spec fn reduced(s: Seq<char>) -> Seq<char>
    decreases s.len(),
{
    if s.len() == 0 {
        s
    } else {
        let out = reduced(s.drop_last());
        let c = s.last();
        if graphic(c) || c == '\u{2026}' {
            out.push(c)
        } else if text::white(c) {
            if out.len() == 0 || out.last() == ' ' {
                out
            } else {
                out.push(' ')
            }
        } else if out.len() > 0 && out.last() == '\u{fffd}' {
            out
        } else {
            out.push('\u{fffd}')
        }
    }
}

/// A label as a consent surface shows it: reduced, without white space at its
/// end, and cut to `max` characters.
pub open spec fn sanitized(s: Seq<char>, max: nat) -> Seq<char> {
    text::elided(text::trimmed_end(reduced(s)), max)
}

/// A character that a consent surface may show.
pub open spec fn showable(c: char) -> bool {
    graphic(c) || c == ' ' || c == '\u{2026}' || c == '\u{fffd}'
}

/// Reduce a label to what a consent surface shows, at most `max` characters.
pub fn sanitize_label(raw: &str, max: usize) -> (r: String)
    ensures
        r@ == sanitized(raw@, max as nat),
{
    let v = text::chars_of(raw);
    let mut out = String::new();
    let mut last: char = ' ';
    let mut n: usize = 0;
    let mut i: usize = 0;
    assert(reduced(v@.take(0)) =~= Seq::empty());
    while i < v.len()
        invariant
            i <= v.len(),
            n <= i,
            out@ == reduced(v@.take(i as int)),
            n == out@.len(),
            n > 0 ==> last == out@.last(),
        decreases v.len() - i,
    {
        let c: char = v[i];
        assert(v@.take(i + 1).drop_last() =~= v@.take(i as int));
        if ('!' <= c && c <= '~') || c == '\u{2026}' {
            out.push(c);
            last = c;
            n += 1;
        } else if text::is_white(c) {
            if n > 0 && last != ' ' {
                out.push(' ');
                last = ' ';
                n += 1;
            }
        } else if !(n > 0 && last == '\u{fffd}') {
            out.push('\u{fffd}');
            last = '\u{fffd}';
            n += 1;
        }
        i += 1;
    }
    assert(v@.take(i as int) =~= v@);
    let w = text::chars_of(out.as_str());
    let keep: usize = text::end_trimmed_len(&w);
    let kept = out.as_str().substring_char(0, keep);
    assert(kept@ =~= w@.take(keep as int));
    text::elide(kept, max)
}

/// A sanitized label holds nothing but printable ASCII, spaces and the two
/// marks, and keeps its bound: nothing in it can reorder or hide the caption it
/// rides in.
pub proof fn a_sanitized_label_is_showable(s: Seq<char>, max: nat)
    requires
        max > 0,
    ensures
        sanitized(s, max).len() <= max,
        forall|i: int|
            0 <= i < sanitized(s, max).len() ==> showable(#[trigger] sanitized(s, max)[i]),
{
    reduced_is_showable(s);
    let r = reduced(s);
    let t = text::trimmed_end(r);
    text::trimmed_end_is_shorter(r);
    assert forall|i: int| 0 <= i < t.len() implies showable(#[trigger] t[i]) by {
        assert(t[i] == r[i]);
    }
    text::elided_is_bounded(t, max);
    if t.len() > max {
        let cut = t.take(max - 1);
        text::trimmed_end_is_shorter(cut);
        let u = text::trimmed_end(cut);
        assert forall|i: int| 0 <= i < u.len() implies showable(#[trigger] u[i]) by {
            assert(u[i] == cut[i]);
            assert(cut[i] == t[i]);
        }
    }
}

proof fn reduced_is_showable(s: Seq<char>)
    ensures
        forall|i: int| 0 <= i < reduced(s).len() ==> showable(#[trigger] reduced(s)[i]),
    decreases s.len(),
{
    if s.len() > 0 {
        reduced_is_showable(s.drop_last());
        let out = reduced(s.drop_last());
        assert forall|i: int| 0 <= i < reduced(s).len() implies showable(
            #[trigger] reduced(s)[i],
        ) by {
            if i < out.len() {
                assert(showable(out[i]));
            }
        }
    }
}

/// Whether an approval may also open an auto-approve window, and for how long at
/// most. The label says what the window covers.
#[derive(Debug, Clone, PartialEq, Eq)]
pub enum LeasePolicy {
    /// Every run is approved on its own.
    RunOnce,
    /// An approval may open a window of up to `max_secs` seconds.
    Leasable { max_secs: u32, covers: String },
}

/// A lease policy as plain values.
#[verifier::ext_equal]
pub enum PolicyView {
    RunOnce,
    Leasable { max_secs: u32, covers: Seq<char> },
}

impl View for LeasePolicy {
    type V = PolicyView;

    open spec fn view(&self) -> PolicyView {
        match self {
            LeasePolicy::RunOnce => PolicyView::RunOnce,
            LeasePolicy::Leasable { max_secs, covers } => PolicyView::Leasable {
                max_secs: *max_secs,
                covers: covers@,
            },
        }
    }
}

impl PolicyView {
    /// The policy with the label `label`; a run-once policy carries none.
    pub open spec fn with_covers(self, label: Seq<char>) -> PolicyView {
        match self {
            PolicyView::RunOnce => PolicyView::RunOnce,
            PolicyView::Leasable { max_secs, covers } => PolicyView::Leasable {
                max_secs,
                covers: sanitized(label, COVERS_MAX_CHARS as nat),
            },
        }
    }

    /// The label; empty where there is none.
    pub open spec fn covers(self) -> Seq<char> {
        match self {
            PolicyView::RunOnce => Seq::empty(),
            PolicyView::Leasable { max_secs, covers } => covers,
        }
    }

    /// How long a window may be where `secs` is asked for.
    pub open spec fn clamp_secs(self, secs: u32) -> Option<u32> {
        match self {
            PolicyView::RunOnce => None,
            PolicyView::Leasable { max_secs, covers } => Some(
                if secs < max_secs {
                    secs
                } else {
                    max_secs
                },
            ),
        }
    }
}

impl LeasePolicy {
    /// A leasable policy without a label.
    pub fn leasable(max_secs: u32) -> (r: LeasePolicy)
        ensures
            r@ == (PolicyView::Leasable { max_secs, covers: Seq::empty() }),
    {
        LeasePolicy::Leasable { max_secs, covers: String::new() }
    }

    /// This policy with `label` as its coverage label, reduced to what a consent
    /// surface shows. A run-once policy opens no window and carries no label.
    pub fn with_covers(self, label: &str) -> (r: LeasePolicy)
        ensures
            r@ == self@.with_covers(label@),
    {
        match self {
            LeasePolicy::RunOnce => LeasePolicy::RunOnce,
            LeasePolicy::Leasable { max_secs, covers } => LeasePolicy::Leasable {
                max_secs,
                covers: sanitize_label(label, COVERS_MAX_CHARS),
            },
        }
    }

    /// The coverage label; empty where there is none.
    pub fn covers(&self) -> (r: &str)
        ensures
            r@ == self@.covers(),
    {
        match self {
            LeasePolicy::RunOnce => {
                proof {
                    reveal_strlit("");
                }
                assert(""@ =~= Seq::<char>::empty());
                ""
            },
            LeasePolicy::Leasable { max_secs, covers } => covers.as_str(),
        }
    }

    /// Whether no approval under this policy opens a window.
    pub fn is_run_once(&self) -> (r: bool)
        ensures
            r == (self@ is RunOnce),
    {
        matches!(self, LeasePolicy::RunOnce)
    }

    /// Whether an approval under this policy may open a window.
    pub fn is_leasable(&self) -> (r: bool)
        ensures
            r == (self@ is Leasable),
    {
        matches!(self, LeasePolicy::Leasable { .. })
    }

    /// How many seconds a window may last where `secs` is asked for: never more
    /// than the cap, and `None` where no window may open.
    pub fn clamp_secs(&self, secs: u32) -> (r: Option<u32>)
        ensures
            r == self@.clamp_secs(secs),
    {
        match self {
            LeasePolicy::RunOnce => None,
            LeasePolicy::Leasable { max_secs, covers } => {
                if secs < *max_secs {
                    Some(secs)
                } else {
                    Some(*max_secs)
                }
            },
        }
    }

    /// Whether two policies are the same.
    pub fn same(&self, other: &LeasePolicy) -> (r: bool)
        ensures
            r == (self@ == other@),
    {
        match (self, other) {
            (LeasePolicy::RunOnce, LeasePolicy::RunOnce) => true,
            (
                LeasePolicy::Leasable { max_secs: a, covers: b },
                LeasePolicy::Leasable { max_secs: c, covers: d },
            ) => *a == *c && *b == *d,
            _ => false,
        }
    }

    /// Another policy of the same values.
    pub fn duplicate(&self) -> (r: LeasePolicy)
        ensures
            r@ == self@,
    {
        match self {
            LeasePolicy::RunOnce => LeasePolicy::RunOnce,
            LeasePolicy::Leasable { max_secs, covers } => LeasePolicy::Leasable {
                max_secs: *max_secs,
                covers: covers.clone(),
            },
        }
    }
}

/// A window is never longer than what was asked for, nor than the cap, and it is
/// one of the two; only a policy that may be leased opens one.
pub proof fn a_window_keeps_the_cap(p: PolicyView, secs: u32)
    ensures
        p is RunOnce <==> p.clamp_secs(secs) is None,
        p matches PolicyView::Leasable { max_secs, .. } ==> (p.clamp_secs(secs) matches Some(n)
            && n <= secs && n <= max_secs && (n == secs || n == max_secs)),
{
}

/// A label says what a window covers, and changes neither whether one may open nor
/// for how long.
pub proof fn a_label_changes_no_window(p: PolicyView, label: Seq<char>, secs: u32)
    ensures
        p.with_covers(label) is RunOnce <==> p is RunOnce,
        p.with_covers(label).clamp_secs(secs) == p.clamp_secs(secs),
        p is RunOnce ==> p.with_covers(label).covers().len() == 0,
        p is Leasable && tidy(label) && label.len() <= COVERS_MAX_CHARS ==> p.with_covers(
            label,
        ).covers() == label,
{
    if tidy(label) && label.len() <= COVERS_MAX_CHARS {
        a_tidy_label_is_shown_as_it_is(label, COVERS_MAX_CHARS as nat);
    }
}

/// A label that needs no reduction: nothing but printable ASCII, the elision mark
/// and single spaces between other characters.
pub open spec fn tidy(s: Seq<char>) -> bool {
    &&& forall|i: int|
        0 <= i < s.len() ==> 0x20 <= #[trigger] s[i] as int <= 0x7e || s[i] == '\u{2026}'
    &&& forall|i: int|
        0 <= i < s.len() && #[trigger] s[i] == ' ' ==> 0 < i && i + 1 < s.len() && s[i - 1] != ' '
}

/// A label that needs no reduction and is not too long is shown as it is.
pub proof fn a_tidy_label_is_shown_as_it_is(s: Seq<char>, max: nat)
    requires
        tidy(s),
        s.len() <= max,
    ensures
        sanitized(s, max) == s,
{
    tidy_start_stays(s, s.len() as int);
    assert(s.take(s.len() as int) =~= s);
    if s.len() > 0 {
        assert(s[s.len() - 1] != ' ');
    }
}

proof fn tidy_start_stays(s: Seq<char>, n: int)
    requires
        tidy(s),
        0 <= n <= s.len(),
    ensures
        reduced(s.take(n)) == s.take(n),
    decreases n,
{
    if n > 0 {
        tidy_start_stays(s, n - 1);
        assert(s.take(n).drop_last() =~= s.take(n - 1));
        assert(s.take(n) =~= s.take(n - 1).push(s[n - 1]));
        if s[n - 1] == ' ' {
            assert(s[n - 2] != ' ');
        }
    }
}

/// Reduction loses no character that a reader can see, and none comes out of
/// order.
pub proof fn reduction_keeps_what_is_printable(s: Seq<char>)
    ensures
        reduced(s).filter(|c: char| 0x21 <= c as int <= 0x7e) == s.filter(
            |c: char| 0x21 <= c as int <= 0x7e,
        ),
    decreases s.len(),
{
    let p = |c: char| 0x21 <= c as int <= 0x7e;
    if s.len() > 0 {
        reduction_keeps_what_is_printable(s.drop_last());
        let out = reduced(s.drop_last());
        assert(s =~= s.drop_last().push(s.last()));
        reveal(Seq::filter);
        if reduced(s) != out {
            assert(reduced(s).drop_last() =~= out);
        }
    } else {
        assert(reduced(s) =~= s);
    }
}

/// What a reader cannot see leaves a mark: a label with a character that is neither
/// printable nor white space is never shown as one without.
pub proof fn a_hidden_character_leaves_a_mark(s: Seq<char>, i: int)
    requires
        0 <= i < s.len(),
        !(0x21 <= s[i] as int <= 0x7e),
        s[i] != '\u{2026}',
        !text::white(s[i]),
    ensures
        reduced(s).contains('\u{fffd}'),
    decreases s.len(),
{
    let out = reduced(s.drop_last());
    if i < s.len() - 1 {
        a_hidden_character_leaves_a_mark(s.drop_last(), i);
        let k = choose|k: int| 0 <= k < out.len() && out[k] == '\u{fffd}';
        assert(reduced(s)[k] == '\u{fffd}');
    } else {
        assert(reduced(s)[reduced(s).len() - 1] == '\u{fffd}');
    }
}

} // verus!
