//! The coverage label of a match: what a rule covers, in words.
use crate::config::conditions::{Match, MatchView, COVERS_MAX_ATOMS, COVERS_TOKEN_MAX};
use crate::policy;
use crate::policy::COVERS_MAX_CHARS;
use crate::text;
use vstd::prelude::*;

verus! {

/// One user-authored token, bounded for display.
pub open spec fn token_text(s: Seq<char>) -> Seq<char> {
    text::elided(s, COVERS_TOKEN_MAX as nat)
}

/// A token that a reader could compare with their own rule: something printable
/// is left of it once the label is sanitized.
pub open spec fn renders(s: Seq<char>) -> bool {
    let shown = policy::sanitized(s, COVERS_TOKEN_MAX as nat);
    exists|i: int| 0 <= i < shown.len() && policy::graphic(#[trigger] shown[i])
}

/// `a`, `a and b`, `a, b and c`.
pub open spec fn listed_and(parts: Seq<Seq<char>>) -> Seq<char> {
    if parts.len() == 0 {
        Seq::empty()
    } else if parts.len() == 1 {
        parts[0]
    } else {
        text::joined(parts.drop_last(), ", "@) + " and "@ + parts.last()
    }
}

/// How many conditions there are besides the command and the subcommand.
pub open spec fn atoms(m: MatchView) -> nat {
    m.flag_equals.len() + m.flag_present.len() + m.argv_contains.len() + (if m.arg_regex is Some {
        1nat
    } else {
        0nat
    })
}

/// What the label starts with: the command and the subcommand, or that there is
/// none. A command without a name is said in words, so that the label never comes
/// out empty.
pub open spec fn head_text(m: MatchView) -> Seq<char> {
    match (m.command, m.subcommand) {
        (Some(cmd), Some(sub)) => token_text(cmd) + " "@ + token_text(sub),
        (Some(cmd), None) => if cmd.len() == 0 {
            "the empty command"@
        } else {
            token_text(cmd)
        },
        (None, Some(sub)) => "any command with the subcommand "@ + token_text(sub),
        (None, None) => "any command"@,
    }
}

/// How many conditions narrow a rule.
pub open spec fn count_clause(n: nat) -> Seq<char> {
    if n == 1 {
        " with 1 match condition"@
    } else {
        " with "@ + text::decimal(n) + " match conditions"@
    }
}

/// How wide a rule is, and how many conditions narrow it. The count is what
/// survives the bound; the head yields to it.
pub open spec fn summary_text(head: Seq<char>, n: nat) -> Seq<char> {
    let tail = count_clause(n);
    if tail.len() >= COVERS_MAX_CHARS {
        text::trimmed_start(tail)
    } else {
        text::elided(head, (COVERS_MAX_CHARS - tail.len()) as nat) + tail
    }
}

/// The flags of a match: pinned ones with their value in quotes, then those that
/// take any value.
pub open spec fn flag_parts(m: MatchView) -> Seq<Seq<char>> {
    Seq::new(
        m.flag_equals.len(),
        |i: int|
            token_text(m.flag_equals[i].flag) + " \""@ + token_text(m.flag_equals[i].value)
                + "\""@,
    ) + Seq::new(m.flag_present.len(), |i: int| token_text(m.flag_present[i]))
}

/// The needles of a match, each in quotes.
pub open spec fn needle_parts(m: MatchView) -> Seq<Seq<char>> {
    Seq::new(m.argv_contains.len(), |i: int| "\""@ + token_text(m.argv_contains[i]) + "\""@)
}

/// The clauses of a label: the flags, the needles, the pattern.
pub open spec fn clauses(m: MatchView) -> Seq<Seq<char>> {
    (if flag_parts(m).len() > 0 {
        seq!["with "@ + listed_and(flag_parts(m))]
    } else {
        Seq::empty()
    }) + (if needle_parts(m).len() > 0 {
        seq!["containing "@ + listed_and(needle_parts(m))]
    } else {
        Seq::empty()
    }) + (if m.arg_regex is Some {
        seq!["matching a pattern"@]
    } else {
        Seq::empty()
    })
}

/// Every condition listed.
pub open spec fn detailed_text(m: MatchView) -> Seq<char> {
    head_text(m) + " "@ + text::joined(clauses(m), ", "@)
}

/// Every flag, value and needle leaves something for a reader to compare.
pub open spec fn all_render(m: MatchView) -> bool {
    &&& forall|i: int|
        0 <= i < m.flag_equals.len() ==> renders(token_text((#[trigger] m.flag_equals[i]).flag))
            && renders(token_text(m.flag_equals[i].value))
    &&& forall|i: int|
        0 <= i < m.flag_present.len() ==> renders(token_text(#[trigger] m.flag_present[i]))
    &&& forall|i: int|
        0 <= i < m.argv_contains.len() ==> renders(token_text(#[trigger] m.argv_contains[i]))
}

/// The coverage label: the bare head where nothing else is constrained, the list
/// of conditions where it is short and can be shown, and a count otherwise.
pub open spec fn coverage_text(m: MatchView) -> Seq<char> {
    if atoms(m) == 0 {
        head_text(m)
    } else if atoms(m) > COVERS_MAX_ATOMS || !all_render(m) || detailed_text(m).len()
        > COVERS_MAX_CHARS {
        summary_text(head_text(m), atoms(m))
    } else {
        detailed_text(m)
    }
}

fn token(raw: &str) -> (r: String)
    ensures
        r@ == token_text(raw@),
{
    text::elide(raw, COVERS_TOKEN_MAX)
}

/// Whether a display token would carry anything a reader could compare.
pub fn renders_anything(display_token: &str) -> (r: bool)
    ensures
        r == renders(display_token@),
{
    let shown = policy::sanitize_label(display_token, COVERS_TOKEN_MAX);
    let v = text::chars_of(shown.as_str());
    let mut i: usize = 0;
    while i < v.len()
        invariant
            i <= v.len(),
            v@ == policy::sanitized(display_token@, COVERS_TOKEN_MAX as nat),
            forall|k: int| 0 <= k < i ==> !policy::graphic(#[trigger] v@[k]),
        decreases v.len() - i,
    {
        if '!' <= v[i] && v[i] <= '~' {
            assert(policy::graphic(v@[i as int]));
            return true;
        }
        i += 1;
    }
    false
}

/// `a`, `a and b`, `a, b and c`.
pub fn join_and(parts: &[String]) -> (r: String)
    ensures
        r@ == listed_and(text::texts(parts@)),
{
    let ghost t = text::texts(parts@);
    if parts.len() == 0 {
        return String::new();
    }
    if parts.len() == 1 {
        assert(t[0] == parts@[0]@);
        return parts[0].clone();
    }
    let n: usize = parts.len();
    let rest = vstd::slice::slice_subrange(parts, 0, n - 1);
    assert(text::texts(rest@) =~= t.drop_last());
    let mut s = text::join(rest, ", ");
    s.append(" and ");
    s.append(parts[n - 1].as_str());
    s
}

/// How wide a rule is, and how many conditions narrow it.
pub fn summarize(head: &str, n: u128) -> (r: String)
    ensures
        r@ == summary_text(head@, n as nat),
{
    let mut tail = String::new();
    if n == 1 {
        tail.append(" with 1 match condition");
    } else {
        tail.append(" with ");
        text::push_decimal(&mut tail, n);
        tail.append(" match conditions");
    }
    assert(tail@ =~= count_clause(n as nat));
    let len: usize = tail.as_str().unicode_len();
    if len >= COVERS_MAX_CHARS {
        let v = text::chars_of(tail.as_str());
        let from: usize = text::start_trimmed_from(&v, 0);
        assert(v@.skip(0) =~= v@);
        let kept = tail.as_str().substring_char(from, len);
        assert(kept@ =~= v@.skip(from as int));
        return kept.to_owned();
    }
    let mut out = text::elide(head, COVERS_MAX_CHARS - len);
    out.append(tail.as_str());
    out
}

impl Match {
    fn coverage_head(&self) -> (r: String)
        ensures
            r@ == head_text(self@),
    {
        match (&self.command, &self.subcommand) {
            (Some(cmd), Some(sub)) => {
                let mut s = token(cmd.as_str());
                s.append(" ");
                s.append(token(sub.as_str()).as_str());
                s
            },
            (Some(cmd), None) => {
                proof {
                    reveal_strlit("");
                }
                if text::same(cmd.as_str(), "") {
                    "the empty command".to_owned()
                } else {
                    assert(cmd@.len() == 0 ==> cmd@ =~= ""@);
                    token(cmd.as_str())
                }
            },
            (None, Some(sub)) => {
                let mut s = "any command with the subcommand ".to_owned();
                s.append(token(sub.as_str()).as_str());
                s
            },
            (None, None) => "any command".to_owned(),
        }
    }

    fn every_token_renders(&self) -> (r: bool)
        ensures
            r == all_render(self@),
    {
        let ghost m = self@;
        let mut i: usize = 0;
        while i < self.flag_equals.len()
            invariant
                i <= self.flag_equals.len(),
                m == self@,
                forall|k: int|
                    0 <= k < i ==> renders(token_text((#[trigger] m.flag_equals[k]).flag))
                        && renders(token_text(m.flag_equals[k].value)),
            decreases self.flag_equals.len() - i,
        {
            let fe = &self.flag_equals[i];
            assert(m.flag_equals[i as int] == fe@);
            if !renders_anything(token(fe.flag.as_str()).as_str()) || !renders_anything(
                token(fe.value.as_str()).as_str(),
            ) {
                return false;
            }
            i += 1;
        }
        let mut i: usize = 0;
        while i < self.flag_present.len()
            invariant
                i <= self.flag_present.len(),
                m == self@,
                forall|k: int|
                    0 <= k < i ==> renders(token_text(#[trigger] m.flag_present[k])),
            decreases self.flag_present.len() - i,
        {
            assert(m.flag_present[i as int] == self.flag_present@[i as int]@);
            if !renders_anything(token(self.flag_present[i].as_str()).as_str()) {
                return false;
            }
            i += 1;
        }
        let mut i: usize = 0;
        while i < self.argv_contains.len()
            invariant
                i <= self.argv_contains.len(),
                m == self@,
                forall|k: int|
                    0 <= k < i ==> renders(token_text(#[trigger] m.argv_contains[k])),
            decreases self.argv_contains.len() - i,
        {
            assert(m.argv_contains[i as int] == self.argv_contains@[i as int]@);
            if !renders_anything(token(self.argv_contains[i].as_str()).as_str()) {
                return false;
            }
            i += 1;
        }
        true
    }

    fn coverage_flags(&self) -> (r: Vec<String>)
        ensures
            text::texts(r@) == flag_parts(self@),
    {
        let ghost all = flag_parts(self@);
        let mut out: Vec<String> = Vec::new();
        let mut i: usize = 0;
        while i < self.flag_equals.len()
            invariant
                i <= self.flag_equals.len(),
                all == flag_parts(self@),
                out.len() == i,
                forall|k: int| 0 <= k < i ==> (#[trigger] out@[k])@ == all[k],
            decreases self.flag_equals.len() - i,
        {
            let fe = &self.flag_equals[i];
            let mut s = token(fe.flag.as_str());
            s.append(" \"");
            s.append(token(fe.value.as_str()).as_str());
            s.append("\"");
            assert(self@.flag_equals[i as int] == fe@);
            assert(s@ == all[i as int]);
            out.push(s);
            i += 1;
        }
        let ghost n = self.flag_equals.len() as int;
        let mut j: usize = 0;
        while j < self.flag_present.len()
            invariant
                j <= self.flag_present.len(),
                n == self.flag_equals.len(),
                all == flag_parts(self@),
                out.len() == n + j,
                forall|k: int| 0 <= k < n + j ==> (#[trigger] out@[k])@ == all[k],
            decreases self.flag_present.len() - j,
        {
            let s = token(self.flag_present[j].as_str());
            assert(self@.flag_present[j as int] == self.flag_present@[j as int]@);
            assert(s@ == all[n + j]);
            out.push(s);
            j += 1;
        }
        assert(text::texts(out@) =~= all);
        out
    }

    fn coverage_needles(&self) -> (r: Vec<String>)
        ensures
            text::texts(r@) == needle_parts(self@),
    {
        let mut out: Vec<String> = Vec::new();
        let mut i: usize = 0;
        while i < self.argv_contains.len()
            invariant
                i <= self.argv_contains.len(),
                out.len() == i,
                forall|k: int| 0 <= k < i ==> (#[trigger] out@[k])@ == needle_parts(self@)[k],
            decreases self.argv_contains.len() - i,
        {
            let mut s = "\"".to_owned();
            s.append(token(self.argv_contains[i].as_str()).as_str());
            s.append("\"");
            assert(self@.argv_contains[i as int] == self.argv_contains@[i as int]@);
            out.push(s);
            i += 1;
        }
        assert(text::texts(out@) =~= needle_parts(self@));
        out
    }

    /// The coverage label: a short, factual, display-only description of
    /// everything the rule matches. It is built only from the rule's own
    /// conditions, it is bounded, and where it cannot list every condition it
    /// states how many there are.
    pub fn coverage(&self) -> (r: String)
        ensures
            r@ == coverage_text(self@),
    {
        let head = self.coverage_head();
        let n: u128 = self.flag_equals.len() as u128 + self.flag_present.len() as u128
            + self.argv_contains.len() as u128 + (if self.arg_regex.is_some() {
            1u128
        } else {
            0u128
        });
        assert(n == atoms(self@));
        if n == 0 {
            return head;
        }
        if n > COVERS_MAX_ATOMS as u128 {
            return summarize(head.as_str(), n);
        }
        if !self.every_token_renders() {
            return summarize(head.as_str(), n);
        }
        let flags = self.coverage_flags();
        let needles = self.coverage_needles();
        let mut parts: Vec<String> = Vec::new();
        if flags.len() > 0 {
            let mut s = "with ".to_owned();
            s.append(join_and(flags.as_slice()).as_str());
            parts.push(s);
        }
        assert(text::texts(flags@).len() == flags.len());
        assert(text::texts(needles@).len() == needles.len());
        let ghost first = text::texts(parts@);
        assert(first =~= (if flag_parts(self@).len() > 0 {
            seq!["with "@ + listed_and(flag_parts(self@))]
        } else {
            Seq::empty()
        }));
        if needles.len() > 0 {
            let mut s = "containing ".to_owned();
            s.append(join_and(needles.as_slice()).as_str());
            let ghost shown = s@;
            parts.push(s);
            assert(text::texts(parts@) =~= first.push(shown));
        }
        let ghost second = text::texts(parts@);
        if self.arg_regex.is_some() {
            parts.push("matching a pattern".to_owned());
            assert(text::texts(parts@) =~= second.push("matching a pattern"@));
        }
        assert(text::texts(parts@) =~= clauses(self@));
        let mut detailed = head.clone();
        detailed.append(" ");
        detailed.append(text::join(parts.as_slice(), ", ").as_str());
        assert(detailed@ =~= detailed_text(self@));
        if detailed.as_str().unicode_len() > COVERS_MAX_CHARS {
            return summarize(head.as_str(), n);
        }
        detailed
    }
}

proof fn count_clause_is_short(n: nat)
    requires
        n <= u64::MAX,
    ensures
        0 < count_clause(n).len() < COVERS_MAX_CHARS,
{
    reveal_strlit(" with 1 match condition");
    reveal_strlit(" with ");
    reveal_strlit(" match conditions");
    text::decimal_of_u64_is_short(n);
}

/// A coverage label never passes its bound.
pub proof fn coverage_is_bounded(m: MatchView)
    requires
        atoms(m) <= u64::MAX,
    ensures
        coverage_text(m).len() <= COVERS_MAX_CHARS,
{
    let n = atoms(m);
    if n == 0 {
        reveal_strlit(" ");
        reveal_strlit("any command");
        reveal_strlit("the empty command");
        reveal_strlit("any command with the subcommand ");
        if m.command is Some {
            text::elided_is_bounded(m.command->0, COVERS_TOKEN_MAX as nat);
        }
        if m.subcommand is Some {
            text::elided_is_bounded(m.subcommand->0, COVERS_TOKEN_MAX as nat);
        }
    } else {
        count_clause_is_short(n);
        text::elided_is_bounded(
            head_text(m),
            (COVERS_MAX_CHARS - count_clause(n).len()) as nat,
        );
    }
}

/// A coverage label is never empty.
pub proof fn coverage_is_never_empty(m: MatchView)
    requires
        atoms(m) <= u64::MAX,
    ensures
        coverage_text(m).len() > 0,
{
    reveal_strlit(" ");
    reveal_strlit("any command");
    reveal_strlit("the empty command");
    reveal_strlit("any command with the subcommand ");
    if atoms(m) > 0 {
        count_clause_is_short(atoms(m));
    }
}

/// Where a rule has too many conditions to list, or one that cannot be shown, the
/// label ends in how many there are, whole.
pub proof fn the_count_survives_the_bound(m: MatchView)
    requires
        0 < atoms(m) <= u64::MAX,
        atoms(m) > COVERS_MAX_ATOMS || !all_render(m),
    ensures
        count_clause(atoms(m)).is_suffix_of(coverage_text(m)),
{
    count_clause_is_short(atoms(m));
    let tail = count_clause(atoms(m));
    let c = coverage_text(m);
    assert(c.subrange(c.len() - tail.len(), c.len() as int) =~= tail);
}

/// A label that fits says everything that narrows the rule: the command and the
/// subcommand, every flag, every pinned value and every needle, each of them whole
/// where it is no longer than a token may be.
pub proof fn a_short_label_lists_every_condition(m: MatchView, x: Seq<char>)
    requires
        atoms(m) <= COVERS_MAX_ATOMS,
        atoms(m) > 0 ==> all_render(m) && detailed_text(m).len() <= COVERS_MAX_CHARS,
        0 < x.len() <= COVERS_TOKEN_MAX,
        m.command == Some(x) || m.subcommand == Some(x) || (exists|i: int|
            0 <= i < m.flag_equals.len() && ((#[trigger] m.flag_equals[i]).flag == x
                || m.flag_equals[i].value == x)) || m.flag_present.contains(x)
            || m.argv_contains.contains(x),
    ensures
        text::occurs_in(coverage_text(m), x),
{
    broadcast use text::parts_stand_in;

    if m.command == Some(x) || m.subcommand == Some(x) {
        assert(text::occurs_in(head_text(m), x)) by {
            text::stands_in_itself(x);
            text::stands_in_itself(token_text(m.command->0));
        }
        if atoms(m) > 0 {
            assert(text::occurs_in(detailed_text(m), x));
        }
    } else if m.argv_contains.contains(x) {
        let i = m.argv_contains.index_of(x);
        let part = needle_parts(m)[i];
        assert(text::occurs_in(part, x));
        a_listed_part_stands(needle_parts(m), i);
        a_clause_stands_in_the_label(m, needle_parts(m), part);
        text::stands_within(detailed_text(m), part, x);
    } else if m.flag_present.contains(x) {
        let i = m.flag_present.index_of(x);
        let at = m.flag_equals.len() + i;
        assert(flag_parts(m)[at] == x);
        a_listed_part_stands(flag_parts(m), at);
        a_clause_stands_in_the_label(m, flag_parts(m), x);
    } else {
        let i = choose|i: int|
            0 <= i < m.flag_equals.len() && ((#[trigger] m.flag_equals[i]).flag == x
                || m.flag_equals[i].value == x);
        let part = flag_parts(m)[i];
        assert(part == token_text(m.flag_equals[i].flag) + " \""@ + token_text(
            m.flag_equals[i].value,
        ) + "\""@);
        text::stands_in_itself(x);
        assert(text::occurs_in(part, x));
        a_listed_part_stands(flag_parts(m), i);
        a_clause_stands_in_the_label(m, flag_parts(m), part);
        text::stands_within(detailed_text(m), part, x);
    }
}

proof fn a_listed_part_stands(parts: Seq<Seq<char>>, i: int)
    requires
        0 <= i < parts.len(),
    ensures
        text::occurs_in(listed_and(parts), parts[i]),
{
    broadcast use text::parts_stand_in;

    if parts.len() == 1 {
        text::stands_in_itself(parts[0]);
    } else if i < parts.len() - 1 {
        text::a_part_stands_in_the_join(parts.drop_last(), ", "@, i);
        assert(parts.drop_last()[i] == parts[i]);
    }
}

proof fn a_clause_stands_in_the_label(m: MatchView, parts: Seq<Seq<char>>, x: Seq<char>)
    requires
        parts == flag_parts(m) || parts == needle_parts(m),
        parts.len() > 0,
        text::occurs_in(listed_and(parts), x),
    ensures
        text::occurs_in(detailed_text(m), x),
{
    broadcast use text::parts_stand_in;

    let all = clauses(m);
    let at: int = if parts == flag_parts(m) {
        0
    } else if flag_parts(m).len() > 0 {
        1
    } else {
        0
    };
    assert(text::occurs_in(all[at], listed_and(parts)));
    text::stands_within(all[at], listed_and(parts), x);
    text::a_part_stands_in_the_join(all, ", "@, at);
    text::stands_within(text::joined(all, ", "@), all[at], x);
    text::stands_within(detailed_text(m), text::joined(all, ", "@), x);
}

/// A label that does not fit says how many conditions there are, and the number is
/// that of all of them: flags with and without a value, needles, and the pattern.
pub proof fn a_long_label_counts_every_condition(m: MatchView, n: nat)
    requires
        n == m.flag_equals.len() + m.flag_present.len() + m.argv_contains.len() + (
        if m.arg_regex is Some {
            1nat
        } else {
            0nat
        }),
        1 < n <= u64::MAX,
        n > 3 || detailed_text(m).len() > 72 || !all_render(m),
    ensures
        text::occurs_in(coverage_text(m), text::decimal(n)),
{
    broadcast use text::parts_stand_in;

    count_clause_is_short(n);
    let tail = count_clause(n);
    assert(text::occurs_in(tail, text::decimal(n)));
    text::stands_within(coverage_text(m), tail, text::decimal(n));
}

/// A rule that narrows nothing but the command says the command, and one without a
/// command says so.
pub proof fn a_bare_label_is_the_command(m: MatchView)
    requires
        m.flag_equals.len() == 0,
        m.flag_present.len() == 0,
        m.argv_contains.len() == 0,
        m.arg_regex is None,
    ensures
        m.subcommand is None && m.command is Some && 0 < m.command->0.len() <= COVERS_TOKEN_MAX
            ==> coverage_text(m) == m.command->0,
        m.subcommand is None && m.command is None ==> coverage_text(m) == "any command"@,
        m.subcommand is Some && m.command is None ==> text::occurs_in(
            coverage_text(m),
            "any command"@,
        ),
{
    if m.subcommand is Some && m.command is None {
        reveal_strlit("any command with the subcommand ");
        reveal_strlit("any command");
        let c = coverage_text(m);
        assert(c.subrange(0, 11) =~= "any command"@);
        assert(text::occurs_at(c, "any command"@, 0));
    }
}

/// A label lists up to three conditions, and is never longer than seventy-two
/// characters.
pub proof fn a_label_lists_up_to_three(m: MatchView)
    requires
        atoms(m) <= u64::MAX,
    ensures
        coverage_text(m).len() <= 72,
        0 < atoms(m) <= 3 && all_render(m) && detailed_text(m).len() <= 72 ==> coverage_text(m)
            == detailed_text(m),
        atoms(m) > 3 ==> count_clause(atoms(m)).is_suffix_of(coverage_text(m)),
{
    coverage_is_bounded(m);
    if atoms(m) > 3 {
        the_count_survives_the_bound(m);
    }
}

} // verus!
