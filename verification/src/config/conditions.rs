//! The conditions of a rule: what an invocation must look like, and how that is
//! said in words.
use crate::lists;
use crate::text;
use vstd::prelude::*;

verus! {

/// Above this many conditions a coverage label states a count instead of a list.
pub const COVERS_MAX_ATOMS: usize = 3;

/// The longest that one command, flag, value or needle may run inside a coverage
/// label before it is elided.
pub const COVERS_TOKEN_MAX: usize = 28;

/// One equality condition, such as `--project=prod`.
#[derive(Debug, Clone, PartialEq, Eq)]
pub struct FlagEq {
    pub flag: String,
    pub value: String,
}

/// An equality condition as plain values.
#[verifier::ext_equal]
pub struct FlagEqView {
    pub flag: Seq<char>,
    pub value: Seq<char>,
}

impl View for FlagEq {
    type V = FlagEqView;

    open spec fn view(&self) -> FlagEqView {
        FlagEqView { flag: self.flag@, value: self.value@ }
    }
}

/// The plain values of a list of equality conditions.
pub open spec fn flag_eqs(v: Seq<FlagEq>) -> Seq<FlagEqView> {
    Seq::new(v.len(), |i: int| v[i]@)
}

/// Conditions on an invoked command and its arguments. All that are present must
/// hold. A match with no conditions never matches.
#[derive(Debug, Clone, PartialEq, Eq)]
pub struct Match {
    /// The command equals this.
    pub command: Option<String>,
    /// The first argument equals this.
    pub subcommand: Option<String>,
    /// Each of these is a substring of some token.
    pub argv_contains: Vec<String>,
    /// Each of these flags is present, as `--flag` or `--flag=…`.
    pub flag_present: Vec<String>,
    /// Each of these flags has this value, as `--flag=value` or `--flag value`.
    pub flag_equals: Vec<FlagEq>,
    /// A pattern over the arguments. It is not evaluated: a match that sets it
    /// never matches.
    pub arg_regex: Option<String>,
}

/// Conditions as plain values.
#[verifier::ext_equal]
pub struct MatchView {
    pub command: Option<Seq<char>>,
    pub subcommand: Option<Seq<char>>,
    pub argv_contains: Seq<Seq<char>>,
    pub flag_present: Seq<Seq<char>>,
    pub flag_equals: Seq<FlagEqView>,
    pub arg_regex: Option<Seq<char>>,
}

impl View for Match {
    type V = MatchView;

    open spec fn view(&self) -> MatchView {
        MatchView {
            command: text::maybe_text(self.command),
            subcommand: text::maybe_text(self.subcommand),
            argv_contains: text::texts(self.argv_contains@),
            flag_present: text::texts(self.flag_present@),
            flag_equals: flag_eqs(self.flag_equals@),
            arg_regex: text::maybe_text(self.arg_regex),
        }
    }
}

impl Default for Match {
    /// No conditions at all.
    fn default() -> (r: Match)
        ensures
            r@ == no_conditions(),
    {
        let r = Match {
            command: None,
            subcommand: None,
            argv_contains: Vec::new(),
            flag_present: Vec::new(),
            flag_equals: Vec::new(),
            arg_regex: None,
        };
        assert(r@ =~= no_conditions());
        r
    }
}

/// A match without conditions.
pub open spec fn no_conditions() -> MatchView {
    MatchView {
        command: None,
        subcommand: None,
        argv_contains: Seq::empty(),
        flag_present: Seq::empty(),
        flag_equals: Seq::empty(),
        arg_regex: None,
    }
}

/// `flag` appears among the tokens, alone or with a value behind an equals sign.
pub open spec fn has_flag(argv: Seq<Seq<char>>, flag: Seq<char>) -> bool {
    exists|i: int|
        0 <= i < argv.len() && (#[trigger] argv[i] == flag || (flag + "="@).is_prefix_of(argv[i]))
}

/// The token at `i` gives `flag` the value `value`, in itself or with the token
/// behind it.
pub open spec fn sets_flag_at(
    argv: Seq<Seq<char>>,
    flag: Seq<char>,
    value: Seq<char>,
    i: int,
) -> bool {
    argv[i] == flag + "="@ + value || (argv[i] == flag && i + 1 < argv.len() && argv[i + 1]
        == value)
}

/// `flag` appears among the tokens with the value `value`.
pub open spec fn sets_flag(argv: Seq<Seq<char>>, flag: Seq<char>, value: Seq<char>) -> bool {
    exists|i: int| 0 <= i < argv.len() && #[trigger] sets_flag_at(argv, flag, value, i)
}

/// Some token contains `needle`.
pub open spec fn some_token_contains(argv: Seq<Seq<char>>, needle: Seq<char>) -> bool {
    exists|i: int| 0 <= i < argv.len() && text::occurs_in(#[trigger] argv[i], needle)
}

/// The conditions hold of an invocation: there is at least one, each holds, and
/// none is a pattern.
pub open spec fn holds(m: MatchView, argv: Seq<Seq<char>>) -> bool {
    &&& m != no_conditions()
    &&& m.command is Some ==> argv.len() > 0 && argv[0] == m.command->0
    &&& m.subcommand is Some ==> argv.len() > 1 && argv[1] == m.subcommand->0
    &&& forall|i: int|
        0 <= i < m.argv_contains.len() ==> some_token_contains(argv, #[trigger] m.argv_contains[i])
    &&& forall|i: int|
        0 <= i < m.flag_present.len() ==> has_flag(argv, #[trigger] m.flag_present[i])
    &&& forall|i: int|
        0 <= i < m.flag_equals.len() ==> sets_flag(
            argv,
            (#[trigger] m.flag_equals[i]).flag,
            m.flag_equals[i].value,
        )
    &&& m.arg_regex is None
}

/// Whether `flag` appears among the tokens, alone or with a value behind an
/// equals sign.
pub fn flag_present(argv: &[String], flag: &str) -> (r: bool)
    ensures
        r == has_flag(text::texts(argv@), flag@),
{
    let mut eq = flag.to_owned();
    eq.append("=");
    let mut i: usize = 0;
    while i < argv.len()
        invariant
            i <= argv.len(),
            eq@ == flag@ + "="@,
            forall|k: int|
                0 <= k < i ==> !(#[trigger] text::texts(argv@)[k] == flag@ || (flag@
                    + "="@).is_prefix_of(text::texts(argv@)[k])),
        decreases argv.len() - i,
    {
        let a = argv[i].as_str();
        if text::same(a, flag) || text::starts_with(a, eq.as_str()) {
            assert(text::texts(argv@)[i as int] == a@);
            return true;
        }
        i += 1;
    }
    false
}

/// Whether `flag` appears among the tokens with the value `value`.
pub fn flag_equals(argv: &[String], flag: &str, value: &str) -> (r: bool)
    ensures
        r == sets_flag(text::texts(argv@), flag@, value@),
{
    let mut eq = flag.to_owned();
    eq.append("=");
    eq.append(value);
    let ghost t = text::texts(argv@);
    let mut i: usize = 0;
    while i < argv.len()
        invariant
            i <= argv.len(),
            t == text::texts(argv@),
            eq@ == flag@ + "="@ + value@,
            forall|k: int| 0 <= k < i ==> !(#[trigger] sets_flag_at(t, flag@, value@, k)),
        decreases argv.len() - i,
    {
        let a = argv[i].as_str();
        assert(t[i as int] == a@);
        if text::same(a, eq.as_str()) {
            assert(sets_flag_at(t, flag@, value@, i as int));
            return true;
        }
        if i + 1 < argv.len() && text::same(a, flag) && text::same(argv[i + 1].as_str(), value) {
            assert(t[i + 1] == value@);
            assert(sets_flag_at(t, flag@, value@, i as int));
            return true;
        }
        assert(!sets_flag_at(t, flag@, value@, i as int));
        i += 1;
    }
    false
}

fn token_contains(argv: &[String], needle: &str) -> (r: bool)
    ensures
        r == some_token_contains(text::texts(argv@), needle@),
{
    let mut i: usize = 0;
    while i < argv.len()
        invariant
            i <= argv.len(),
            forall|k: int|
                0 <= k < i ==> !text::occurs_in(#[trigger] text::texts(argv@)[k], needle@),
        decreases argv.len() - i,
    {
        if text::contains(argv[i].as_str(), needle) {
            assert(text::occurs_in(text::texts(argv@)[i as int], needle@));
            return true;
        }
        i += 1;
    }
    false
}

/// The flags of a match that can never match anything: those written without a
/// leading dash.
pub open spec fn dead(m: MatchView) -> Seq<Seq<char>> {
    (m.flag_present + Seq::new(m.flag_equals.len(), |i: int| m.flag_equals[i].flag)).filter(
        |f: Seq<char>| !(f.len() > 0 && f[0] == '-'),
    )
}

impl Match {
    /// Whether this match carries no conditions at all.
    pub fn is_empty(&self) -> (r: bool)
        ensures
            r == (self@ == no_conditions()),
    {
        let r = self.command.is_none() && self.subcommand.is_none() && self.argv_contains.len() == 0
            && self.flag_present.len() == 0 && self.flag_equals.len() == 0
            && self.arg_regex.is_none();
        if r {
            assert(self@ =~= no_conditions());
        } else {
            assert(self@.argv_contains.len() == self.argv_contains.len());
            assert(self@.flag_present.len() == self.flag_present.len());
            assert(self@.flag_equals.len() == self.flag_equals.len());
        }
        r
    }

    /// Whether every present condition holds for `argv`. A match without
    /// conditions never matches, and neither does one with a pattern.
    pub fn matches(&self, argv: &[String]) -> (r: bool)
        ensures
            r == holds(self@, text::texts(argv@)),
    {
        let ghost t = text::texts(argv@);
        if self.is_empty() {
            return false;
        }
        if let Some(cmd) = &self.command {
            if argv.len() == 0 || argv[0] != *cmd {
                return false;
            }
        }
        if let Some(sub) = &self.subcommand {
            if argv.len() <= 1 || argv[1] != *sub {
                return false;
            }
        }
        let mut i: usize = 0;
        while i < self.argv_contains.len()
            invariant
                i <= self.argv_contains.len(),
                t == text::texts(argv@),
                forall|k: int|
                    0 <= k < i ==> some_token_contains(t, #[trigger] self@.argv_contains[k]),
            decreases self.argv_contains.len() - i,
        {
            if !token_contains(argv, self.argv_contains[i].as_str()) {
                assert(!some_token_contains(t, self@.argv_contains[i as int]));
                return false;
            }
            i += 1;
        }
        let mut i: usize = 0;
        while i < self.flag_present.len()
            invariant
                i <= self.flag_present.len(),
                t == text::texts(argv@),
                forall|k: int| 0 <= k < i ==> has_flag(t, #[trigger] self@.flag_present[k]),
            decreases self.flag_present.len() - i,
        {
            if !flag_present(argv, self.flag_present[i].as_str()) {
                assert(!has_flag(t, self@.flag_present[i as int]));
                return false;
            }
            i += 1;
        }
        let mut i: usize = 0;
        while i < self.flag_equals.len()
            invariant
                i <= self.flag_equals.len(),
                t == text::texts(argv@),
                forall|k: int|
                    0 <= k < i ==> sets_flag(
                        t,
                        (#[trigger] self@.flag_equals[k]).flag,
                        self@.flag_equals[k].value,
                    ),
            decreases self.flag_equals.len() - i,
        {
            let fe = &self.flag_equals[i];
            if !flag_equals(argv, fe.flag.as_str(), fe.value.as_str()) {
                assert(!sets_flag(
                    t,
                    self@.flag_equals[i as int].flag,
                    self@.flag_equals[i as int].value,
                ));
                return false;
            }
            i += 1;
        }
        self.arg_regex.is_none()
    }

    /// The flags in this match that can never match anything. A flag is compared
    /// with whole tokens, so one written without its dash is dead.
    pub fn dead_flags(&self) -> (r: Vec<&str>)
        ensures
            Seq::new(r@.len(), |i: int| r@[i]@) == dead(self@),
    {
        let ghost flags = self@.flag_present + Seq::new(
            self@.flag_equals.len(),
            |i: int| self@.flag_equals[i].flag,
        );
        let ghost p = |f: Seq<char>| !(f.len() > 0 && f[0] == '-');
        let mut out: Vec<&str> = Vec::new();
        assert(flags.take(0).filter(p) =~= Seq::empty()) by {
            reveal(Seq::filter);
        }
        let mut i: usize = 0;
        assert(Seq::new(out@.len(), |k: int| out@[k]@) =~= flags.take(0).filter(p));
        while i < self.flag_present.len()
            invariant
                i <= self.flag_present.len(),
                p == (|f: Seq<char>| !(f.len() > 0 && f[0] == '-')),
                flags == self@.flag_present + Seq::new(
                    self@.flag_equals.len(),
                    |i: int| self@.flag_equals[i].flag,
                ),
                Seq::new(out@.len(), |k: int| out@[k]@) == flags.take(i as int).filter(p),
            decreases self.flag_present.len() - i,
        {
            let f = self.flag_present[i].as_str();
            assert(flags[i as int] == f@);
            let ghost before = Seq::new(out@.len(), |k: int| out@[k]@);
            proof {
                crate::lists::filter_extends(flags, p, i as int);
            }
            if is_dead(f) {
                out.push(f);
                assert(Seq::new(out@.len(), |k: int| out@[k]@) =~= before.push(f@));
            }
            i += 1;
        }
        let mut j: usize = 0;
        while j < self.flag_equals.len()
            invariant
                j <= self.flag_equals.len(),
                p == (|f: Seq<char>| !(f.len() > 0 && f[0] == '-')),
                flags == self@.flag_present + Seq::new(
                    self@.flag_equals.len(),
                    |i: int| self@.flag_equals[i].flag,
                ),
                Seq::new(out@.len(), |k: int| out@[k]@) == flags.take(
                    self.flag_present.len() + j,
                ).filter(p),
            decreases self.flag_equals.len() - j,
        {
            let f = self.flag_equals[j].flag.as_str();
            assert(flags[self.flag_present.len() + j] == f@);
            let ghost before = Seq::new(out@.len(), |k: int| out@[k]@);
            proof {
                crate::lists::filter_extends(flags, p, self.flag_present.len() + j);
            }
            if is_dead(f) {
                out.push(f);
                assert(Seq::new(out@.len(), |k: int| out@[k]@) =~= before.push(f@));
            }
            j += 1;
        }
        assert(flags.take(self.flag_present.len() + j) =~= flags);
        out
    }
}

fn is_dead(f: &str) -> (r: bool)
    ensures
        r == !(f@.len() > 0 && f@[0] == '-'),
{
    let v = text::chars_of(f);
    !(v.len() > 0 && v[0] == '-')
}

/// A flag can never match exactly where it starts with no dash, whether a value goes
/// with it or not; every such flag is named, those without a value first.
pub proof fn a_flag_without_a_dash_is_dead(m: MatchView, f: Seq<char>)
    ensures
        dead(m).contains(f) <==> !(f.len() > 0 && f[0] == '-') && (m.flag_present.contains(f)
            || exists|i: int| 0 <= i < m.flag_equals.len() && (#[trigger] m.flag_equals[i]).flag == f),
        dead(m).len() <= m.flag_present.len() + m.flag_equals.len(),
{
    let p = |f: Seq<char>| !(f.len() > 0 && f[0] == '-');
    let pinned = Seq::new(m.flag_equals.len(), |i: int| m.flag_equals[i].flag);
    let all = m.flag_present + pinned;
    lists::filter_members(all, p);
    lists::filter_shrinks(all, p);
    if m.flag_present.contains(f) {
        let i = m.flag_present.index_of(f);
        assert(all[i] == f);
    }
    if exists|i: int| 0 <= i < m.flag_equals.len() && (#[trigger] m.flag_equals[i]).flag == f {
        let i = choose|i: int|
            0 <= i < m.flag_equals.len() && (#[trigger] m.flag_equals[i]).flag == f;
        assert(all[m.flag_present.len() + i] == f);
    }
    if all.contains(f) {
        let i = all.index_of(f);
        if i < m.flag_present.len() {
            assert(m.flag_present[i] == f);
        } else {
            assert(m.flag_equals[i - m.flag_present.len()].flag == f);
        }
    }
}

} // verus!
