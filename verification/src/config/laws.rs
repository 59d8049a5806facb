//! What holds of every config, whatever is added to it and taken from it.
use crate::config;
use crate::config::conditions;
use crate::config::conditions::{FlagEqView, Match, MatchView};
use crate::config::{
    ActionView, Config, ConfigView, LegacyView, ResolutionView, Rule, RuleMode, RuleView, Source,
    SourceView,
};
use crate::lists;
use crate::policy::PolicyView;
use crate::text;
use vstd::prelude::*;

verus! {

/// A rule that can be acted on: it has a condition; where it gates, its source is
/// there; where it allows, it names no source and opens no window.
pub open spec fn sound_rule(c: ConfigView, r: RuleView) -> bool {
    &&& r.match_ != conditions::no_conditions()
    &&& r.action.mode == RuleMode::Gate ==> r.action.source.len() > 0 && config::source_named(
        c,
        r.action.source,
    ) is Some
    &&& r.action.mode == RuleMode::Allow ==> r.action.source.len() == 0 && r.action.lease is RunOnce
}

/// A config that hangs together: every name once, and every rule sound.
pub open spec fn intact(c: ConfigView) -> bool {
    &&& forall|i: int, j: int|
        0 <= i < j < c.sources.len() ==> (#[trigger] c.sources[i]).name != (
        #[trigger] c.sources[j]).name
    &&& forall|i: int, j: int|
        0 <= i < j < c.rules.len() ==> (#[trigger] c.rules[i]).name != (#[trigger] c.rules[j]).name
    &&& forall|i: int| 0 <= i < c.rules.len() ==> sound_rule(c, #[trigger] c.rules[i])
}

/// A config starts out intact.
pub proof fn the_empty_config_is_intact()
    ensures
        intact(config::empty_config()),
{
}

proof fn source_named_is_some(c: ConfigView, name: Seq<char>, i: int)
    requires
        0 <= i < c.sources.len(),
        c.sources[i].name == name,
    ensures
        config::source_named(c, name) is Some,
{
    let p = |s: SourceView| s.name == name;
    assert(p(c.sources[i]));
    lists::first_where_is_first(c.sources, p);
}

proof fn source_named_is_there(c: ConfigView, name: Seq<char>) -> (i: int)
    requires
        config::source_named(c, name) is Some,
    ensures
        0 <= i < c.sources.len(),
        c.sources[i].name == name,
        config::source_named(c, name) == Some(c.sources[i]),
{
    let p = |s: SourceView| s.name == name;
    lists::first_where_is_first(c.sources, p);
    assert(p(c.sources[lists::first_where(c.sources, p)]));
    lists::first_where(c.sources, p)
}

/// Adding a source of a new name keeps a config intact.
pub proof fn adding_a_source_keeps_it_intact(c: ConfigView, src: SourceView)
    requires
        intact(c),
        config::source_named(c, src.name) is None,
    ensures
        intact(
            ConfigView {
                version: c.version,
                sources: c.sources.push(src),
                rules: c.rules,
            },
        ),
{
    let d = ConfigView { version: c.version, sources: c.sources.push(src), rules: c.rules };
    assert forall|i: int, j: int| 0 <= i < j < d.sources.len() implies (#[trigger] d.sources[i]).name
        != (#[trigger] d.sources[j]).name by {
        if j == c.sources.len() && c.sources[i].name == src.name {
            source_named_is_some(c, src.name, i);
        }
    }
    assert forall|i: int| 0 <= i < d.rules.len() implies sound_rule(d, #[trigger] d.rules[i]) by {
        let r = c.rules[i];
        assert(sound_rule(c, r));
        if r.action.mode == RuleMode::Gate {
            let k = source_named_is_there(c, r.action.source);
            assert(d.sources[k] == c.sources[k]);
            source_named_is_some(d, r.action.source, k);
        }
    }
}

/// Adding a rule that is not refused keeps a config intact.
pub proof fn adding_a_rule_keeps_it_intact(c: ConfigView, rule: RuleView)
    requires
        intact(c),
        config::rule_refusal(c, rule) is None,
    ensures
        intact(
            ConfigView { version: c.version, sources: c.sources, rules: c.rules.push(rule) },
        ),
{
    let d = ConfigView { version: c.version, sources: c.sources, rules: c.rules.push(rule) };
    assert forall|i: int| 0 <= i < d.rules.len() implies sound_rule(d, #[trigger] d.rules[i]) by {
        if i < c.rules.len() {
            assert(sound_rule(c, c.rules[i]));
        }
    }
    assert forall|i: int, j: int| 0 <= i < j < d.rules.len() implies (#[trigger] d.rules[i]).name
        != (#[trigger] d.rules[j]).name by {
        if j == c.rules.len() {
            assert(c.rules[i].name != rule.name);
        }
    }
}

/// Removing a source that no rule names keeps a config intact.
pub proof fn removing_a_source_keeps_it_intact(c: ConfigView, name: Seq<char>)
    requires
        intact(c),
        lists::first_where(c.rules, config::uses_source(name)) >= c.rules.len(),
    ensures
        intact(
            ConfigView {
                version: c.version,
                sources: c.sources.filter(|s: SourceView| s.name != name),
                rules: c.rules,
            },
        ),
{
    let keep = |s: SourceView| s.name != name;
    let d = ConfigView { version: c.version, sources: c.sources.filter(keep), rules: c.rules };
    let p = config::uses_source(name);
    lists::first_where_is_first(c.rules, p);
    let apart = |a: SourceView, b: SourceView| a.name != b.name;
    assert forall|i: int, j: int| 0 <= i < j < c.sources.len() implies apart(
        #[trigger] c.sources[i],
        #[trigger] c.sources[j],
    ) by {}
    lists::filter_keeps_apart(c.sources, keep, apart);
    assert forall|i: int, j: int| 0 <= i < j < d.sources.len() implies (#[trigger] d.sources[i]).name
        != (#[trigger] d.sources[j]).name by {
        assert(apart(d.sources[i], d.sources[j]));
    }
    lists::filter_members(c.sources, keep);
    assert forall|i: int| 0 <= i < d.rules.len() implies sound_rule(d, #[trigger] d.rules[i]) by {
        let r = c.rules[i];
        assert(sound_rule(c, r));
        assert(!p(r));
        if r.action.mode == RuleMode::Gate {
            let k = source_named_is_there(c, r.action.source);
            assert(c.sources.contains(c.sources[k]));
            assert(d.sources.contains(c.sources[k]));
            let at = d.sources.index_of(c.sources[k]);
            source_named_is_some(d, r.action.source, at);
        }
    }
}

/// Removing a rule keeps a config intact.
pub proof fn removing_a_rule_keeps_it_intact(c: ConfigView, name: Seq<char>)
    requires
        intact(c),
    ensures
        intact(
            ConfigView {
                version: c.version,
                sources: c.sources,
                rules: c.rules.filter(|r: RuleView| r.name != name),
            },
        ),
{
    let keep = |r: RuleView| r.name != name;
    let d = ConfigView { version: c.version, sources: c.sources, rules: c.rules.filter(keep) };
    let apart = |a: RuleView, b: RuleView| a.name != b.name;
    assert forall|i: int, j: int| 0 <= i < j < c.rules.len() implies apart(
        #[trigger] c.rules[i],
        #[trigger] c.rules[j],
    ) by {}
    lists::filter_keeps_apart(c.rules, keep, apart);
    assert forall|i: int, j: int| 0 <= i < j < d.rules.len() implies (#[trigger] d.rules[i]).name
        != (#[trigger] d.rules[j]).name by {
        assert(apart(d.rules[i], d.rules[j]));
    }
    lists::filter_members(c.rules, keep);
    assert forall|i: int| 0 <= i < d.rules.len() implies sound_rule(d, #[trigger] d.rules[i]) by {
        assert(d.rules.contains(d.rules[i]));
        let k = c.rules.index_of(d.rules[i]);
        assert(sound_rule(c, c.rules[k]));
    }
}

/// Order is the only precedence: the first rule that matches decides, whatever
/// stands behind it.
pub proof fn the_first_match_decides(c: ConfigView, argv: Seq<Seq<char>>, at: int)
    requires
        0 <= at < c.rules.len(),
        conditions::holds(c.rules[at].match_, argv),
        forall|i: int| 0 <= i < at ==> !conditions::holds((#[trigger] c.rules[i]).match_, argv),
    ensures
        config::resolved(c, argv) == config::decided(c, c.rules[at]),
{
    let p = |r: RuleView| conditions::holds(r.match_, argv);
    lists::first_where_is(c.rules, p, at);
}

/// An invocation that no rule matches is refused, never passed through.
pub proof fn an_unmatched_invocation_is_refused(c: ConfigView, argv: Seq<Seq<char>>)
    requires
        forall|i: int| 0 <= i < c.rules.len() ==> !conditions::holds((#[trigger] c.rules[i]).match_, argv),
    ensures
        config::resolved(c, argv) is None,
{
    let p = |r: RuleView| conditions::holds(r.match_, argv);
    lists::first_where_is_first(c.rules, p);
    let at = lists::first_where(c.rules, p);
    if at < c.rules.len() {
        assert(p(c.rules[at]));
    }
}

/// A matched rule whose source is gone refuses: it never falls through to a
/// later, broader rule.
pub proof fn a_broken_rule_refuses(c: ConfigView, argv: Seq<Seq<char>>, at: int)
    requires
        0 <= at < c.rules.len(),
        conditions::holds(c.rules[at].match_, argv),
        forall|i: int| 0 <= i < at ==> !conditions::holds((#[trigger] c.rules[i]).match_, argv),
        c.rules[at].action.mode == RuleMode::Gate,
        config::source_named(c, c.rules[at].action.source) is None,
    ensures
        config::resolved(c, argv) is None,
{
    the_first_match_decides(c, argv, at);
}

/// A command passes ungated only by a rule that matches it and says so.
pub proof fn only_an_allow_rule_passes(c: ConfigView, argv: Seq<Seq<char>>)
    requires
        config::resolved(c, argv) matches Some(r) && r is Allow,
    ensures
        exists|i: int|
            0 <= i < c.rules.len() && conditions::holds((#[trigger] c.rules[i]).match_, argv)
                && c.rules[i].action.mode == RuleMode::Allow && config::resolved(c, argv) == Some(
                ResolutionView::Allow { rule: c.rules[i].name },
            ),
{
    let p = |r: RuleView| conditions::holds(r.match_, argv);
    lists::first_where_is_first(c.rules, p);
    let at = lists::first_where(c.rules, p);
    assert(p(c.rules[at]));
}

/// In an intact config every matched invocation is decided.
pub proof fn an_intact_config_decides_every_match(c: ConfigView, argv: Seq<Seq<char>>, i: int)
    requires
        intact(c),
        0 <= i < c.rules.len(),
        conditions::holds(c.rules[i].match_, argv),
    ensures
        config::resolved(c, argv) is Some,
{
    let p = |r: RuleView| conditions::holds(r.match_, argv);
    assert(p(c.rules[i]));
    lists::first_where_is_first(c.rules, p);
    let at = lists::first_where(c.rules, p);
    assert(sound_rule(c, c.rules[at]));
}

/// A label in the stored policy is ignored: no edit of it puts words on the
/// consent surface that the match does not back.
pub proof fn a_stored_label_is_ignored(rule: RuleView, src: SourceView, label: Seq<char>)
    requires
        rule.action.lease is Leasable,
    ensures
        config::flattened(rule, src) == config::flattened(
            RuleView {
                name: rule.name,
                match_: rule.match_,
                action: ActionView {
                    mode: rule.action.mode,
                    source: rule.action.source,
                    lease: PolicyView::Leasable {
                        max_secs: rule.action.lease->max_secs,
                        covers: label,
                    },
                    timeout_sec: rule.action.timeout_sec,
                },
            },
            src,
        ),
{
}

/// A run-once rule carries no label and never becomes leasable.
pub proof fn a_run_once_rule_stays_run_once(rule: RuleView, src: SourceView)
    requires
        rule.action.lease is RunOnce,
    ensures
        config::flattened(rule, src).lease is RunOnce,
        forall|secs: u32| config::flattened(rule, src).lease.clamp_secs(secs) is None,
{
}

/// A match without conditions matches nothing, and neither does one with a
/// pattern: both fail closed.
pub proof fn a_malformed_match_never_holds(m: MatchView, argv: Seq<Seq<char>>)
    requires
        m == conditions::no_conditions() || m.arg_regex is Some,
    ensures
        !conditions::holds(m, argv),
{
}

proof fn legacy_rule_holds(command: Seq<char>, argv: Seq<Seq<char>>)
    ensures
        conditions::holds(config::legacy_rule(command).match_, argv) == (argv.len() > 0 && argv[0] == command),
{
    assert(config::legacy_rule(command).match_.command != conditions::no_conditions().command);
}

/// After a migration `op` is still gated, whatever the old entries were.
pub proof fn a_migrated_config_gates_op(commands: Seq<LegacyView>, argv: Seq<Seq<char>>)
    requires
        argv.len() > 0,
        argv[0] == "op"@,
    ensures
        config::resolved(config::migrated(commands), argv) matches Some(r) && r is Gate && r->Gate_0.rule == "op"@
            && r->Gate_0.lease is RunOnce,
{
    let c = config::migrated(commands);
    let p = |r: RuleView| conditions::holds(r.match_, argv);
    let n = commands.len() as int;
    let listed = exists|i: int| 0 <= i < commands.len() && (#[trigger] commands[i]).command == "op"@;
    let k = if listed {
        choose|i: int| 0 <= i < commands.len() && (#[trigger] commands[i]).command == "op"@
    } else {
        n
    };
    assert(c.rules[k] =~= config::legacy_rule("op"@));
    assert(c.sources[k].name == "op"@);
    legacy_rule_holds("op"@, argv);
    assert(p(c.rules[k]));
    lists::first_where_is_first(c.rules, p);
    let at = lists::first_where(c.rules, p);
    assert(p(c.rules[at]));
    if at < n {
        assert(c.rules[at] == config::legacy_rule(commands[at].command));
        legacy_rule_holds(commands[at].command, argv);
    }
    assert(c.rules[at] == config::legacy_rule("op"@));
    source_named_is_some(c, "op"@, k);
}

/// A token contains a needle exactly where it is some text, the needle and some text
/// again.
pub proof fn a_needle_stands_in_its_token(token: Seq<char>, needle: Seq<char>)
    ensures
        text::occurs_in(token, needle) <==> exists|a: Seq<char>, b: Seq<char>|
            token == #[trigger] (a + needle + b),
{
    if text::occurs_in(token, needle) {
        let at = choose|at: int| text::occurs_at(token, needle, at);
        let a = token.take(at);
        let b = token.skip(at + needle.len());
        assert(token =~= a + needle + b) by {
            assert(token.subrange(at, at + needle.len()) == needle);
            assert forall|i: int| 0 <= i < token.len() implies token[i] == (a + needle + b)[i] by {
                if at <= i < at + needle.len() {
                    assert(token.subrange(at, at + needle.len())[i - at] == token[i]);
                }
            }
        }
    }
    if exists|a: Seq<char>, b: Seq<char>| token == #[trigger] (a + needle + b) {
        let (a, b) = choose|a: Seq<char>, b: Seq<char>| token == #[trigger] (a + needle + b);
        let at = a.len() as int;
        assert(token.subrange(at, at + needle.len()) =~= needle);
        assert(text::occurs_at(token, needle, at));
    }
}

/// Every condition counts. A match that holds has at least one and no pattern; its
/// command and its first argument are those of the invocation; each of its needles
/// is in some token; each of its flags is there, alone or with a value; and each of
/// its flags with a value has that value, in one token or in two.
pub proof fn every_condition_counts(m: MatchView, argv: Seq<Seq<char>>, i: int)
    requires
        conditions::holds(m, argv),
    ensures
        m.command is Some || m.subcommand is Some || m.argv_contains.len() > 0
            || m.flag_present.len() > 0 || m.flag_equals.len() > 0,
        m.arg_regex is None,
        m.command matches Some(c) ==> argv.len() > 0 && argv[0] == c,
        m.subcommand matches Some(c) ==> argv.len() > 1 && argv[1] == c,
        0 <= i < m.argv_contains.len() ==> exists|j: int, a: Seq<char>, b: Seq<char>|
            0 <= j < argv.len() && #[trigger] argv[j] == #[trigger] (a + m.argv_contains[i] + b),
        0 <= i < m.flag_present.len() ==> exists|j: int|
            0 <= j < argv.len() && (#[trigger] argv[j] == m.flag_present[i] || exists|v: Seq<char>|
                argv[j] == #[trigger] (m.flag_present[i] + "="@ + v)),
        0 <= i < m.flag_equals.len() ==> exists|j: int|
            0 <= j < argv.len() && (#[trigger] argv[j] == m.flag_equals[i].flag + "="@
                + m.flag_equals[i].value || (j + 1 < argv.len() && argv[j] == m.flag_equals[i].flag
                && argv[j + 1] == m.flag_equals[i].value)),
{
    if m.command is None && m.subcommand is None && m.argv_contains.len() == 0
        && m.flag_present.len() == 0 && m.flag_equals.len() == 0 {
        assert(m =~= conditions::no_conditions());
    }
    if 0 <= i < m.argv_contains.len() {
        let n = m.argv_contains[i];
        assert(conditions::some_token_contains(argv, n));
        let j = choose|j: int| 0 <= j < argv.len() && text::occurs_in(#[trigger] argv[j], n);
        a_needle_stands_in_its_token(argv[j], n);
        let (a, b) = choose|a: Seq<char>, b: Seq<char>| argv[j] == #[trigger] (a + n + b);
        assert(argv[j] == (a + n + b));
    }
    if 0 <= i < m.flag_present.len() {
        let n = m.flag_present[i];
        assert(conditions::has_flag(argv, n));
        let j = choose|j: int|
            0 <= j < argv.len() && (#[trigger] argv[j] == n || (n + "="@).is_prefix_of(argv[j]));
        if argv[j] != n {
            let v = argv[j].skip((n + "="@).len() as int);
            assert(argv[j] =~= n + "="@ + v) by {
                assert((n + "="@) =~= argv[j].subrange(0, (n + "="@).len() as int));
                assert forall|k: int| 0 <= k < argv[j].len() implies argv[j][k] == (n + "="@ + v)[k] by {
                    if k < (n + "="@).len() {
                        assert(argv[j].subrange(0, (n + "="@).len() as int)[k] == argv[j][k]);
                    }
                }
            }
        }
    }
    if 0 <= i < m.flag_equals.len() {
        let e = m.flag_equals[i];
        assert(conditions::sets_flag(argv, e.flag, e.value));
        let j = choose|j: int|
            0 <= j < argv.len() && #[trigger] conditions::sets_flag_at(argv, e.flag, e.value, j);
        assert(conditions::sets_flag_at(argv, e.flag, e.value, j));
        assert(argv[j] == argv[j]);
    }
}

spec fn all_needles(needles: Seq<Seq<char>>, argv: Seq<Seq<char>>) -> bool {
    forall|i: int|
        0 <= i < needles.len() ==> conditions::some_token_contains(argv, #[trigger] needles[i])
}

spec fn all_flags(flags: Seq<Seq<char>>, argv: Seq<Seq<char>>) -> bool {
    forall|i: int| 0 <= i < flags.len() ==> conditions::has_flag(argv, #[trigger] flags[i])
}

spec fn all_values(values: Seq<FlagEqView>, argv: Seq<Seq<char>>) -> bool {
    forall|i: int|
        0 <= i < values.len() ==> conditions::sets_flag(
            argv,
            (#[trigger] values[i]).flag,
            values[i].value,
        )
}

proof fn holds_by_parts(m: MatchView, argv: Seq<Seq<char>>)
    ensures
        (conditions::holds(m, argv) || m == conditions::no_conditions()) <==> {
            &&& m.command is Some ==> argv.len() > 0 && argv[0] == m.command->0
            &&& m.subcommand is Some ==> argv.len() > 1 && argv[1] == m.subcommand->0
            &&& all_needles(m.argv_contains, argv)
            &&& all_flags(m.flag_present, argv)
            &&& all_values(m.flag_equals, argv)
            &&& m.arg_regex is None
        },
        conditions::holds(m, argv) ==> m != conditions::no_conditions(),
{
    if conditions::holds(m, argv) {
        assert(all_needles(m.argv_contains, argv));
        assert(all_flags(m.flag_present, argv));
        assert(all_values(m.flag_equals, argv));
    }
    if all_needles(m.argv_contains, argv) && all_flags(m.flag_present, argv) && all_values(
        m.flag_equals,
        argv,
    ) && m.arg_regex is None && (m.command is Some ==> argv.len() > 0 && argv[0] == m.command->0)
        && (m.subcommand is Some ==> argv.len() > 1 && argv[1] == m.subcommand->0) {
        if !(m =~= conditions::no_conditions()) {
            assert(conditions::holds(m, argv));
        }
    }
}

/// A condition more narrows a match by just that condition: what held before, and
/// the new needle in some token, is what holds now. So a further needle never makes
/// a match hold of more, and it takes nothing else away.
pub proof fn a_further_needle_narrows_by_itself(
    m: MatchView,
    argv: Seq<Seq<char>>,
    needle: Seq<char>,
)
    ensures
        ({
            let more = MatchView { argv_contains: m.argv_contains.push(needle), ..m };
            conditions::holds(more, argv) <==> (conditions::holds(m, argv) || m
                == conditions::no_conditions()) && exists|j: int|
                0 <= j < argv.len() && text::occurs_in(#[trigger] argv[j], needle)
        }),
{
    let more = MatchView { argv_contains: m.argv_contains.push(needle), ..m };
    holds_by_parts(m, argv);
    holds_by_parts(more, argv);
    assert(more.argv_contains.len() > 0);
    let n = m.argv_contains.len() as int;
    assert(more.argv_contains[n] == needle);
    if all_needles(more.argv_contains, argv) {
        assert forall|i: int| 0 <= i < n implies conditions::some_token_contains(
            argv,
            #[trigger] m.argv_contains[i],
        ) by {
            assert(more.argv_contains[i] == m.argv_contains[i]);
        }
        assert(conditions::some_token_contains(argv, needle));
    }
    if all_needles(m.argv_contains, argv) && conditions::some_token_contains(argv, needle) {
        assert forall|i: int| 0 <= i <= n implies conditions::some_token_contains(
            argv,
            #[trigger] more.argv_contains[i],
        ) by {
            if i < n {
                assert(more.argv_contains[i] == m.argv_contains[i]);
            }
        }
        assert(all_needles(more.argv_contains, argv));
    }
}

/// A further flag narrows a match by just that flag: what held before, and the flag
/// in some token, alone or in front of an equals sign.
pub proof fn a_further_flag_narrows_by_itself(
    m: MatchView,
    argv: Seq<Seq<char>>,
    flag: Seq<char>,
)
    ensures
        ({
            let more = MatchView { flag_present: m.flag_present.push(flag), ..m };
            conditions::holds(more, argv) <==> (conditions::holds(m, argv) || m
                == conditions::no_conditions()) && exists|j: int|
                0 <= j < argv.len() && (#[trigger] argv[j] == flag || (flag + "="@).is_prefix_of(
                    argv[j],
                ))
        }),
{
    let more = MatchView { flag_present: m.flag_present.push(flag), ..m };
    holds_by_parts(m, argv);
    holds_by_parts(more, argv);
    assert(more.flag_present.len() > 0);
    let n = m.flag_present.len() as int;
    assert(more.flag_present[n] == flag);
    if all_flags(more.flag_present, argv) {
        assert forall|i: int| 0 <= i < n implies conditions::has_flag(
            argv,
            #[trigger] m.flag_present[i],
        ) by {
            assert(more.flag_present[i] == m.flag_present[i]);
        }
        assert(conditions::has_flag(argv, flag));
    }
    if all_flags(m.flag_present, argv) && conditions::has_flag(argv, flag) {
        assert forall|i: int| 0 <= i <= n implies conditions::has_flag(
            argv,
            #[trigger] more.flag_present[i],
        ) by {
            if i < n {
                assert(more.flag_present[i] == m.flag_present[i]);
            }
        }
        assert(all_flags(more.flag_present, argv));
    }
}

/// A further flag with a value narrows a match by just that: what held before, and
/// the flag with the value, in one token or in two that follow each other.
pub proof fn a_further_value_narrows_by_itself(
    m: MatchView,
    argv: Seq<Seq<char>>,
    e: FlagEqView,
)
    ensures
        ({
            let more = MatchView { flag_equals: m.flag_equals.push(e), ..m };
            conditions::holds(more, argv) <==> (conditions::holds(m, argv) || m
                == conditions::no_conditions()) && exists|j: int|
                0 <= j < argv.len() && (#[trigger] argv[j] == e.flag + "="@ + e.value || (j + 1
                    < argv.len() && argv[j] == e.flag && argv[j + 1] == e.value))
        }),
{
    let more = MatchView { flag_equals: m.flag_equals.push(e), ..m };
    holds_by_parts(m, argv);
    holds_by_parts(more, argv);
    assert(more.flag_equals.len() > 0);
    let n = m.flag_equals.len() as int;
    assert(more.flag_equals[n] == e);
    if all_values(more.flag_equals, argv) {
        assert forall|i: int| 0 <= i < n implies conditions::sets_flag(
            argv,
            (#[trigger] m.flag_equals[i]).flag,
            m.flag_equals[i].value,
        ) by {
            assert(more.flag_equals[i] == m.flag_equals[i]);
        }
        assert(all_values(m.flag_equals, argv));
        assert(conditions::sets_flag(argv, e.flag, e.value));
    }
    if conditions::sets_flag(argv, e.flag, e.value) {
        let j = choose|j: int|
            0 <= j < argv.len() && #[trigger] conditions::sets_flag_at(argv, e.flag, e.value, j);
        assert(argv[j] == argv[j]);
    }
    if exists|j: int|
        0 <= j < argv.len() && (#[trigger] argv[j] == e.flag + "="@ + e.value || (j + 1 < argv.len()
            && argv[j] == e.flag && argv[j + 1] == e.value)) {
        let j = choose|j: int|
            0 <= j < argv.len() && (#[trigger] argv[j] == e.flag + "="@ + e.value || (j + 1
                < argv.len() && argv[j] == e.flag && argv[j + 1] == e.value));
        assert(conditions::sets_flag_at(argv, e.flag, e.value, j));
        assert(conditions::sets_flag(argv, e.flag, e.value));
    }
    if all_values(m.flag_equals, argv) && conditions::sets_flag(argv, e.flag, e.value) {
        assert forall|i: int| 0 <= i <= n implies conditions::sets_flag(
            argv,
            (#[trigger] more.flag_equals[i]).flag,
            more.flag_equals[i].value,
        ) by {
            if i < n {
                assert(more.flag_equals[i] == m.flag_equals[i]);
            }
        }
        assert(all_values(more.flag_equals, argv));
    }
}

/// Naming the command, or the first argument, narrows a match by just that.
pub proof fn a_name_narrows_by_itself(m: MatchView, argv: Seq<Seq<char>>, name: Seq<char>)
    ensures
        m.command is None ==> (conditions::holds(MatchView { command: Some(name), ..m }, argv)
            <==> (conditions::holds(m, argv) || m == conditions::no_conditions()) && argv.len() > 0
            && argv[0] == name),
        m.subcommand is None ==> (conditions::holds(MatchView { subcommand: Some(name), ..m }, argv)
            <==> (conditions::holds(m, argv) || m == conditions::no_conditions()) && argv.len() > 1
            && argv[1] == name),
{
    holds_by_parts(m, argv);
    holds_by_parts(MatchView { command: Some(name), ..m }, argv);
    holds_by_parts(MatchView { subcommand: Some(name), ..m }, argv);
}

/// What a gate rule decides comes from the rule and its source, every field of it:
/// the first rule that matches, and the first source of the name that the rule gives.
/// The cap of the window is the rule's own.
pub proof fn a_gate_is_its_rule_and_its_source(
    c: ConfigView,
    argv: Seq<Seq<char>>,
    at: int,
    from: int,
)
    requires
        0 <= at < c.rules.len(),
        conditions::holds(c.rules[at].match_, argv),
        forall|i: int| 0 <= i < at ==> !conditions::holds((#[trigger] c.rules[i]).match_, argv),
        c.rules[at].action.mode == RuleMode::Gate,
        0 <= from < c.sources.len(),
        c.sources[from].name == c.rules[at].action.source,
        forall|j: int| 0 <= j < from ==> (#[trigger] c.sources[j]).name != c.sources[from].name,
    ensures
        ({
            let rule = c.rules[at];
            let src = c.sources[from];
            config::resolved(c, argv) matches Some(ResolutionView::Gate(a)) && {
                &&& a.rule == rule.name
                &&& a.provider == src.provider
                &&& a.source_name == src.name
                &&& a.source_path == src.path
                &&& a.account == src.account
                &&& a.env_keys == src.keys
                &&& a.plain_env == src.plain
                &&& a.timeout_sec == rule.action.timeout_sec
                &&& rule.action.lease is RunOnce ==> a.lease is RunOnce
                &&& rule.action.lease matches PolicyView::Leasable { max_secs, .. } ==> (
                a.lease matches PolicyView::Leasable { max_secs: cap, .. } && cap == max_secs)
            }
        }),
{
    the_first_match_decides(c, argv, at);
    let p = |s: SourceView| s.name == c.rules[at].action.source;
    lists::first_where_is(c.sources, p, from);
}

/// A config decides for an invocation by the first rule that matches it alone: an
/// allow rule passes under its own name, a gate rule gates or, where its source is
/// gone, refuses, and where none matches it refuses.
pub proof fn a_config_decides_by_its_first_match(c: ConfigView, argv: Seq<Seq<char>>, at: int)
    requires
        0 <= at < c.rules.len(),
        conditions::holds(c.rules[at].match_, argv),
        forall|i: int| 0 <= i < at ==> !conditions::holds((#[trigger] c.rules[i]).match_, argv),
    ensures
        c.rules[at].action.mode == RuleMode::Allow ==> config::resolved(c, argv) == Some(
            ResolutionView::Allow { rule: c.rules[at].name },
        ),
        c.rules[at].action.mode == RuleMode::Gate ==> (config::resolved(c, argv) is None <==> forall|
            j: int,
        |
            0 <= j < c.sources.len() ==> (#[trigger] c.sources[j]).name
                != c.rules[at].action.source),
        c.rules[at].action.mode == RuleMode::Gate ==> !(config::resolved(c, argv) matches Some(d)
            && d is Allow),
{
    the_first_match_decides(c, argv, at);
    let name = c.rules[at].action.source;
    let p = |s: SourceView| s.name == name;
    lists::first_where_is_first(c.sources, p);
    let k = lists::first_where(c.sources, p);
    if k < c.sources.len() {
        assert(p(c.sources[k]));
    } else {
        assert forall|j: int| 0 <= j < c.sources.len() implies (#[trigger] c.sources[j]).name
            != name by {
            assert(!p(c.sources[j]));
        }
    }
}

/// A rule joins a config exactly where its name is new, it has a condition, and it
/// hangs together: an allow rule that names no source and opens no window, or a gate
/// rule whose source is there.
pub proof fn a_rule_joins_where_it_hangs_together(c: ConfigView, rule: RuleView)
    ensures
        config::rule_refusal(c, rule) is None <==> {
            &&& forall|i: int| 0 <= i < c.rules.len() ==> (#[trigger] c.rules[i]).name != rule.name
            &&& rule.match_ != conditions::no_conditions()
            &&& rule.action.mode == RuleMode::Allow ==> rule.action.source.len() == 0
                && rule.action.lease is RunOnce
            &&& rule.action.mode == RuleMode::Gate ==> rule.action.source.len() > 0 && exists|j: int|
                0 <= j < c.sources.len() && (#[trigger] c.sources[j]).name == rule.action.source
        },
{
    let name = rule.action.source;
    let p = |s: SourceView| s.name == name;
    lists::first_where_is_first(c.sources, p);
    let k = lists::first_where(c.sources, p);
    if k < c.sources.len() {
        assert(p(c.sources[k]));
    } else {
        assert forall|j: int| 0 <= j < c.sources.len() implies (#[trigger] c.sources[j]).name
            != name by {
            assert(!p(c.sources[j]));
        }
    }
}

/// A migrated config has a gate for each command that it was made from, run once and
/// from that command's own source; and nothing in it lets a command through.
pub proof fn a_migrated_command_stays_gated(commands: Seq<LegacyView>, i: int)
    requires
        0 <= i < commands.len(),
    ensures
        ({
            let c = config::migrated(commands);
            let op = exists|k: int|
                0 <= k < commands.len() && (#[trigger] commands[k]).command == "op"@;
            &&& c.rules.len() == commands.len() + (if op {
                0int
            } else {
                1
            })
            &&& c.sources.len() == c.rules.len()
            &&& c.rules[i].name == commands[i].command
            &&& c.rules[i].match_.command == Some(commands[i].command)
            &&& c.rules[i].match_.subcommand is None && c.rules[i].match_.arg_regex is None
            &&& c.rules[i].match_.argv_contains.len() == 0
            &&& c.rules[i].match_.flag_present.len() == 0 && c.rules[i].match_.flag_equals.len()
                == 0
            &&& c.rules[i].action.source == commands[i].command
            &&& c.rules[i].action.timeout_sec is None
            &&& c.sources[i].name == commands[i].command
            &&& c.sources[i].provider == commands[i].provider
            &&& c.sources[i].path == commands[i].source
            &&& c.sources[i].account == commands[i].account
            &&& c.sources[i].keys.len() == 0 && c.sources[i].plain.len() == 0
            &&& forall|k: int|
                0 <= k < c.rules.len() ==> (#[trigger] c.rules[k]).action.mode == RuleMode::Gate
                    && c.rules[k].action.lease is RunOnce
        }),
{
}

/// A rule is refused with the first thing that is wrong with it, and the refusal names
/// the rule; where its source is not there, it names that too.
pub proof fn a_refused_rule_is_told_why(c: ConfigView, rule: RuleView)
    requires
        rule.match_ != conditions::no_conditions(),
    ensures
        config::rule_refusal(c, rule) matches Some(why) ==> text::occurs_in(why, rule.name),
        (rule.action.mode == RuleMode::Gate && rule.action.source.len() > 0 && (forall|i: int|
            0 <= i < c.rules.len() ==> (#[trigger] c.rules[i]).name != rule.name)) ==> (
        config::rule_refusal(c, rule) matches Some(why) ==> text::occurs_in(
            why,
            rule.action.source,
        )),
{
    broadcast use text::parts_stand_in;

}

/// What is said of a source that is there already, or that is still in use, names it,
/// and the rule that uses it; a policy is listed with its cap.
pub proof fn a_refused_source_is_named(name: Seq<char>, rule: Seq<char>, secs: u32, covers: Seq<char>)
    ensures
        text::occurs_in(config::source_exists_text(name), name),
        text::occurs_in(config::source_used_text(name, rule), name),
        text::occurs_in(config::source_used_text(name, rule), rule),
        text::occurs_in(
            config::lease_text(PolicyView::Leasable { max_secs: secs, covers }),
            text::decimal(secs as nat),
        ),
        config::lease_text(PolicyView::RunOnce) == "run-once"@,
{
    broadcast use text::parts_stand_in;

}

/// A source is in use exactly where a rule names it.
pub proof fn a_source_is_used_where_a_rule_names_it(c: ConfigView, name: Seq<char>)
    ensures
        ({
            let at = lists::first_where(c.rules, config::uses_source(name));
            &&& at >= c.rules.len() <==> forall|i: int|
                0 <= i < c.rules.len() ==> (#[trigger] c.rules[i]).action.source != name
            &&& 0 <= at < c.rules.len() ==> c.rules[at].action.source == name
        }),
{
    let p = config::uses_source(name);
    let at = lists::first_where(c.rules, p);
    lists::first_where_is_first(c.rules, p);
    if at < c.rules.len() {
        assert(p(c.rules[at]));
    } else {
        assert forall|i: int| 0 <= i < c.rules.len() implies (#[trigger] c.rules[i]).action.source
            != name by {
            assert(!p(c.rules[i]));
        }
    }
}

/// The source of a name is the first that has it, and there is none exactly where none
/// has.
pub proof fn a_source_is_found_by_its_name(c: ConfigView, name: Seq<char>)
    ensures
        config::source_named(c, name) is None <==> forall|i: int|
            0 <= i < c.sources.len() ==> (#[trigger] c.sources[i]).name != name,
        config::source_named(c, name) matches Some(s) ==> s.name == name && exists|i: int|
            0 <= i < c.sources.len() && #[trigger] c.sources[i] == s && forall|k: int|
                0 <= k < i ==> (#[trigger] c.sources[k]).name != name,
{
    let p = |s: SourceView| s.name == name;
    let at = lists::first_where(c.sources, p);
    lists::first_where_is_first(c.sources, p);
    if at < c.sources.len() {
        assert(p(c.sources[at]));
        assert forall|k: int| 0 <= k < at implies (#[trigger] c.sources[k]).name != name by {
            assert(!p(c.sources[k]));
        }
        assert(c.sources[at] == config::source_named(c, name)->0);
    } else {
        assert forall|i: int| 0 <= i < c.sources.len() implies (#[trigger] c.sources[i]).name
            != name by {
            assert(!p(c.sources[i]));
        }
    }
}

/// Conditions that are all met match: a match without a pattern, and with at least one
/// condition, holds of an invocation that each of them is true of.
pub proof fn conditions_that_are_met_match(m: MatchView, argv: Seq<Seq<char>>)
    requires
        m.arg_regex is None,
        m.command is Some || m.subcommand is Some || m.argv_contains.len() > 0
            || m.flag_present.len() > 0 || m.flag_equals.len() > 0,
        m.command matches Some(c) ==> argv.len() > 0 && argv[0] == c,
        m.subcommand matches Some(c) ==> argv.len() > 1 && argv[1] == c,
        forall|i: int|
            0 <= i < m.argv_contains.len() ==> exists|j: int|
                0 <= j < argv.len() && text::occurs_in(#[trigger] argv[j], #[trigger] m.argv_contains[i]),
        forall|i: int|
            0 <= i < m.flag_present.len() ==> exists|j: int|
                0 <= j < argv.len() && (#[trigger] argv[j] == #[trigger] m.flag_present[i] || (
                m.flag_present[i] + "="@).is_prefix_of(argv[j])),
        forall|i: int|
            0 <= i < m.flag_equals.len() ==> exists|j: int|
                0 <= j < argv.len() && (#[trigger] argv[j] == (#[trigger] m.flag_equals[i]).flag
                    + "="@ + m.flag_equals[i].value || (j + 1 < argv.len() && argv[j]
                    == m.flag_equals[i].flag && argv[j + 1] == m.flag_equals[i].value)),
    ensures
        conditions::holds(m, argv),
{
    assert(m != conditions::no_conditions());
    assert forall|i: int| 0 <= i < m.argv_contains.len() implies conditions::some_token_contains(
        argv,
        #[trigger] m.argv_contains[i],
    ) by {}
    assert forall|i: int| 0 <= i < m.flag_present.len() implies conditions::has_flag(
        argv,
        #[trigger] m.flag_present[i],
    ) by {}
    assert forall|i: int| 0 <= i < m.flag_equals.len() implies conditions::sets_flag(
        argv,
        (#[trigger] m.flag_equals[i]).flag,
        m.flag_equals[i].value,
    ) by {
        let f = m.flag_equals[i];
        let j = choose|j: int|
            0 <= j < argv.len() && (#[trigger] argv[j] == f.flag + "="@ + f.value || (j + 1
                < argv.len() && argv[j] == f.flag && argv[j + 1] == f.value));
        assert(conditions::sets_flag_at(argv, f.flag, f.value, j));
    }
}

/// What a match answers for an invocation: it says yes only where each of its needles
/// is in some token, each of its flags is there, its command and its first argument are
/// the ones, and it has no pattern.
pub proof fn a_match_answers_for_every_condition(
    m: &Match,
    argv: &[String],
    r: bool,
    i: int,
)
    requires
        call_ensures(Match::matches, (m, argv), r),
        r,
    ensures
        m.arg_regex is None,
        m.command matches Some(c) ==> argv@.len() > 0 && argv@[0]@ == c@,
        m.subcommand matches Some(c) ==> argv@.len() > 1 && argv@[1]@ == c@,
        0 <= i < m.argv_contains@.len() ==> exists|j: int|
            0 <= j < argv@.len() && text::occurs_in((#[trigger] argv@[j])@, m.argv_contains@[i]@),
        0 <= i < m.flag_present@.len() ==> exists|j: int|
            0 <= j < argv@.len() && ((#[trigger] argv@[j])@ == m.flag_present@[i]@ || (
            m.flag_present@[i]@ + "="@).is_prefix_of(argv@[j]@)),
{
    let v = m@;
    let t = text::texts(argv@);
    assert(conditions::holds(v, t));
    if 0 <= i < m.argv_contains@.len() {
        assert(conditions::some_token_contains(t, v.argv_contains[i]));
        let j = choose|j: int|
            0 <= j < t.len() && text::occurs_in(#[trigger] t[j], v.argv_contains[i]);
        assert(text::occurs_in(argv@[j]@, m.argv_contains@[i]@));
    }
    if 0 <= i < m.flag_present@.len() {
        let f = v.flag_present[i];
        assert(conditions::has_flag(t, f));
        let j = choose|j: int|
            0 <= j < t.len() && (#[trigger] t[j] == f || (f + "="@).is_prefix_of(t[j]));
        assert(argv@[j]@ == t[j]);
    }
}

/// Taking a rule away takes every rule of that name and no other, leaves the others in
/// order, and touches no source; it says whether there was one.
pub proof fn a_removal_takes_the_rules_of_a_name(
    c: &mut Config,
    name: &str,
    r: bool,
    x: RuleView,
)
    requires
        call_ensures(Config::remove_rule, (c, name), r),
    ensures
        final(c)@.rules.contains(x) <==> old(c)@.rules.contains(x) && x.name != name@,
        final(c)@.sources == old(c)@.sources && final(c)@.version == old(c)@.version,
        !r ==> final(c)@.rules == old(c)@.rules,
        old(c)@.rules.contains(x) && x.name == name@ ==> r,
{
    let keep = |x: RuleView| x.name != name@;
    lists::filter_members(old(c)@.rules, keep);
    if !r {
        assert forall|i: int| 0 <= i < old(c)@.rules.len() implies keep(
            #[trigger] old(c)@.rules[i],
        ) by {}
        lists::filter_keeps_all(old(c)@.rules, keep);
    }
    if old(c)@.rules.contains(x) && x.name == name@ {
        let i = old(c)@.rules.index_of(x);
        assert(old(c)@.rules[i].name == name@);
    }
}

/// A rule joins behind the others, or is refused and nothing changes; and it joins only
/// under a name that no rule has.
pub proof fn a_rule_joins_behind_the_others(
    c: &mut Config,
    rule: Rule,
    r: Result<(), String>,
    i: int,
)
    requires
        call_ensures(Config::add_rule, (c, rule), r),
    ensures
        r is Err ==> final(c)@ == old(c)@,
        r is Ok ==> {
            &&& final(c)@.rules == old(c)@.rules.push(rule@)
            &&& final(c)@.sources == old(c)@.sources
            &&& 0 <= i < old(c)@.rules.len() ==> old(c)@.rules[i].name != rule.name@
            &&& rule.action.mode == RuleMode::Allow ==> rule.action.source@.len() == 0
        },
{
    a_rule_joins_where_it_hangs_together(old(c)@, rule@);
}

/// A source joins only under a name that none has, and goes only where no rule names it;
/// where it may not, nothing changes.
pub proof fn a_source_joins_and_goes_by_its_name(
    c: &mut Config,
    src: Source,
    joined: Result<(), String>,
    d: &mut Config,
    name: &str,
    gone: Result<bool, String>,
    i: int,
    x: SourceView,
)
    requires
        call_ensures(Config::add_source, (c, src), joined),
        call_ensures(Config::remove_source, (d, name), gone),
    ensures
        joined is Err ==> final(c)@ == old(c)@,
        joined is Ok ==> final(c)@.sources == old(c)@.sources.push(src@) && final(c)@.rules == old(
            c,
        )@.rules && (0 <= i < old(c)@.sources.len() ==> old(c)@.sources[i].name != src.name@),
        gone is Err ==> final(d)@ == old(d)@,
        gone is Ok ==> (0 <= i < old(d)@.rules.len() ==> old(d)@.rules[i].action.source != name@)
            && final(d)@.rules == old(d)@.rules && (final(d)@.sources.contains(x) <==> old(
            d,
        )@.sources.contains(x) && x.name != name@),
{
    a_source_is_found_by_its_name(old(c)@, src.name@);
    a_source_is_used_where_a_rule_names_it(old(d)@, name@);
    lists::filter_members(old(d)@.sources, |s: SourceView| s.name != name@);
}

} // verus!
