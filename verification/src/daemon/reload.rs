//! Live configuration: what is in force, and what a change does to the open
//! windows.
use crate::clock;
use crate::config;
use crate::config::{Config, ConfigView, Rule, RuleView, Source, SourceView};
use crate::lease::store;
use crate::lease::store::{LeaseStore, LeaseView};
use crate::lists;
use crate::text;
use vstd::prelude::*;
use vstd::string::*;

verus! {

/// The config in force, and the generation it was stored under. A lease carries
/// the generation it was decided under, so that one that is granted after the
/// config moved answers no lookup.
pub struct ConfigCell {
    pub config: Config,
    pub generation: u64,
}

impl ConfigCell {
    /// The first generation of a config.
    pub fn new(config: Config) -> (r: ConfigCell)
        ensures
            r.config == config,
            r.generation == 0,
    {
        ConfigCell { config, generation: 0 }
    }

    /// Replace the config, under the next generation.
    pub fn store(&mut self, config: Config)
        ensures
            final(self).config == config,
            final(self).generation == next_generation(old(self).generation),
    {
        self.config = config;
        self.generation = self.generation.saturating_add(1);
    }
}

/// The generation after this one.
pub open spec fn next_generation(g: u64) -> u64 {
    if g < u64::MAX {
        (g + 1) as u64
    } else {
        g
    }
}

/// The generation moves with every change, until it has nowhere to go.
pub proof fn every_change_is_a_new_generation(g: u64)
    requires
        g < u64::MAX,
    ensures
        next_generation(g) > g,
{
}

/// A rule did not survive a change: it is not there any more as it was, or the
/// source that it injects from is another.
pub open spec fn moved(old_config: ConfigView, new_config: ConfigView, rule: RuleView) -> bool {
    !new_config.rules.contains(rule) || config::source_named(old_config, rule.action.source)
        != config::source_named(new_config, rule.action.source)
}

/// Some rule of this name did not survive a change.
pub open spec fn name_moved(
    old_config: ConfigView,
    new_config: ConfigView,
    name: Seq<char>,
    among: int,
) -> bool {
    exists|i: int|
        0 <= i < among && (#[trigger] old_config.rules[i]).name == name && moved(
            old_config,
            new_config,
            old_config.rules[i],
        )
}

/// The leases that survive a change: those under no rule that moved.
pub open spec fn surviving(
    s: Seq<LeaseView>,
    old_config: ConfigView,
    new_config: ConfigView,
    among: int,
) -> Seq<LeaseView> {
    s.filter(|l: LeaseView| !name_moved(old_config, new_config, l.binding.scope, among))
}

/// What is said of a rule under which leases were revoked.
pub open spec fn revoked_text(name: Seq<char>, killed: nat) -> Seq<char> {
    "sigil daemon: config changed under rule '"@ + name + "'; revoked "@ + text::decimal(killed)
        + " lease(s) (any cached values zeroized)"@
}

/// What is said of a change, rule by rule: a line for each rule that moved and
/// had leases left.
pub open spec fn change_lines(
    s: Seq<LeaseView>,
    old_config: ConfigView,
    new_config: ConfigView,
    among: int,
) -> Seq<Seq<char>>
    decreases among,
{
    if among <= 0 {
        Seq::empty()
    } else {
        let before = change_lines(s, old_config, new_config, among - 1);
        let rule = old_config.rules[among - 1];
        let left = surviving(s, old_config, new_config, among - 1);
        let killed = left.len() - store::without_scope(left, rule.name).len();
        if moved(old_config, new_config, rule) && killed > 0 {
            before.push(revoked_text(rule.name, killed as nat))
        } else {
            before
        }
    }
}

fn same_source(a: Option<&Source>, b: Option<&Source>) -> (r: bool)
    ensures
        r == (match (a, b) {
            (Some(x), Some(y)) => x@ == y@,
            (None, None) => true,
            _ => false,
        }),
{
    match (a, b) {
        (Some(x), Some(y)) => x.same(y),
        (None, None) => true,
        _ => false,
    }
}

fn holds_rule(config: &Config, rule: &Rule) -> (r: bool)
    ensures
        r == config@.rules.contains(rule@),
{
    let mut i: usize = 0;
    while i < config.rules.len()
        invariant
            i <= config.rules.len(),
            forall|k: int| 0 <= k < i ==> #[trigger] config@.rules[k] != rule@,
        decreases config.rules.len() - i,
    {
        if config.rules[i].same(rule) {
            assert(config@.rules[i as int] == rule@);
            return true;
        }
        i += 1;
    }
    false
}

fn has_moved(old_config: &Config, new_config: &Config, rule: &Rule) -> (r: bool)
    ensures
        r == moved(old_config@, new_config@, rule@),
{
    !(holds_rule(new_config, rule) && same_source(
        old_config.source(rule.action.source.as_str()),
        new_config.source(rule.action.source.as_str()),
    ))
}

/// Revoke every lease whose rule did not survive a change as it was, at the clock
/// reading `now`. Gives what is to be said of it.
pub fn invalidate_leases_at(
    leases: &mut LeaseStore,
    now: u128,
    old_config: &Config,
    new_config: &Config,
) -> (r: Vec<String>)
    ensures
        final(leases)@ == surviving(
            store::live(old(leases)@, now as int),
            old_config@,
            new_config@,
            old_config@.rules.len() as int,
        ),
        text::texts(r@) == change_lines(
            store::live(old(leases)@, now as int),
            old_config@,
            new_config@,
            old_config@.rules.len() as int,
        ),
{
    let mut lines: Vec<String> = Vec::new();
    leases.purge_at(now);
    let ghost s = leases@;
    let ghost o = old_config@;
    let ghost n = new_config@;
    proof {
        lists::filter_keeps_all(s, |l: LeaseView| !name_moved(o, n, l.binding.scope, 0));
    }
    assert(text::texts(lines@) =~= Seq::empty());
    let mut i: usize = 0;
    while i < old_config.rules.len()
        invariant
            i <= old_config.rules.len(),
            o == old_config@,
            n == new_config@,
            leases@ == surviving(s, o, n, i as int),
            text::texts(lines@) == change_lines(s, o, n, i as int),
        decreases old_config.rules.len() - i,
    {
        let rule = &old_config.rules[i];
        let ghost left = leases@;
        let ghost keep = |l: LeaseView| !name_moved(o, n, l.binding.scope, i as int);
        let ghost next = |l: LeaseView| !name_moved(o, n, l.binding.scope, i + 1);
        assert(o.rules[i as int] == rule@);
        if has_moved(old_config, new_config, rule) {
            let killed: usize = leases.revoke_scope(rule.name.as_str());
            proof {
                let other = |l: LeaseView| l.binding.scope != rule@.name;
                lists::filter_twice(s, keep, other);
                one_more_moved(o, n, i as int);
                assert((|l: LeaseView| keep(l) && other(l)) =~= next);
            }
            if killed > 0 {
                let ghost before = text::texts(lines@);
                let mut line = String::new();
                line.append("sigil daemon: config changed under rule '");
                line.append(rule.name.as_str());
                line.append("'; revoked ");
                text::push_decimal(&mut line, killed as u128);
                line.append(" lease(s) (any cached values zeroized)");
                assert(line@ =~= revoked_text(rule@.name, killed as nat));
                lines.push(line);
                assert(text::texts(lines@) =~= before.push(revoked_text(rule@.name, killed as nat)));
            }
        } else {
            proof {
                one_more_moved(o, n, i as int);
                assert(keep =~= next);
            }
        }
        i += 1;
    }
    lines
}

/// Taking one more rule into account adds its name, where it moved.
proof fn one_more_moved(o: ConfigView, n: ConfigView, i: int)
    requires
        0 <= i < o.rules.len(),
    ensures
        forall|name: Seq<char>|
            #![trigger name_moved(o, n, name, i + 1)]
            name_moved(o, n, name, i + 1) <==> name_moved(o, n, name, i) || (o.rules[i].name == name
                && moved(o, n, o.rules[i])),
{
    assert forall|name: Seq<char>|
        #![trigger name_moved(o, n, name, i + 1)]
        name_moved(o, n, name, i + 1) <==> name_moved(o, n, name, i) || (o.rules[i].name == name
            && moved(o, n, o.rules[i])) by {
        if name_moved(o, n, name, i + 1) {
            let k = choose|k: int|
                0 <= k < i + 1 && (#[trigger] o.rules[k]).name == name && moved(o, n, o.rules[k]);
            if k < i {
                assert(name_moved(o, n, name, i));
            }
        }
        if name_moved(o, n, name, i) {
            let k = choose|k: int|
                0 <= k < i && (#[trigger] o.rules[k]).name == name && moved(o, n, o.rules[k]);
            assert(0 <= k < i + 1 && o.rules[k].name == name);
        }
    }
}

/// A lease outlives a change exactly where no rule of its name moved, so an edit
/// kills the windows of the rules it touches and no others.
pub proof fn a_change_ends_only_what_it_moved(
    s: Seq<LeaseView>,
    old_config: ConfigView,
    new_config: ConfigView,
    l: LeaseView,
)
    requires
        s.contains(l),
    ensures
        surviving(s, old_config, new_config, old_config.rules.len() as int).contains(l)
            <==> !name_moved(
            old_config,
            new_config,
            l.binding.scope,
            old_config.rules.len() as int,
        ),
{
    lists::filter_members(
        s,
        |l: LeaseView|
            !name_moved(old_config, new_config, l.binding.scope, old_config.rules.len() as int),
    );
}

/// Storing the config that is in force again ends no window.
pub proof fn a_change_of_nothing_ends_nothing(s: Seq<LeaseView>, c: ConfigView)
    ensures
        surviving(s, c, c, c.rules.len() as int) == s,
{
    assert forall|name: Seq<char>| !name_moved(c, c, name, c.rules.len() as int) by {
        if name_moved(c, c, name, c.rules.len() as int) {
            let k = choose|k: int|
                0 <= k < c.rules.len() && (#[trigger] c.rules[k]).name == name && moved(
                    c,
                    c,
                    c.rules[k],
                );
            assert(c.rules.contains(c.rules[k]));
        }
    }
    lists::filter_keeps_all(s, |l: LeaseView| !name_moved(c, c, l.binding.scope, c.rules.len() as int));
}

/// A rule that is gone, or rewritten in any field, or whose source was changed,
/// takes every window under its name with it.
pub proof fn a_moved_rule_keeps_no_window(
    s: Seq<LeaseView>,
    old_config: ConfigView,
    new_config: ConfigView,
    i: int,
    l: LeaseView,
)
    requires
        0 <= i < old_config.rules.len(),
        moved(old_config, new_config, old_config.rules[i]),
        l.binding.scope == old_config.rules[i].name,
    ensures
        !surviving(s, old_config, new_config, old_config.rules.len() as int).contains(l),
{
    let n = old_config.rules.len() as int;
    lists::filter_members(
        s,
        |l: LeaseView| !name_moved(old_config, new_config, l.binding.scope, n),
    );
    assert(name_moved(old_config, new_config, l.binding.scope, n));
}

/// A lease that was decided under an earlier generation answers no lookup under a
/// later one, whatever its rule says now.
pub proof fn an_earlier_decision_answers_no_later_lookup(
    s: Seq<LeaseView>,
    now: int,
    grant: Seq<u8>,
    binding: store::BindingView,
)
    requires
        forall|i: int|
            0 <= i < s.len() ==> (#[trigger] s[i]).binding.config_gen != binding.config_gen,
    ensures
        store::looked_up(s, now, grant, binding) is None,
{
    let l = store::live(s, now);
    lists::first_where_is_first(l, store::answers(grant, binding));
    lists::filter_members(s, |l: LeaseView| l.expires > now);
    let at = lists::first_where(l, store::answers(grant, binding));
    if at < l.len() {
        assert(l.contains(l[at]));
        let k = s.index_of(l[at]);
        assert(s[k].binding.config_gen != binding.config_gen);
    }
}

/// The source of this name stands at `at`, and none of the name before it.
pub open spec fn stands_at(c: ConfigView, name: Seq<char>, at: int) -> bool {
    &&& 0 <= at < c.sources.len()
    &&& c.sources[at].name == name
    &&& forall|j: int| 0 <= j < at ==> (#[trigger] c.sources[j]).name != name
}

/// No source has this name.
pub open spec fn no_source(c: ConfigView, name: Seq<char>) -> bool {
    forall|j: int| 0 <= j < c.sources.len() ==> (#[trigger] c.sources[j]).name != name
}

proof fn stands_where_named(c: ConfigView, name: Seq<char>, at: int)
    ensures
        stands_at(c, name, at) ==> config::source_named(c, name) == Some(c.sources[at]),
        no_source(c, name) <==> config::source_named(c, name) is None,
{
    let p = |s: SourceView| s.name == name;
    lists::first_where_is_first(c.sources, p);
    let k = lists::first_where(c.sources, p);
    if stands_at(c, name, at) {
        lists::first_where_is(c.sources, p, at);
    }
    if k < c.sources.len() {
        assert(p(c.sources[k]));
    } else {
        assert forall|j: int| 0 <= j < c.sources.len() implies (#[trigger] c.sources[j]).name
            != name by {
            assert(!p(c.sources[j]));
        }
    }
}

/// A window outlives a change of config only where each rule of its name is in the
/// new one with nothing about it changed, and the source that the rule names is there
/// with nothing about it changed. A change of the rule's match or action, or of the
/// source's provider, account, path, keys or plain variables, ends every window under
/// the rule; so does a source that went, or came.
pub proof fn a_changed_rule_or_source_ends_its_windows(
    s: Seq<LeaseView>,
    old_config: ConfigView,
    new_config: ConfigView,
    i: int,
    was: int,
    is: int,
    l: LeaseView,
)
    requires
        0 <= i < old_config.rules.len(),
        l.binding.scope == old_config.rules[i].name,
        surviving(s, old_config, new_config, old_config.rules.len() as int).contains(l),
    ensures
        ({
            let rule = old_config.rules[i];
            let name = rule.action.source;
            &&& s.contains(l)
            &&& exists|k: int|
                0 <= k < new_config.rules.len() && (#[trigger] new_config.rules[k]).name == rule.name
                    && new_config.rules[k].match_ == rule.match_ && new_config.rules[k].action.mode
                    == rule.action.mode && new_config.rules[k].action.source == rule.action.source
                    && new_config.rules[k].action.lease == rule.action.lease
                    && new_config.rules[k].action.timeout_sec == rule.action.timeout_sec
            &&& no_source(old_config, name) <==> no_source(new_config, name)
            &&& stands_at(old_config, name, was) && stands_at(new_config, name, is) ==> {
                let a = old_config.sources[was];
                let b = new_config.sources[is];
                &&& a.provider == b.provider
                &&& a.account == b.account
                &&& a.path == b.path
                &&& a.keys == b.keys
                &&& a.plain == b.plain
            }
        }),
{
    let rule = old_config.rules[i];
    let n = old_config.rules.len() as int;
    lists::filter_members(
        s,
        |l: LeaseView| !name_moved(old_config, new_config, l.binding.scope, n),
    );
    assert(!moved(old_config, new_config, rule)) by {
        if moved(old_config, new_config, rule) {
            assert(name_moved(old_config, new_config, l.binding.scope, n));
        }
    }
    let k = new_config.rules.index_of(rule);
    assert(new_config.rules[k] == rule);
    stands_where_named(old_config, rule.action.source, was);
    stands_where_named(new_config, rule.action.source, is);
}

/// A window whose rule and source a change leaves as they are outlives it, and so
/// does one under a name that no rule had.
pub proof fn an_untouched_window_outlives_a_change(
    s: Seq<LeaseView>,
    old_config: ConfigView,
    new_config: ConfigView,
    l: LeaseView,
)
    requires
        s.contains(l),
        forall|i: int|
            0 <= i < old_config.rules.len() && (#[trigger] old_config.rules[i]).name
                == l.binding.scope ==> new_config.rules.contains(old_config.rules[i]),
        old_config.sources == new_config.sources || forall|i: int|
            0 <= i < old_config.rules.len() ==> (#[trigger] old_config.rules[i]).name
                != l.binding.scope,
    ensures
        surviving(s, old_config, new_config, old_config.rules.len() as int).contains(l),
{
    let n = old_config.rules.len() as int;
    lists::filter_members(
        s,
        |l: LeaseView| !name_moved(old_config, new_config, l.binding.scope, n),
    );
    if name_moved(old_config, new_config, l.binding.scope, n) {
        let k = choose|k: int|
            0 <= k < n && (#[trigger] old_config.rules[k]).name == l.binding.scope && moved(
                old_config,
                new_config,
                old_config.rules[k],
            );
        assert(old_config.rules[k].name == l.binding.scope);
    }
}

/// Ending windows is never silent, and nothing is said where none ended: there are
/// lines exactly where fewer windows are left, at most one for each rule.
pub proof fn every_ended_window_is_announced(
    s: Seq<LeaseView>,
    old_config: ConfigView,
    new_config: ConfigView,
    among: int,
)
    requires
        0 <= among <= old_config.rules.len(),
    ensures
        change_lines(s, old_config, new_config, among).len() > 0 <==> surviving(
            s,
            old_config,
            new_config,
            among,
        ).len() < s.len(),
        change_lines(s, old_config, new_config, among).len() <= among,
        surviving(s, old_config, new_config, among).len() <= s.len(),
    decreases among,
{
    let o = old_config;
    let n = new_config;
    if among == 0 {
        lists::filter_keeps_all(s, |l: LeaseView| !name_moved(o, n, l.binding.scope, 0));
    } else {
        let i = among - 1;
        every_ended_window_is_announced(s, o, n, i);
        let rule = o.rules[i];
        let left = surviving(s, o, n, i);
        let keep = |l: LeaseView| !name_moved(o, n, l.binding.scope, i);
        let next = |l: LeaseView| !name_moved(o, n, l.binding.scope, among);
        let other = |l: LeaseView| l.binding.scope != rule.name;
        one_more_moved(o, n, i);
        if moved(o, n, rule) {
            lists::filter_twice(s, keep, other);
            assert((|l: LeaseView| keep(l) && other(l)) =~= next);
            lists::filter_members(left, other);
        } else {
            assert(keep =~= next);
        }
    }
}

/// A line says which rule it is about and how many windows it cost.
pub proof fn a_line_names_its_rule_and_count(
    s: Seq<LeaseView>,
    old_config: ConfigView,
    new_config: ConfigView,
    i: int,
)
    requires
        0 <= i < old_config.rules.len(),
        change_lines(s, old_config, new_config, i + 1) != change_lines(s, old_config, new_config, i),
    ensures
        ({
            let lines = change_lines(s, old_config, new_config, i + 1);
            let before = surviving(s, old_config, new_config, i);
            let after = surviving(s, old_config, new_config, i + 1);
            &&& lines.drop_last() == change_lines(s, old_config, new_config, i)
            &&& lines.last() == "sigil daemon: config changed under rule '"@
                + old_config.rules[i].name + "'; revoked "@ + text::decimal(
                (before.len() - after.len()) as nat,
            ) + " lease(s) (any cached values zeroized)"@
            &&& before.len() > after.len()
        }),
{
    let o = old_config;
    let n = new_config;
    let rule = o.rules[i];
    let left = surviving(s, o, n, i);
    let keep = |l: LeaseView| !name_moved(o, n, l.binding.scope, i);
    let next = |l: LeaseView| !name_moved(o, n, l.binding.scope, i + 1);
    let other = |l: LeaseView| l.binding.scope != rule.name;
    one_more_moved(o, n, i);
    lists::filter_twice(s, keep, other);
    assert((|l: LeaseView| keep(l) && other(l)) =~= next);
    let before = change_lines(s, o, n, i);
    assert(change_lines(s, o, n, i + 1).drop_last() =~= before);
}

/// A window that is left after a change of config was open before, and not over; and
/// where a rule of its name was in the earlier config, the later one has that rule with
/// nothing about it changed, and the source that the rule names with nothing about it
/// changed either.
pub proof fn what_a_change_leaves_open_is_untouched(
    leases: &mut LeaseStore,
    now: u128,
    old_config: &Config,
    new_config: &Config,
    r: Vec<String>,
    l: LeaseView,
    i: int,
    was: int,
    is: int,
)
    requires
        call_ensures(invalidate_leases_at, (leases, now, old_config, new_config), r),
        final(leases)@.contains(l),
    ensures
        old(leases)@.contains(l),
        l.expires > now,
        0 <= i < old_config@.rules.len() && old_config@.rules[i].name == l.binding.scope ==> {
            let rule = old_config@.rules[i];
            let name = rule.action.source;
            &&& new_config@.rules.contains(rule)
            &&& no_source(old_config@, name) <==> no_source(new_config@, name)
            &&& stands_at(old_config@, name, was) && stands_at(new_config@, name, is)
                ==> old_config@.sources[was] == new_config@.sources[is]
        },
{
    let o = old_config@;
    let n = new_config@;
    let s = store::live(old(leases)@, now as int);
    let count = o.rules.len() as int;
    lists::filter_members(old(leases)@, |l: LeaseView| l.expires > now as int);
    lists::filter_members(s, |l: LeaseView| !name_moved(o, n, l.binding.scope, count));
    assert(s.contains(l));
    if 0 <= i < count && o.rules[i].name == l.binding.scope {
        let rule = o.rules[i];
        assert(!moved(o, n, rule)) by {
            if moved(o, n, rule) {
                assert(name_moved(o, n, l.binding.scope, count));
            }
        }
        stands_where_named(o, rule.action.source, was);
        stands_where_named(n, rule.action.source, is);
    }
}

} // verus!
