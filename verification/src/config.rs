//! The rule engine: which invocations are gated, and what they inject.
//!
//! An invocation is matched against an ordered list of rules; the first whose
//! conditions hold selects an action, which names a source to inject from and a
//! lease policy to gate under. An unmatched invocation is refused and never run
//! ungated.
pub mod conditions;
pub mod coverage;
pub mod files;
pub mod laws;
pub mod names;

pub use conditions::{FlagEq, Match};
pub use names::{secret_looking_name, PlainVars};

use crate::config::conditions::MatchView;
use crate::lists;
use crate::policy::{LeasePolicy, PolicyView};
use crate::text;
use vstd::prelude::*;

verus! {

/// The config schema version.
pub const VERSION: u32 = 1;

/// The id of the provider for 1Password.
pub const OP_PROVIDER: &'static str = "1password";

/// The id of the provider for inline sealed values.
pub const ENV_PROVIDER: &'static str = "env";

/// A named provider configuration that a rule injects from.
#[derive(Debug, Clone, PartialEq, Eq)]
pub struct Source {
    /// Unique id that a rule's action names.
    pub name: String,
    /// Provider id.
    pub provider: String,
    /// The account label to route.
    pub account: Option<String>,
    /// The file whose values are injected.
    pub path: Option<String>,
    /// The names of the variables whose sealed values are injected. Names only,
    /// never values.
    pub keys: Vec<String>,
    /// Variables that are no secrets, injected verbatim. A sealed one of the same
    /// name wins.
    pub plain: PlainVars,
}

/// A source as plain values.
#[verifier::ext_equal]
pub struct SourceView {
    pub name: Seq<char>,
    pub provider: Seq<char>,
    pub account: Option<Seq<char>>,
    pub path: Option<Seq<char>>,
    pub keys: Seq<Seq<char>>,
    pub plain: Seq<(Seq<char>, Seq<char>)>,
}

impl View for Source {
    type V = SourceView;

    open spec fn view(&self) -> SourceView {
        SourceView {
            name: self.name@,
            provider: self.provider@,
            account: text::maybe_text(self.account),
            path: text::maybe_text(self.path),
            keys: text::texts(self.keys@),
            plain: self.plain@,
        }
    }
}

impl Source {
    /// The plain variables as name and value, in the order of their names.
    pub fn plain_pairs(&self) -> (r: Vec<(String, String)>)
        ensures
            names::pair_texts(r@) == self@.plain,
            names::names_ascend(self@.plain),
    {
        self.plain.pairs()
    }

    /// Whether two sources are the same.
    pub fn same(&self, other: &Source) -> (r: bool)
        ensures
            r == (self@ == other@),
    {
        self.name == other.name && self.provider == other.provider && text::same_maybe(
            &self.account,
            &other.account,
        ) && text::same_maybe(&self.path, &other.path) && text::same_list(
            self.keys.as_slice(),
            other.keys.as_slice(),
        ) && self.plain.same(&other.plain)
    }
}

/// Whether a matched rule gates its command or lets it through.
#[derive(Debug, Clone, Copy, PartialEq, Eq, Structural)]
pub enum RuleMode {
    /// Approve, then inject the named source, under the lease policy.
    Gate,
    /// Run the matched command directly, ungated and uninjected.
    Allow,
}

impl Default for RuleMode {
    /// A missing mode gates.
    fn default() -> (r: RuleMode)
        ensures
            r == RuleMode::Gate,
    {
        RuleMode::Gate
    }
}

impl RuleMode {
    pub fn is_gate(&self) -> (r: bool)
        ensures
            r == (*self == RuleMode::Gate),
    {
        matches!(self, RuleMode::Gate)
    }

    pub fn is_allow(&self) -> (r: bool)
        ensures
            r == (*self == RuleMode::Allow),
    {
        matches!(self, RuleMode::Allow)
    }
}

/// What to do on a match.
#[derive(Debug, Clone, PartialEq, Eq)]
pub struct Action {
    pub mode: RuleMode,
    /// The name of the source to inject from; empty for an allow rule.
    pub source: String,
    /// Whether an approval may also open a window. The policy's label is derived
    /// from the match when a rule is resolved; what is stored here is ignored.
    pub lease: LeasePolicy,
    /// The approval timeout in seconds, where the rule sets one.
    pub timeout_sec: Option<u32>,
}

/// An action as plain values.
#[verifier::ext_equal]
pub struct ActionView {
    pub mode: RuleMode,
    pub source: Seq<char>,
    pub lease: PolicyView,
    pub timeout_sec: Option<u32>,
}

impl View for Action {
    type V = ActionView;

    open spec fn view(&self) -> ActionView {
        ActionView {
            mode: self.mode,
            source: self.source@,
            lease: self.lease@,
            timeout_sec: self.timeout_sec,
        }
    }
}

/// One rule: a match paired with the action to take when it holds.
#[derive(Debug, Clone, PartialEq, Eq)]
pub struct Rule {
    /// Unique label.
    pub name: String,
    pub match_: Match,
    pub action: Action,
}

/// A rule as plain values.
#[verifier::ext_equal]
pub struct RuleView {
    pub name: Seq<char>,
    pub match_: MatchView,
    pub action: ActionView,
}

impl View for Rule {
    type V = RuleView;

    open spec fn view(&self) -> RuleView {
        RuleView { name: self.name@, match_: self.match_@, action: self.action@ }
    }
}

impl Rule {
    /// Whether two rules are the same in every field.
    pub fn same(&self, other: &Rule) -> (r: bool)
        ensures
            r == (self@ == other@),
    {
        self.name == other.name && self.match_.same(&other.match_) && self.action.mode
            == other.action.mode && self.action.source == other.action.source
            && self.action.lease.same(&other.action.lease) && same_timeout(
            self.action.timeout_sec,
            other.action.timeout_sec,
        )
    }
}

fn same_timeout(a: Option<u32>, b: Option<u32>) -> (r: bool)
    ensures
        r == (a == b),
{
    match (a, b) {
        (Some(x), Some(y)) => x == y,
        (None, None) => true,
        _ => false,
    }
}

/// What [`Config::resolve`] decides for a matched invocation.
#[derive(Debug, Clone, PartialEq, Eq)]
pub enum Resolution {
    /// Run the matched command directly. Carries the rule's name for the audit
    /// line only.
    Allow { rule: String },
    /// Approve, then inject and run.
    Gate(ResolvedAction),
}

/// A gate decision: the matched rule flattened with its source.
#[derive(Debug, Clone, PartialEq, Eq)]
pub struct ResolvedAction {
    pub rule: String,
    pub provider: String,
    /// The source's name, under which its sealed values are stored.
    pub source_name: String,
    pub source_path: Option<String>,
    pub account: Option<String>,
    /// The names of the sealed variables. Names only, never values.
    pub env_keys: Vec<String>,
    /// The source's variables that are no secrets.
    pub plain_env: Vec<(String, String)>,
    /// The rule's lease policy, with the label rendered from this rule's match.
    pub lease: LeasePolicy,
    pub timeout_sec: Option<u32>,
}

/// A gate decision as plain values.
#[verifier::ext_equal]
pub struct ResolvedView {
    pub rule: Seq<char>,
    pub provider: Seq<char>,
    pub source_name: Seq<char>,
    pub source_path: Option<Seq<char>>,
    pub account: Option<Seq<char>>,
    pub env_keys: Seq<Seq<char>>,
    pub plain_env: Seq<(Seq<char>, Seq<char>)>,
    pub lease: PolicyView,
    pub timeout_sec: Option<u32>,
}

impl View for ResolvedAction {
    type V = ResolvedView;

    open spec fn view(&self) -> ResolvedView {
        ResolvedView {
            rule: self.rule@,
            provider: self.provider@,
            source_name: self.source_name@,
            source_path: text::maybe_text(self.source_path),
            account: text::maybe_text(self.account),
            env_keys: text::texts(self.env_keys@),
            plain_env: names::pair_texts(self.plain_env@),
            lease: self.lease@,
            timeout_sec: self.timeout_sec,
        }
    }
}

/// A decision as plain values.
#[verifier::ext_equal]
pub enum ResolutionView {
    Allow { rule: Seq<char> },
    Gate(ResolvedView),
}

impl View for Resolution {
    type V = ResolutionView;

    open spec fn view(&self) -> ResolutionView {
        match self {
            Resolution::Allow { rule } => ResolutionView::Allow { rule: rule@ },
            Resolution::Gate(a) => ResolutionView::Gate(a@),
        }
    }
}

/// The whole config: an ordered rule list and the sources that the rules name.
#[derive(Debug, Clone, PartialEq, Eq)]
pub struct Config {
    pub version: u32,
    pub sources: Vec<Source>,
    pub rules: Vec<Rule>,
}

/// A config as plain values.
#[verifier::ext_equal]
pub struct ConfigView {
    pub version: u32,
    pub sources: Seq<SourceView>,
    pub rules: Seq<RuleView>,
}

impl View for Config {
    type V = ConfigView;

    open spec fn view(&self) -> ConfigView {
        ConfigView {
            version: self.version,
            sources: lists::views(self.sources@),
            rules: lists::views(self.rules@),
        }
    }
}

impl Default for Config {
    /// No sources and no rules.
    fn default() -> (r: Config)
        ensures
            r@ == empty_config(),
    {
        let r = Config { version: VERSION, sources: Vec::new(), rules: Vec::new() };
        assert(r@ =~= empty_config());
        r
    }
}

/// A config without sources and rules.
pub open spec fn empty_config() -> ConfigView {
    ConfigView { version: VERSION, sources: Seq::empty(), rules: Seq::empty() }
}

/// The source of a given name: the first in the list.
pub open spec fn source_named(c: ConfigView, name: Seq<char>) -> Option<SourceView> {
    let at = lists::first_where(c.sources, |s: SourceView| s.name == name);
    if at < c.sources.len() {
        Some(c.sources[at])
    } else {
        None
    }
}

/// A gate rule flattened with its source. The label is rendered from the rule's
/// own conditions, never read from the stored policy.
pub open spec fn flattened(rule: RuleView, src: SourceView) -> ResolvedView {
    ResolvedView {
        rule: rule.name,
        provider: src.provider,
        source_name: src.name,
        source_path: src.path,
        account: src.account,
        env_keys: src.keys,
        plain_env: src.plain,
        lease: rule.action.lease.with_covers(coverage::coverage_text(rule.match_)),
        timeout_sec: rule.action.timeout_sec,
    }
}

/// What a rule that matches decides: an allow rule passes; a gate rule takes its
/// source, and refuses where there is none.
pub open spec fn decided(c: ConfigView, rule: RuleView) -> Option<ResolutionView> {
    if rule.action.mode == RuleMode::Allow {
        Some(ResolutionView::Allow { rule: rule.name })
    } else {
        match source_named(c, rule.action.source) {
            None => None,
            Some(src) => Some(ResolutionView::Gate(flattened(rule, src))),
        }
    }
}

/// What a config decides for an invocation: what its first matching rule
/// decides, and a refusal where no rule matches.
pub open spec fn resolved(c: ConfigView, argv: Seq<Seq<char>>) -> Option<ResolutionView> {
    let at = lists::first_where(c.rules, |r: RuleView| conditions::holds(r.match_, argv));
    if at < c.rules.len() {
        decided(c, c.rules[at])
    } else {
        None
    }
}

impl Match {
    /// Whether two matches carry the same conditions.
    pub fn same(&self, other: &Match) -> (r: bool)
        ensures
            r == (self@ == other@),
    {
        text::same_maybe(&self.command, &other.command) && text::same_maybe(
            &self.subcommand,
            &other.subcommand,
        ) && text::same_list(self.argv_contains.as_slice(), other.argv_contains.as_slice())
            && text::same_list(self.flag_present.as_slice(), other.flag_present.as_slice())
            && same_flag_eqs(self.flag_equals.as_slice(), other.flag_equals.as_slice())
            && text::same_maybe(&self.arg_regex, &other.arg_regex)
    }
}

fn same_flag_eqs(a: &[FlagEq], b: &[FlagEq]) -> (r: bool)
    ensures
        r == (conditions::flag_eqs(a@) == conditions::flag_eqs(b@)),
{
    let ghost x = conditions::flag_eqs(a@);
    let ghost y = conditions::flag_eqs(b@);
    if a.len() != b.len() {
        assert(x.len() != y.len());
        return false;
    }
    let mut i: usize = 0;
    while i < a.len()
        invariant
            i <= a.len(),
            a@.len() == b@.len(),
            x == conditions::flag_eqs(a@),
            y == conditions::flag_eqs(b@),
            forall|k: int| 0 <= k < i ==> x[k] == y[k],
        decreases a.len() - i,
    {
        if a[i].flag != b[i].flag || a[i].value != b[i].value {
            assert(x[i as int] != y[i as int]);
            return false;
        }
        assert(x[i as int] =~= y[i as int]);
        i += 1;
    }
    assert(x =~= y);
    true
}

/// A source of this name is there already.
pub open spec fn source_exists_text(name: Seq<char>) -> Seq<char> {
    "source "@ + name + " already exists (remove it first to replace)"@
}

/// A rule still names the source.
pub open spec fn source_used_text(name: Seq<char>, rule: Seq<char>) -> Seq<char> {
    "source "@ + name + " is still used by rule "@ + rule + "; remove the rule first"@
}

/// Why a rule may not join a config, or `None` where it may: the first of the
/// reasons in this order.
pub open spec fn rule_refusal(c: ConfigView, rule: RuleView) -> Option<Seq<char>> {
    if exists|i: int| 0 <= i < c.rules.len() && (#[trigger] c.rules[i]).name == rule.name {
        Some("rule "@ + rule.name + " already exists (remove it first to replace)"@)
    } else if rule.match_ == conditions::no_conditions() {
        Some("a rule needs at least one match condition"@)
    } else if rule.action.mode == RuleMode::Allow {
        if rule.action.source.len() > 0 {
            Some("allow rule "@ + rule.name + " must not name a source (it injects nothing)"@)
        } else if rule.action.lease is Leasable {
            Some("allow rule "@ + rule.name + " cannot be leasable (it never gates)"@)
        } else {
            None
        }
    } else if rule.action.source.len() == 0 {
        Some("gate rule "@ + rule.name + " needs a --source"@)
    } else if source_named(c, rule.action.source) is None {
        Some("rule "@ + rule.name + " references unknown source "@ + rule.action.source)
    } else {
        None
    }
}

/// The rules that name a source.
pub open spec fn uses_source(name: Seq<char>) -> spec_fn(RuleView) -> bool {
    |r: RuleView| r.action.source == name
}

fn said(a: &str, b: &str, c: &str) -> (r: String)
    ensures
        r@ == a@ + b@ + c@,
{
    let mut s = a.to_owned();
    s.append(b);
    s.append(c);
    s
}

impl Config {
    /// The source named `name`, if there is one.
    pub fn source(&self, name: &str) -> (r: Option<&Source>)
        ensures
            match r {
                Some(s) => source_named(self@, name@) == Some(s@),
                None => source_named(self@, name@) is None,
            },
    {
        let ghost p = |s: SourceView| s.name == name@;
        let mut i: usize = 0;
        while i < self.sources.len()
            invariant
                i <= self.sources.len(),
                p == (|s: SourceView| s.name == name@),
                forall|k: int| 0 <= k < i ==> !p(#[trigger] self@.sources[k]),
            decreases self.sources.len() - i,
        {
            if text::same(self.sources[i].name.as_str(), name) {
                assert(p(self@.sources[i as int]));
                proof {
                    lists::first_where_is(self@.sources, p, i as int);
                }
                return Some(&self.sources[i]);
            }
            assert(!p(self@.sources[i as int]));
            i += 1;
        }
        proof {
            lists::first_where_is(self@.sources, p, i as int);
        }
        None
    }

    /// Whether some rule is anchored on the command `cmd`. A rule that matches
    /// without naming a command is not counted.
    pub fn gates_command(&self, cmd: &str) -> (r: bool)
        ensures
            r == exists|i: int|
                0 <= i < self@.rules.len() && (#[trigger] self@.rules[i]).match_.command == Some(
                    cmd@,
                ),
    {
        let mut i: usize = 0;
        while i < self.rules.len()
            invariant
                i <= self.rules.len(),
                forall|k: int|
                    0 <= k < i ==> (#[trigger] self@.rules[k]).match_.command != Some(cmd@),
            decreases self.rules.len() - i,
        {
            let found = match &self.rules[i].match_.command {
                Some(c) => text::same(c.as_str(), cmd),
                None => false,
            };
            if found {
                assert(self@.rules[i as int].match_.command == Some(cmd@));
                return true;
            }
            i += 1;
        }
        false
    }

    /// Resolve the first rule that matches `argv`. `None` means refuse: no rule
    /// matches, or the one that matches gates from a source that is gone. A
    /// broken rule never falls through to a later, broader one.
    pub fn resolve(&self, argv: &[String]) -> (r: Option<Resolution>)
        ensures
            match r {
                Some(d) => resolved(self@, text::texts(argv@)) == Some(d@),
                None => resolved(self@, text::texts(argv@)) is None,
            },
    {
        let ghost t = text::texts(argv@);
        let ghost p = |r: RuleView| conditions::holds(r.match_, t);
        let mut i: usize = 0;
        while i < self.rules.len()
            invariant
                i <= self.rules.len(),
                t == text::texts(argv@),
                p == (|r: RuleView| conditions::holds(r.match_, t)),
                forall|k: int| 0 <= k < i ==> !p(#[trigger] self@.rules[k]),
            decreases self.rules.len() - i,
        {
            let rule = &self.rules[i];
            if rule.match_.matches(argv) {
                assert(p(self@.rules[i as int]));
                proof {
                    lists::first_where_is(self@.rules, p, i as int);
                }
                if rule.action.mode.is_allow() {
                    return Some(Resolution::Allow { rule: rule.name.clone() });
                }
                match self.source(rule.action.source.as_str()) {
                    None => {
                        return None;
                    },
                    Some(src) => {
                        let label = rule.match_.coverage();
                        let a = ResolvedAction {
                            rule: rule.name.clone(),
                            provider: src.provider.clone(),
                            source_name: src.name.clone(),
                            source_path: text::copy_maybe(&src.path),
                            account: text::copy_maybe(&src.account),
                            env_keys: text::copy_list(src.keys.as_slice()),
                            plain_env: src.plain_pairs(),
                            lease: rule.action.lease.duplicate().with_covers(label.as_str()),
                            timeout_sec: rule.action.timeout_sec,
                        };
                        assert(a@ =~= flattened(rule@, src@));
                        return Some(Resolution::Gate(a));
                    },
                }
            }
            assert(!p(self@.rules[i as int]));
            i += 1;
        }
        proof {
            lists::first_where_is(self@.rules, p, i as int);
        }
        None
    }

    /// Add a source, unless one of its name is there.
    pub fn add_source(&mut self, src: Source) -> (r: Result<(), String>)
        ensures
            match r {
                Ok(_) => source_named(old(self)@, src@.name) is None && final(self)@ == (ConfigView {
                    version: old(self)@.version,
                    sources: old(self)@.sources.push(src@),
                    rules: old(self)@.rules,
                }),
                Err(e) => source_named(old(self)@, src@.name) is Some && final(self)@ == old(self)@
                    && e@ == source_exists_text(src@.name),
            },
    {
        let taken = self.source(src.name.as_str()).is_some();
        if taken {
            return Err(
                said(
                    "source ",
                    src.name.as_str(),
                    " already exists (remove it first to replace)",
                ),
            );
        }
        let ghost before = self@;
        let ghost shown = src@;
        self.sources.push(src);
        assert(self@.sources =~= before.sources.push(shown));
        Ok(())
    }

    /// Remove the source named `name`; returns whether there was one. Refused
    /// while a rule still names it.
    pub fn remove_source(&mut self, name: &str) -> (r: Result<bool, String>)
        ensures
            ({
                let at = lists::first_where(old(self)@.rules, uses_source(name@));
                match r {
                    Ok(gone) => {
                        &&& at >= old(self)@.rules.len()
                        &&& final(self)@ == (ConfigView {
                            version: old(self)@.version,
                            sources: old(self)@.sources.filter(|s: SourceView| s.name != name@),
                            rules: old(self)@.rules,
                        })
                        &&& gone == (source_named(old(self)@, name@) is Some)
                    },
                    Err(e) => {
                        &&& 0 <= at < old(self)@.rules.len()
                        &&& final(self)@ == old(self)@
                        &&& e@ == source_used_text(name@, old(self)@.rules[at].name)
                    },
                }
            }),
    {
        let ghost p = uses_source(name@);
        let ghost start = self@;
        let mut i: usize = 0;
        while i < self.rules.len()
            invariant
                i <= self.rules.len(),
                *self == *old(self),
                p == uses_source(name@),
                forall|k: int| 0 <= k < i ==> !p(#[trigger] self@.rules[k]),
            decreases self.rules.len() - i,
        {
            if text::same(self.rules[i].action.source.as_str(), name) {
                assert(p(self@.rules[i as int]));
                proof {
                    lists::first_where_is(self@.rules, p, i as int);
                }
                let mut e = said("source ", name, " is still used by rule ");
                e.append(self.rules[i].name.as_str());
                e.append("; remove the rule first");
                return Err(e);
            }
            assert(!p(self@.rules[i as int]));
            i += 1;
        }
        proof {
            lists::first_where_is(self@.rules, p, i as int);
        }
        let gone = self.source(name).is_some();
        let keep = |s: &Source| -> (b: bool)
            ensures
                b == (s@.name != name@),
            { !text::same(s.name.as_str(), name) };
        lists::retain(&mut self.sources, keep, Ghost(|s: SourceView| s.name != name@));
        Ok(gone)
    }

    /// Add a rule, unless it is refused: see [`rule_refusal`] for the reasons.
    pub fn add_rule(&mut self, rule: Rule) -> (r: Result<(), String>)
        ensures
            match r {
                Ok(_) => rule_refusal(old(self)@, rule@) is None && final(self)@ == (ConfigView {
                    version: old(self)@.version,
                    sources: old(self)@.sources,
                    rules: old(self)@.rules.push(rule@),
                }),
                Err(e) => rule_refusal(old(self)@, rule@) == Some(e@) && final(self)@ == old(self)@,
            },
    {
        let mut i: usize = 0;
        while i < self.rules.len()
            invariant
                i <= self.rules.len(),
                *self == *old(self),
                forall|k: int| 0 <= k < i ==> (#[trigger] self@.rules[k]).name != rule@.name,
            decreases self.rules.len() - i,
        {
            if self.rules[i].name == rule.name {
                assert(self@.rules[i as int].name == rule@.name);
                return Err(
                    said(
                        "rule ",
                        rule.name.as_str(),
                        " already exists (remove it first to replace)",
                    ),
                );
            }
            i += 1;
        }
        if rule.match_.is_empty() {
            return Err("a rule needs at least one match condition".to_owned());
        }
        if rule.action.mode.is_allow() {
            if !rule.action.source.as_str().is_empty() {
                return Err(
                    said(
                        "allow rule ",
                        rule.name.as_str(),
                        " must not name a source (it injects nothing)",
                    ),
                );
            }
            if rule.action.lease.is_leasable() {
                return Err(
                    said("allow rule ", rule.name.as_str(), " cannot be leasable (it never gates)"),
                );
            }
        } else {
            if rule.action.source.as_str().is_empty() {
                return Err(said("gate rule ", rule.name.as_str(), " needs a --source"));
            }
            let known = self.source(rule.action.source.as_str()).is_some();
            if !known {
                let mut e = said("rule ", rule.name.as_str(), " references unknown source ");
                e.append(rule.action.source.as_str());
                return Err(e);
            }
        }
        let ghost before = self@;
        let ghost shown = rule@;
        self.rules.push(rule);
        assert(self@.rules =~= before.rules.push(shown));
        Ok(())
    }

    /// Remove the rule named `name`; returns whether there was one.
    pub fn remove_rule(&mut self, name: &str) -> (r: bool)
        ensures
            final(self)@ == (ConfigView {
                version: old(self)@.version,
                sources: old(self)@.sources,
                rules: old(self)@.rules.filter(|x: RuleView| x.name != name@),
            }),
            r == exists|i: int|
                0 <= i < old(self)@.rules.len() && (#[trigger] old(self)@.rules[i]).name == name@,
    {
        let ghost all = self@.rules;
        let ghost p = |x: RuleView| x.name != name@;
        let before: usize = self.rules.len();
        let keep = |x: &Rule| -> (b: bool)
            ensures
                b == (x@.name != name@),
            { !text::same(x.name.as_str(), name) };
        lists::retain(&mut self.rules, keep, Ghost(|x: RuleView| x.name != name@));
        proof {
            lists::filter_shrinks(all, p);
        }
        assert(self@.rules.len() == self.rules.len());
        self.rules.len() != before
    }
}

/// A per-command entry of the store that came before rules.
#[derive(Debug, Clone, PartialEq, Eq)]
pub struct LegacyCommand {
    pub command: String,
    pub provider: String,
    pub source: Option<String>,
    pub account: Option<String>,
}

/// A per-command entry as plain values.
#[verifier::ext_equal]
pub struct LegacyView {
    pub command: Seq<char>,
    pub provider: Seq<char>,
    pub source: Option<Seq<char>>,
    pub account: Option<Seq<char>>,
}

impl View for LegacyCommand {
    type V = LegacyView;

    open spec fn view(&self) -> LegacyView {
        LegacyView {
            command: self.command@,
            provider: self.provider@,
            source: text::maybe_text(self.source),
            account: text::maybe_text(self.account),
        }
    }
}

/// A store of per-command entries.
#[derive(Debug, Clone, PartialEq, Eq)]
pub struct LegacyStore {
    pub commands: Vec<LegacyCommand>,
}

/// The source that a per-command entry becomes.
pub open spec fn legacy_source(c: LegacyView) -> SourceView {
    SourceView {
        name: c.command,
        provider: c.provider,
        account: c.account,
        path: c.source,
        keys: Seq::empty(),
        plain: Seq::empty(),
    }
}

/// The rule that a per-command entry becomes: the bare command, gated run-once.
pub open spec fn legacy_rule(command: Seq<char>) -> RuleView {
    RuleView {
        name: command,
        match_: MatchView {
            command: Some(command),
            subcommand: None,
            argv_contains: Seq::empty(),
            flag_present: Seq::empty(),
            flag_equals: Seq::empty(),
            arg_regex: None,
        },
        action: ActionView {
            mode: RuleMode::Gate,
            source: command,
            lease: PolicyView::RunOnce,
            timeout_sec: None,
        },
    }
}

/// A config with the historical `op` rule and source at the end.
pub open spec fn with_op_default(c: ConfigView) -> ConfigView {
    ConfigView {
        version: c.version,
        sources: c.sources.push(
            legacy_source(
                LegacyView { command: "op"@, provider: OP_PROVIDER@, source: None, account: None },
            ),
        ),
        rules: c.rules.push(legacy_rule("op"@)),
    }
}

/// The config that per-command entries become: a source and a rule for each, and
/// the historical `op` where none of them is for `op`.
pub open spec fn migrated(commands: Seq<LegacyView>) -> ConfigView {
    let c = ConfigView {
        version: VERSION,
        sources: Seq::new(commands.len(), |i: int| legacy_source(commands[i])),
        rules: Seq::new(commands.len(), |i: int| legacy_rule(commands[i].command)),
    };
    if exists|i: int| 0 <= i < commands.len() && (#[trigger] commands[i]).command == "op"@ {
        c
    } else {
        with_op_default(c)
    }
}

fn gate_rule_for(command: &str) -> (r: Rule)
    ensures
        r@ == legacy_rule(command@),
{
    let mut m = Match::default();
    m.command = Some(command.to_owned());
    let r = Rule {
        name: command.to_owned(),
        match_: m,
        action: Action {
            mode: RuleMode::Gate,
            source: command.to_owned(),
            lease: LeasePolicy::RunOnce,
            timeout_sec: None,
        },
    };
    assert(r@ =~= legacy_rule(command@));
    r
}

impl Config {
    /// Add the historical `op` rule and its source, without an account.
    pub fn add_op_default(&mut self)
        ensures
            final(self)@ == with_op_default(old(self)@),
    {
        let ghost before = self@;
        let src = Source {
            name: "op".to_owned(),
            provider: OP_PROVIDER.to_owned(),
            account: None,
            path: None,
            keys: Vec::new(),
            plain: PlainVars::new(),
        };
        let ghost shown = src@;
        assert(shown =~= legacy_source(
            LegacyView { command: "op"@, provider: OP_PROVIDER@, source: None, account: None },
        ));
        self.sources.push(src);
        self.rules.push(gate_rule_for("op"));
        assert(self@.sources =~= before.sources.push(shown));
        assert(self@.rules =~= before.rules.push(legacy_rule("op"@)));
    }

    /// Build a config from per-command entries. Every migrated rule is run-once.
    pub fn from_legacy(legacy: &LegacyStore) -> (r: Config)
        ensures
            r@ == migrated(lists::views(legacy.commands@)),
    {
        let ghost all = lists::views(legacy.commands@);
        let mut cfg = Config::default();
        let mut have_op = false;
        let mut i: usize = 0;
        while i < legacy.commands.len()
            invariant
                i <= legacy.commands.len(),
                all == lists::views(legacy.commands@),
                cfg@.version == VERSION,
                cfg@.sources == Seq::new(i as nat, |k: int| legacy_source(all[k])),
                cfg@.rules == Seq::new(i as nat, |k: int| legacy_rule(all[k].command)),
                have_op == exists|k: int| 0 <= k < i && (#[trigger] all[k]).command == "op"@,
            decreases legacy.commands.len() - i,
        {
            let c = &legacy.commands[i];
            assert(all[i as int] == c@);
            if text::same(c.command.as_str(), "op") {
                have_op = true;
            }
            let ghost before = cfg@;
            let src = Source {
                name: c.command.clone(),
                provider: c.provider.clone(),
                account: text::copy_maybe(&c.account),
                path: text::copy_maybe(&c.source),
                keys: Vec::new(),
                plain: PlainVars::new(),
            };
            let ghost shown = src@;
            assert(shown =~= legacy_source(all[i as int]));
            cfg.sources.push(src);
            cfg.rules.push(gate_rule_for(c.command.as_str()));
            assert(cfg@.sources =~= before.sources.push(shown));
            assert(cfg@.sources =~= Seq::new((i + 1) as nat, |k: int| legacy_source(all[k])));
            assert(cfg@.rules =~= before.rules.push(legacy_rule(all[i as int].command)));
            assert(cfg@.rules =~= Seq::new((i + 1) as nat, |k: int| legacy_rule(all[k].command)));
            i += 1;
        }
        if !have_op {
            cfg.add_op_default();
        }
        cfg
    }
}

/// A short label for a lease policy.
pub open spec fn lease_text(lease: PolicyView) -> Seq<char> {
    match lease {
        PolicyView::RunOnce => "run-once"@,
        PolicyView::Leasable { max_secs, covers } => "leasable("@ + text::decimal(max_secs as nat)
            + "s)"@,
    }
}

/// A short label for a lease policy, for lists.
pub fn lease_str(lease: &LeasePolicy) -> (r: String)
    ensures
        r@ == lease_text(lease@),
{
    match lease {
        LeasePolicy::RunOnce => "run-once".to_owned(),
        LeasePolicy::Leasable { max_secs, covers } => {
            let mut s = "leasable(".to_owned();
            text::push_decimal(&mut s, *max_secs as u128);
            s.append("s)");
            s
        },
    }
}

} // verus!
