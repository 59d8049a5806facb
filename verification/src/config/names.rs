//! Names of environment variables: the plain ones a source sets, and those that
//! look like a secret.
use crate::lists;
use crate::text;
use vstd::prelude::*;

verus! {

/// `c` in upper case, where it is an ASCII letter.
pub open spec fn ascii_upper(c: char) -> char {
    if 'a' as int <= c as int <= 'z' as int {
        (c as int - 32) as char
    } else {
        c
    }
}

/// `s` with its ASCII letters in upper case.
pub open spec fn upper(s: Seq<char>) -> Seq<char> {
    Seq::new(s.len(), |i: int| ascii_upper(s[i]))
}

/// An ASCII letter or digit.
pub open spec fn alphanumeric(c: char) -> bool {
    ('0' as int <= c as int <= '9' as int) || ('A' as int <= c as int <= 'Z' as int) || ('a' as int
        <= c as int <= 'z' as int)
}

/// `word` stands in `s` at `at` with no letter or digit on either side.
pub open spec fn stands_alone_at(s: Seq<char>, word: Seq<char>, at: int) -> bool {
    &&& text::occurs_at(s, word, at)
    &&& at == 0 || !alphanumeric(s[at - 1])
    &&& at + word.len() == s.len() || !alphanumeric(s[at + word.len()])
}

/// `word` is one of the segments that punctuation divides `s` into.
pub open spec fn has_segment(s: Seq<char>, word: Seq<char>) -> bool {
    exists|at: int| stands_alone_at(s, word, at)
}

/// What in a name looks like a secret: the first of these words that it
/// contains, in any case, or the acronym that is one of its segments.
pub open spec fn secret_word(name: Seq<char>) -> Option<Seq<char>> {
    let u = upper(name);
    if text::occurs_in(u, "TOKEN"@) {
        Some("TOKEN"@)
    } else if text::occurs_in(u, "SECRET"@) {
        Some("SECRET"@)
    } else if text::occurs_in(u, "PASSWORD"@) {
        Some("PASSWORD"@)
    } else if text::occurs_in(u, "KEY"@) {
        Some("KEY"@)
    } else if text::occurs_in(u, "CREDENTIAL"@) {
        Some("CREDENTIAL"@)
    } else if text::occurs_in(u, "APIKEY"@) {
        Some("APIKEY"@)
    } else if has_segment(u, "PAT"@) {
        Some("PAT"@)
    } else {
        None
    }
}

fn ascii_uppercase(name: &str) -> (r: Vec<char>)
    ensures
        r@ == upper(name@),
{
    let v = text::chars_of(name);
    let mut out: Vec<char> = Vec::new();
    let mut i: usize = 0;
    while i < v.len()
        invariant
            i <= v.len(),
            v@ == name@,
            out@ == upper(name@).take(i as int),
        decreases v.len() - i,
    {
        let c: char = v[i];
        let u: char = if 'a' <= c && c <= 'z' {
            let low: u8 = c as u8;
            (low - 32) as char
        } else {
            c
        };
        assert(u == ascii_upper(c));
        out.push(u);
        assert(out@ =~= upper(name@).take(i + 1));
        i += 1;
    }
    assert(upper(name@).take(i as int) =~= upper(name@));
    out
}

fn is_alphanumeric(c: char) -> (r: bool)
    ensures
        r == alphanumeric(c),
{
    ('0' <= c && c <= '9') || ('A' <= c && c <= 'Z') || ('a' <= c && c <= 'z')
}

fn has_word(u: &Vec<char>, word: &str) -> (r: bool)
    ensures
        r == text::occurs_in(u@, word@),
{
    let w = text::chars_of(word);
    text::found_in(u, &w)
}

fn segment_found(u: &Vec<char>, word: &str) -> (r: bool)
    ensures
        r == has_segment(u@, word@),
{
    let w = text::chars_of(word);
    let mut at: usize = 0;
    while at <= u.len()
        invariant
            at <= u.len() + 1,
            w@ == word@,
            forall|k: int| 0 <= k < at ==> !stands_alone_at(u@, word@, k),
        decreases u.len() + 1 - at,
    {
        if text::found_at(u, &w, at) {
            let end: usize = at + w.len();
            if (at == 0 || !is_alphanumeric(u[at - 1])) && (end == u.len() || !is_alphanumeric(
                u[end],
            )) {
                assert(stands_alone_at(u@, word@, at as int));
                return true;
            }
        }
        assert(!stands_alone_at(u@, word@, at as int));
        if at == u.len() {
            return false;
        }
        at += 1;
    }
    false
}

/// The secret-looking word in `name`, if any. A plain variable is stored in
/// cleartext, so a credential written into one would be published.
pub fn secret_looking_name(name: &str) -> (r: Option<&'static str>)
    ensures
        match r {
            Some(w) => secret_word(name@) == Some(w@),
            None => secret_word(name@) is None,
        },
{
    let u = ascii_uppercase(name);
    if has_word(&u, "TOKEN") {
        Some("TOKEN")
    } else if has_word(&u, "SECRET") {
        Some("SECRET")
    } else if has_word(&u, "PASSWORD") {
        Some("PASSWORD")
    } else if has_word(&u, "KEY") {
        Some("KEY")
    } else if has_word(&u, "CREDENTIAL") {
        Some("CREDENTIAL")
    } else if has_word(&u, "APIKEY") {
        Some("APIKEY")
    } else if segment_found(&u, "PAT") {
        Some("PAT")
    } else {
        None
    }
}

/// Names ascend, so that each occurs once.
pub open spec fn names_ascend(s: Seq<(Seq<char>, Seq<char>)>) -> bool {
    forall|i: int, j: int|
        0 <= i < j < s.len() ==> text::before((#[trigger] s[i]).0, (#[trigger] s[j]).0)
}

/// The variables with `name` set to `value`: in its place where it is there
/// already, and else where the order puts it.
pub open spec fn set_var(
    s: Seq<(Seq<char>, Seq<char>)>,
    name: Seq<char>,
    value: Seq<char>,
) -> Seq<(Seq<char>, Seq<char>)> {
    let at = lists::first_where(s, |p: (Seq<char>, Seq<char>)| !text::before(p.0, name));
    if at < s.len() && s[at].0 == name {
        s.update(at, (name, value))
    } else {
        s.insert(at, (name, value))
    }
}

/// The variables of a list of pairs; a later pair for a name replaces an earlier
/// one.
pub open spec fn vars_of(pairs: Seq<(Seq<char>, Seq<char>)>) -> Seq<(Seq<char>, Seq<char>)>
    decreases pairs.len(),
{
    if pairs.len() == 0 {
        Seq::empty()
    } else {
        set_var(vars_of(pairs.drop_last()), pairs.last().0, pairs.last().1)
    }
}

/// The plain values of a list of pairs.
pub open spec fn pair_texts(v: Seq<(String, String)>) -> Seq<(Seq<char>, Seq<char>)> {
    Seq::new(v.len(), |i: int| (v[i].0@, v[i].1@))
}

/// Setting a variable keeps the order, sets that name, and touches no other.
pub proof fn set_var_sets_one(
    s: Seq<(Seq<char>, Seq<char>)>,
    name: Seq<char>,
    value: Seq<char>,
)
    requires
        names_ascend(s),
    ensures
        names_ascend(set_var(s, name, value)),
        forall|k: Seq<char>, v: Seq<char>|
            #![trigger set_var(s, name, value).contains((k, v))]
            set_var(s, name, value).contains((k, v)) <==> (k == name && v == value) || (k != name
                && s.contains((k, v))),
{
    let p = |p: (Seq<char>, Seq<char>)| !text::before(p.0, name);
    lists::first_where_is_first(s, p);
    let at = lists::first_where(s, p);
    let t = set_var(s, name, value);
    let found = at < s.len() && s[at].0 == name;
    assert forall|i: int| 0 <= i < at implies text::before((#[trigger] s[i]).0, name) by {
        assert(!p(s[i]));
    }
    assert forall|i: int| at <= i < s.len() && !(found && i == at) implies text::before(
        name,
        (#[trigger] s[i]).0,
    ) by {
        assert(p(s[at]));
        text::before_is_total(s[at].0, name);
        if i > at {
            assert(text::before(s[at].0, s[i].0));
            if s[at].0 != name {
                text::before_is_transitive(name, s[at].0, s[i].0);
            }
        }
    }
    assert forall|i: int, j: int| 0 <= i < j < t.len() implies text::before(
        (#[trigger] t[i]).0,
        (#[trigger] t[j]).0,
    ) by {
        if found {
            assert(text::before(s[i].0, s[j].0));
        } else {
            let a = if i < at {
                i
            } else {
                i - 1
            };
            let b = if j < at {
                j
            } else {
                j - 1
            };
            if i != at && j != at {
                assert(t[i] == s[a] && t[j] == s[b]);
            } else if i == at {
                assert(t[j] == s[b]);
            } else {
                assert(t[i] == s[a]);
            }
        }
    }
    assert forall|k: Seq<char>, v: Seq<char>| #[trigger] t.contains((k, v)) <==> (k == name && v
        == value) || (k != name && s.contains((k, v))) by {
        assert(t[at] == (name, value));
        if t.contains((k, v)) {
            let i = t.index_of((k, v));
            if i != at {
                let a = if found || i < at {
                    i
                } else {
                    i - 1
                };
                assert(s[a] == (k, v));
                text::before_is_total(s[a].0, name);
                text::before_is_total(name, s[a].0);
            }
        }
        if k != name && s.contains((k, v)) {
            let i = s.index_of((k, v));
            let a = if found || i < at {
                i
            } else {
                i + 1
            };
            assert(t[a] == (k, v));
        }
    }
}

/// Environment variables that are no secrets, each name once, in the order of
/// their names.
#[derive(Debug, PartialEq, Eq)]
pub struct PlainVars {
    entries: Vec<(String, String)>,
}

impl View for PlainVars {
    type V = Seq<(Seq<char>, Seq<char>)>;

    closed spec fn view(&self) -> Seq<(Seq<char>, Seq<char>)> {
        pair_texts(self.entries@)
    }
}

impl Clone for PlainVars {
    /// Another set of the same variables.
    fn clone(&self) -> (r: PlainVars)
        ensures
            r@ == self@,
    {
        let entries = self.pairs();
        PlainVars { entries }
    }
}

impl PlainVars {
    #[verifier::type_invariant]
    spec fn wf(self) -> bool {
        names_ascend(pair_texts(self.entries@))
    }

    /// No variables.
    pub fn new() -> (r: PlainVars)
        ensures
            r@ == Seq::<(Seq<char>, Seq<char>)>::empty(),
    {
        let r = PlainVars { entries: Vec::new() };
        assert(r@ =~= Seq::empty());
        r
    }

    /// These variables with `name` set to `value`.
    pub fn with(self, name: String, value: String) -> (r: PlainVars)
        ensures
            r@ == set_var(self@, name@, value@),
    {
        proof {
            use_type_invariant(&self);
        }
        let ghost s = self@;
        let ghost p = |p: (Seq<char>, Seq<char>)| !text::before(p.0, name@);
        let mut entries = self.entries;
        let mut at: usize = 0;
        while at < entries.len() && text::is_before(entries[at].0.as_str(), name.as_str())
            invariant
                at <= entries.len(),
                s == pair_texts(entries@),
                p == (|p: (Seq<char>, Seq<char>)| !text::before(p.0, name@)),
                forall|k: int| 0 <= k < at ==> !p(#[trigger] s[k]),
            decreases entries.len() - at,
        {
            assert(!p(s[at as int]));
            at += 1;
        }
        proof {
            if at < entries.len() {
                assert(p(s[at as int]));
            }
            lists::first_where_is(s, p, at as int);
            set_var_sets_one(s, name@, value@);
        }
        let ghost shown = (name@, value@);
        if at < entries.len() && entries[at].0 == name {
            entries.remove(at);
            entries.insert(at, (name, value));
            assert(pair_texts(entries@) =~= s.update(at as int, shown));
        } else {
            entries.insert(at, (name, value));
            assert(pair_texts(entries@) =~= s.insert(at as int, shown));
        }
        PlainVars { entries }
    }

    /// The variables of a list of pairs; a later pair for a name replaces an
    /// earlier one.
    pub fn from_pairs(pairs: Vec<(String, String)>) -> (r: PlainVars)
        ensures
            r@ == vars_of(pair_texts(pairs@)),
    {
        let ghost all = pair_texts(pairs@);
        let mut r = PlainVars::new();
        let mut i: usize = 0;
        assert(all.take(0) =~= Seq::empty());
        while i < pairs.len()
            invariant
                i <= pairs.len(),
                all == pair_texts(pairs@),
                r@ == vars_of(all.take(i as int)),
            decreases pairs.len() - i,
        {
            assert(all.take(i + 1).drop_last() =~= all.take(i as int));
            assert(all.take(i + 1).last() == all[i as int]);
            r = r.with(pairs[i].0.clone(), pairs[i].1.clone());
            i += 1;
        }
        assert(all.take(i as int) =~= all);
        r
    }

    /// The variables in the order of their names.
    pub fn pairs(&self) -> (r: Vec<(String, String)>)
        ensures
            pair_texts(r@) == self@,
            names_ascend(self@),
    {
        proof {
            use_type_invariant(self);
        }
        let mut out: Vec<(String, String)> = Vec::new();
        let mut i: usize = 0;
        while i < self.entries.len()
            invariant
                i <= self.entries.len(),
                out.len() == i,
                forall|k: int|
                    0 <= k < i ==> (#[trigger] out@[k]).0@ == self@[k].0 && out@[k].1@ == self@[k].1,
            decreases self.entries.len() - i,
        {
            out.push((self.entries[i].0.clone(), self.entries[i].1.clone()));
            i += 1;
        }
        assert(pair_texts(out@) =~= self@);
        out
    }

    /// Whether there are no variables.
    pub fn is_empty(&self) -> (r: bool)
        ensures
            r == (self@.len() == 0),
    {
        self.entries.len() == 0
    }

    /// Whether two sets of variables are the same.
    pub fn same(&self, other: &PlainVars) -> (r: bool)
        ensures
            r == (self@ == other@),
    {
        if self.entries.len() != other.entries.len() {
            assert(self@.len() != other@.len());
            return false;
        }
        let mut i: usize = 0;
        while i < self.entries.len()
            invariant
                i <= self.entries.len(),
                self.entries.len() == other.entries.len(),
                forall|k: int| 0 <= k < i ==> self@[k] == other@[k],
            decreases self.entries.len() - i,
        {
            if self.entries[i].0 != other.entries[i].0 || self.entries[i].1 != other.entries[i].1 {
                assert(self@[i as int] != other@[i as int]);
                return false;
            }
            i += 1;
        }
        assert(self@ =~= other@);
        true
    }
}

/// However a source's variables were put together, they come out in the order of
/// their names, each name once.
pub proof fn vars_of_ascend(pairs: Seq<(Seq<char>, Seq<char>)>)
    ensures
        names_ascend(vars_of(pairs)),
    decreases pairs.len(),
{
    if pairs.len() > 0 {
        vars_of_ascend(pairs.drop_last());
        set_var_sets_one(vars_of(pairs.drop_last()), pairs.last().0, pairs.last().1);
    }
}

/// A name looks like a secret exactly where one of the words stands in it, in any
/// case, or the acronym stands in it alone; and what is said of it is such a word.
pub proof fn a_secret_word_is_caught(name: Seq<char>)
    ensures
        secret_word(name) is Some <==> {
            let u = upper(name);
            ||| text::occurs_in(u, "TOKEN"@)
            ||| text::occurs_in(u, "SECRET"@)
            ||| text::occurs_in(u, "PASSWORD"@)
            ||| text::occurs_in(u, "KEY"@)
            ||| text::occurs_in(u, "CREDENTIAL"@)
            ||| exists|at: int|
                0 <= at && at + 3 <= u.len() && #[trigger] u.subrange(at, at + 3) == "PAT"@ && (at
                    == 0 || !alphanumeric(u[at - 1])) && (at + 3 == u.len() || !alphanumeric(
                    u[at + 3],
                ))
        },
        secret_word(name) matches Some(word) ==> text::occurs_in(upper(name), word),
{
    reveal_strlit("PAT");
    reveal_strlit("APIKEY");
    reveal_strlit("KEY");
    let u = upper(name);
    if text::occurs_in(u, "APIKEY"@) {
        assert("APIKEY"@.subrange(3, 6) =~= "KEY"@);
        assert(text::occurs_at("APIKEY"@, "KEY"@, 3));
        text::stands_within(u, "APIKEY"@, "KEY"@);
    }
    if has_segment(u, "PAT"@) {
        let at = choose|at: int| stands_alone_at(u, "PAT"@, at);
        assert(u.subrange(at, at + 3) == "PAT"@);
        assert(text::occurs_at(u, "PAT"@, at));
    }
    if exists|at: int|
        0 <= at && at + 3 <= u.len() && #[trigger] u.subrange(at, at + 3) == "PAT"@ && (at == 0
            || !alphanumeric(u[at - 1])) && (at + 3 == u.len() || !alphanumeric(u[at + 3])) {
        let at = choose|at: int|
            0 <= at && at + 3 <= u.len() && #[trigger] u.subrange(at, at + 3) == "PAT"@ && (at == 0
                || !alphanumeric(u[at - 1])) && (at + 3 == u.len() || !alphanumeric(u[at + 3]));
        assert(stands_alone_at(u, "PAT"@, at));
    }
}

/// Upper case changes the small ASCII letters and nothing else, one by one.
pub proof fn upper_case_changes_only_small_letters(s: Seq<char>, i: int)
    requires
        0 <= i < s.len(),
    ensures
        upper(s).len() == s.len(),
        'a' as int <= s[i] as int <= 'z' as int ==> upper(s)[i] as int - 'A' as int == s[i] as int
            - 'a' as int,
        !('a' as int <= s[i] as int <= 'z' as int) ==> upper(s)[i] == s[i],
{
}

/// A variable has the value that it was given last, and no variable comes from
/// anywhere else.
pub proof fn the_last_value_wins(pairs: Seq<(Seq<char>, Seq<char>)>, k: Seq<char>, v: Seq<char>)
    ensures
        vars_of(pairs).contains((k, v)) <==> exists|i: int|
            0 <= i < pairs.len() && #[trigger] pairs[i] == (k, v) && forall|j: int|
                i < j < pairs.len() ==> (#[trigger] pairs[j]).0 != k,
    decreases pairs.len(),
{
    if pairs.len() > 0 {
        let rest = pairs.drop_last();
        let last = pairs.last();
        let end = pairs.len() - 1;
        the_last_value_wins(rest, k, v);
        vars_of_ascend(rest);
        set_var_sets_one(vars_of(rest), last.0, last.1);
        assert(vars_of(pairs).contains((k, v)) <==> (k == last.0 && v == last.1) || (k != last.0
            && vars_of(rest).contains((k, v))));
        if k == last.0 {
            if v == last.1 {
                assert(pairs[end] == (k, v));
            } else {
                assert forall|i: int|
                    0 <= i < pairs.len() && #[trigger] pairs[i] == (k, v) implies !(forall|j: int|
                    i < j < pairs.len() ==> (#[trigger] pairs[j]).0 != k) by {
                    assert(pairs[end].0 == k);
                    assert(i < end);
                }
            }
        } else {
            if vars_of(rest).contains((k, v)) {
                let i = choose|i: int|
                    0 <= i < rest.len() && #[trigger] rest[i] == (k, v) && forall|j: int|
                        i < j < rest.len() ==> (#[trigger] rest[j]).0 != k;
                assert(pairs[i] == (k, v));
                assert forall|j: int| i < j < pairs.len() implies (#[trigger] pairs[j]).0 != k by {
                    if j < end {
                        assert(rest[j] == pairs[j]);
                    }
                }
            }
            if exists|i: int|
                0 <= i < pairs.len() && #[trigger] pairs[i] == (k, v) && forall|j: int|
                    i < j < pairs.len() ==> (#[trigger] pairs[j]).0 != k {
                let i = choose|i: int|
                    0 <= i < pairs.len() && #[trigger] pairs[i] == (k, v) && forall|j: int|
                        i < j < pairs.len() ==> (#[trigger] pairs[j]).0 != k;
                assert(i < end);
                assert(rest[i] == (k, v));
                assert forall|j: int| i < j < rest.len() implies (#[trigger] rest[j]).0 != k by {
                    assert(rest[j] == pairs[j]);
                }
            }
        }
    }
}

} // verus!
