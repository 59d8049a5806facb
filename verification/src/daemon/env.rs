//! What a gated run injects, held against what was consented to.
use crate::config::names;
use crate::secrets::Token;
use crate::text;
use vstd::prelude::*;
use vstd::string::*;

verus! {

/// The plain values of variables whose values are secret.
pub open spec fn pair_secrets(v: Seq<(String, Token)>) -> Seq<(Seq<char>, Seq<u8>)> {
    Seq::new(v.len(), |i: int| (v[i].0@, v[i].1@))
}

/// The names that these variables set.
pub open spec fn injected(pairs: Seq<(Seq<char>, Seq<u8>)>) -> Set<Seq<char>> {
    Set::new(|k: Seq<char>| exists|i: int| 0 <= i < pairs.len() && #[trigger] pairs[i].0 == k)
}

/// The names in a list.
pub open spec fn named(keys: Seq<Seq<char>>) -> Set<Seq<char>> {
    Set::new(|k: Seq<char>| keys.contains(k))
}

/// The variables set exactly the names that were consented to. Order and
/// repetition play no part.
pub open spec fn keys_match(pairs: Seq<(Seq<char>, Seq<u8>)>, consented: Seq<Seq<char>>) -> bool {
    injected(pairs) == named(consented)
}

fn sets(pairs: &[(String, Token)], name: &str) -> (r: bool)
    ensures
        r == injected(pair_secrets(pairs@)).contains(name@),
{
    let ghost p = pair_secrets(pairs@);
    let mut i: usize = 0;
    while i < pairs.len()
        invariant
            i <= pairs.len(),
            p == pair_secrets(pairs@),
            forall|k: int| 0 <= k < i ==> (#[trigger] p[k]).0 != name@,
        decreases pairs.len() - i,
    {
        if text::same(pairs[i].0.as_str(), name) {
            assert(p[i as int].0 == name@);
            return true;
        }
        i += 1;
    }
    false
}

/// Whether the variables set exactly the names that were consented to: what was
/// shown is what is set.
pub fn env_keys_match(pairs: &[(String, Token)], consented: &[String]) -> (r: bool)
    ensures
        r == keys_match(pair_secrets(pairs@), text::texts(consented@)),
{
    let ghost p = pair_secrets(pairs@);
    let ghost c = text::texts(consented@);
    let mut i: usize = 0;
    while i < pairs.len()
        invariant
            i <= pairs.len(),
            p == pair_secrets(pairs@),
            c == text::texts(consented@),
            forall|k: int| 0 <= k < i ==> c.contains((#[trigger] p[k]).0),
        decreases pairs.len() - i,
    {
        if !text::listed(consented, pairs[i].0.as_str()) {
            proof {
                let k = p[i as int].0;
                assert(injected(p).contains(k));
                assert(!named(c).contains(k));
            }
            return false;
        }
        i += 1;
    }
    let mut j: usize = 0;
    while j < consented.len()
        invariant
            j <= consented.len(),
            p == pair_secrets(pairs@),
            c == text::texts(consented@),
            forall|k: int| 0 <= k < j ==> injected(p).contains(#[trigger] c[k]),
        decreases consented.len() - j,
    {
        if !sets(pairs, consented[j].as_str()) {
            proof {
                let k = c[j as int];
                assert(named(c).contains(k));
                assert(!injected(p).contains(k));
            }
            return false;
        }
        j += 1;
    }
    assert(injected(p) =~= named(c));
    true
}

/// Why a cached token cannot be used.
pub const NOT_DECODED: &'static str = "its cached values no longer decode";

/// Why a cached token cannot be used.
pub const KEYS_MOVED: &'static str = "its cached keys are not the keys the rule now names";

/// What the cached token of a lease releases: nothing for a plain gate, and for a
/// sealed rule the variables it decodes to, held against the names that the rule
/// consents to now.
pub open spec fn released(
    needs_sealed_env: bool,
    decoded: Option<Seq<(Seq<char>, Seq<u8>)>>,
    consented: Seq<Seq<char>>,
) -> Result<Option<Seq<(Seq<char>, Seq<u8>)>>, Seq<char>> {
    if !needs_sealed_env {
        Ok(None)
    } else {
        match decoded {
            None => Err(NOT_DECODED@),
            Some(pairs) => if keys_match(pairs, consented) {
                Ok(Some(pairs))
            } else {
                Err(KEYS_MOVED@)
            },
        }
    }
}

/// The plain values of variables that may be absent.
pub open spec fn maybe_pairs(p: Option<Vec<(String, Token)>>) -> Option<
    Seq<(Seq<char>, Seq<u8>)>,
> {
    match p {
        Some(v) => Some(pair_secrets(v@)),
        None => None,
    }
}

/// What the cached token of a lease releases for this run, or why it cannot be
/// used. `decoded` is what the token decodes to.
pub fn leased_env(
    needs_sealed_env: bool,
    decoded: Option<Vec<(String, Token)>>,
    consented: &[String],
) -> (r: Result<Option<Vec<(String, Token)>>, &'static str>)
    ensures
        match r {
            Ok(env) => released(needs_sealed_env, maybe_pairs(decoded), text::texts(consented@))
                == Ok::<Option<Seq<(Seq<char>, Seq<u8>)>>, Seq<char>>(maybe_pairs(env)),
            Err(why) => released(needs_sealed_env, maybe_pairs(decoded), text::texts(consented@))
                == Err::<Option<Seq<(Seq<char>, Seq<u8>)>>, Seq<char>>(why@),
        },
{
    if !needs_sealed_env {
        return Ok(None);
    }
    match decoded {
        None => Err(NOT_DECODED),
        Some(pairs) => {
            if env_keys_match(pairs.as_slice(), consented) {
                Ok(Some(pairs))
            } else {
                Err(KEYS_MOVED)
            }
        },
    }
}

/// A lease never injects a name that the rule does not name now, nor leaves one
/// out: whatever is released sets exactly the consented names.
pub proof fn a_lease_injects_only_what_is_consented(
    needs_sealed_env: bool,
    decoded: Option<Seq<(Seq<char>, Seq<u8>)>>,
    consented: Seq<Seq<char>>,
)
    ensures
        released(needs_sealed_env, decoded, consented) matches Ok(Some(pairs)) ==> decoded == Some(
            pairs,
        ) && forall|k: Seq<char>|
            #![trigger consented.contains(k)]
            consented.contains(k) <==> exists|i: int|
                0 <= i < pairs.len() && #[trigger] pairs[i].0 == k,
        !needs_sealed_env ==> released(needs_sealed_env, decoded, consented) == Ok::<
            Option<Seq<(Seq<char>, Seq<u8>)>>,
            Seq<char>,
        >(None),
{
    if let Ok(Some(pairs)) = released(needs_sealed_env, decoded, consented) {
        assert forall|k: Seq<char>|
            #![trigger consented.contains(k)]
            consented.contains(k) <==> exists|i: int|
                0 <= i < pairs.len() && #[trigger] pairs[i].0 == k by {
            assert(named(consented).contains(k) == consented.contains(k));
            assert(injected(pairs).contains(k) == named(consented).contains(k));
        }
    }
}

/// The names that variables set are those that were consented to exactly where each
/// name is in both or in neither.
pub proof fn consented_exactly(pairs: Seq<(Seq<char>, Seq<u8>)>, consented: Seq<Seq<char>>)
    ensures
        keys_match(pairs, consented) <==> forall|k: Seq<char>|
            #![trigger consented.contains(k)]
            consented.contains(k) <==> exists|i: int|
                0 <= i < pairs.len() && #[trigger] pairs[i].0 == k,
{
    if keys_match(pairs, consented) {
        assert forall|k: Seq<char>|
            #![trigger consented.contains(k)]
            consented.contains(k) <==> exists|i: int|
                0 <= i < pairs.len() && #[trigger] pairs[i].0 == k by {
            assert(named(consented).contains(k) == consented.contains(k));
            assert(injected(pairs).contains(k) == named(consented).contains(k));
        }
    } else if forall|k: Seq<char>|
        #![trigger consented.contains(k)]
        consented.contains(k) <==> exists|i: int|
            0 <= i < pairs.len() && #[trigger] pairs[i].0 == k {
        assert forall|k: Seq<char>| injected(pairs).contains(k) == named(consented).contains(k) by {
            assert(consented.contains(k) == named(consented).contains(k));
        }
        assert(injected(pairs) =~= named(consented));
    }
}

/// A cached window releases its values exactly where they decode and set the names
/// that are consented to now, and a plain gate releases none.
pub proof fn a_cache_is_released_where_consented(
    needs_sealed_env: bool,
    decoded: Option<Seq<(Seq<char>, Seq<u8>)>>,
    consented: Seq<Seq<char>>,
)
    ensures
        released(needs_sealed_env, decoded, consented) is Ok <==> !needs_sealed_env || (
        decoded matches Some(pairs) && forall|k: Seq<char>|
            #![trigger consented.contains(k)]
            consented.contains(k) <==> exists|i: int|
                0 <= i < pairs.len() && #[trigger] pairs[i].0 == k),
        (released(needs_sealed_env, decoded, consented) matches Ok(env) ==> env == (
        if needs_sealed_env {
            decoded
        } else {
            None
        })),
{
    if let Some(pairs) = decoded {
        consented_exactly(pairs, consented);
    }
}

/// Whether a sealed variable that is injected has this name.
pub open spec fn shadows(sealed: Option<Seq<(Seq<char>, Seq<u8>)>>, name: Seq<char>) -> bool {
    match sealed {
        Some(pairs) => injected(pairs).contains(name),
        None => false,
    }
}

/// The plain variables that stay beside the sealed ones: those whose name no
/// injected one has.
pub open spec fn unshadowed(
    plain: Seq<(Seq<char>, Seq<char>)>,
    sealed: Option<Seq<(Seq<char>, Seq<u8>)>>,
) -> Seq<(Seq<char>, Seq<char>)> {
    plain.filter(|p: (Seq<char>, Seq<char>)| !shadows(sealed, p.0))
}

/// The names of the plain variables that give way to a sealed one, in order.
pub open spec fn dropped(
    plain: Seq<(Seq<char>, Seq<char>)>,
    sealed: Option<Seq<(Seq<char>, Seq<u8>)>>,
) -> Seq<Seq<char>> {
    first_names(plain.filter(|p: (Seq<char>, Seq<char>)| shadows(sealed, p.0)))
}

/// The names of variables, in order.
pub open spec fn first_names(pairs: Seq<(Seq<char>, Seq<char>)>) -> Seq<Seq<char>> {
    Seq::new(pairs.len(), |i: int| pairs[i].0)
}

fn gives_way(sealed: &Option<Vec<(String, Token)>>, name: &str) -> (r: bool)
    ensures
        r == shadows(maybe_pairs(*sealed), name@),
{
    match sealed {
        Some(pairs) => sets(pairs.as_slice(), name),
        None => false,
    }
}

/// The plain variables that stay beside the sealed ones: a sealed one of the same
/// name wins.
pub fn plain_beside(plain: &[(String, String)], sealed: &Option<Vec<(String, Token)>>) -> (r: Vec<
    (String, String),
>)
    ensures
        names::pair_texts(r@) == unshadowed(names::pair_texts(plain@), maybe_pairs(*sealed)),
{
    let ghost p = names::pair_texts(plain@);
    let ghost keep = |q: (Seq<char>, Seq<char>)| !shadows(maybe_pairs(*sealed), q.0);
    let mut out: Vec<(String, String)> = Vec::new();
    let mut i: usize = 0;
    assert(p.take(0).filter(keep) =~= names::pair_texts(out@)) by {
        assert(p.take(0) =~= Seq::empty());
        reveal(Seq::filter);
    }
    while i < plain.len()
        invariant
            i <= plain.len(),
            p == names::pair_texts(plain@),
            keep == (|q: (Seq<char>, Seq<char>)| !shadows(maybe_pairs(*sealed), q.0)),
            names::pair_texts(out@) == p.take(i as int).filter(keep),
        decreases plain.len() - i,
    {
        let ghost before = names::pair_texts(out@);
        proof {
            crate::lists::filter_extends(p, keep, i as int);
        }
        if !gives_way(sealed, plain[i].0.as_str()) {
            out.push((plain[i].0.clone(), plain[i].1.clone()));
            assert(names::pair_texts(out@) =~= before.push(p[i as int]));
        }
        i += 1;
    }
    assert(p.take(i as int) =~= p);
    out
}

/// The names of the plain variables that give way to a sealed one, in order.
pub fn dropped_names(plain: &[(String, String)], sealed: &Option<Vec<(String, Token)>>) -> (r: Vec<
    String,
>)
    ensures
        text::texts(r@) == dropped(names::pair_texts(plain@), maybe_pairs(*sealed)),
{
    let ghost p = names::pair_texts(plain@);
    let ghost gone = |q: (Seq<char>, Seq<char>)| shadows(maybe_pairs(*sealed), q.0);
    let mut out: Vec<String> = Vec::new();
    let mut i: usize = 0;
    assert(first_names(p.take(0).filter(gone)) =~= text::texts(out@)) by {
        assert(p.take(0) =~= Seq::empty());
        reveal(Seq::filter);
    }
    while i < plain.len()
        invariant
            i <= plain.len(),
            p == names::pair_texts(plain@),
            gone == (|q: (Seq<char>, Seq<char>)| shadows(maybe_pairs(*sealed), q.0)),
            text::texts(out@) == first_names(p.take(i as int).filter(gone)),
        decreases plain.len() - i,
    {
        let ghost before = p.take(i as int).filter(gone);
        proof {
            crate::lists::filter_extends(p, gone, i as int);
        }
        if gives_way(sealed, plain[i].0.as_str()) {
            let ghost listed = text::texts(out@);
            out.push(plain[i].0.clone());
            assert(text::texts(out@) =~= listed.push(p[i as int].0));
            assert(first_names(before.push(p[i as int])) =~= first_names(before).push(
                p[i as int].0,
            ));
        }
        i += 1;
    }
    assert(p.take(i as int) =~= p);
    out
}

/// Only what is injected shadows: where nothing sealed is injected every plain
/// variable stays, and where something is, a plain variable stays exactly where no
/// injected one has its name.
pub proof fn only_the_injected_shadow(
    plain: Seq<(Seq<char>, Seq<char>)>,
    sealed: Option<Seq<(Seq<char>, Seq<u8>)>>,
    p: (Seq<char>, Seq<char>),
)
    ensures
        sealed is None ==> unshadowed(plain, sealed) == plain && dropped(plain, sealed)
            == Seq::<Seq<char>>::empty(),
        unshadowed(plain, sealed).contains(p) <==> plain.contains(p) && !(sealed matches Some(
            pairs,
        ) && injected(pairs).contains(p.0)),
    decreases plain.len(),
{
    let keep = |q: (Seq<char>, Seq<char>)| !shadows(sealed, q.0);
    let gone = |q: (Seq<char>, Seq<char>)| shadows(sealed, q.0);
    reveal(Seq::filter);
    if plain.len() > 0 {
        let rest = plain.drop_last();
        only_the_injected_shadow(rest, sealed, p);
        assert(plain =~= rest.push(plain.last()));
        assert(plain.filter(keep) =~= if keep(plain.last()) {
            rest.filter(keep).push(plain.last())
        } else {
            rest.filter(keep)
        });
        assert(plain.filter(gone) =~= if gone(plain.last()) {
            rest.filter(gone).push(plain.last())
        } else {
            rest.filter(gone)
        });
        if sealed is None {
            assert(rest.filter(gone) =~= Seq::empty()) by {
                assert(first_names(rest.filter(gone)).len() == 0);
            }
            assert(dropped(plain, sealed) =~= Seq::empty());
        }
        if rest.contains(p) {
            let i = choose|i: int| 0 <= i < rest.len() && rest[i] == p;
            assert(plain[i] == p);
        }
        if unshadowed(rest, sealed).contains(p) {
            let u = unshadowed(rest, sealed);
            let i = choose|i: int| 0 <= i < u.len() && u[i] == p;
            assert(unshadowed(plain, sealed)[i] == p);
        }
        if plain.contains(p) && !rest.contains(p) {
            assert(p == plain.last());
        }
        if keep(plain.last()) {
            assert(unshadowed(plain, sealed)[unshadowed(rest, sealed).len() as int]
                == plain.last());
            assert(plain[rest.len() as int] == plain.last());
        }
        if unshadowed(plain, sealed).contains(p) && !unshadowed(rest, sealed).contains(p) {
            let u = unshadowed(plain, sealed);
            let i = choose|i: int| 0 <= i < u.len() && u[i] == p;
            if i < unshadowed(rest, sealed).len() {
                assert(unshadowed(rest, sealed)[i] == p);
            }
        }
    } else {
        assert(unshadowed(plain, sealed) =~= plain);
        assert(dropped(plain, sealed) =~= Seq::empty());
    }
}

/// A plain variable either stays or gives way, and keeps its place among those that do
/// the same: it gives way exactly where a sealed variable of its name is injected.
pub proof fn a_plain_variable_stays_or_gives_way(
    plain: Seq<(Seq<char>, Seq<char>)>,
    sealed: Option<Seq<(Seq<char>, Seq<u8>)>>,
    p: (Seq<char>, Seq<char>),
)
    ensures
        ({
            let gives_way = sealed is Some && exists|j: int|
                0 <= j < sealed->0.len() && (#[trigger] sealed->0[j]).0 == p.0;
            &&& gives_way ==> unshadowed(plain.push(p), sealed) == unshadowed(plain, sealed)
                && dropped(plain.push(p), sealed) == dropped(plain, sealed).push(p.0)
            &&& !gives_way ==> unshadowed(plain.push(p), sealed) == unshadowed(
                plain,
                sealed,
            ).push(p) && dropped(plain.push(p), sealed) == dropped(plain, sealed)
        }),
        unshadowed(Seq::empty(), sealed).len() == 0,
        dropped(Seq::empty(), sealed).len() == 0,
{
    let keep = |q: (Seq<char>, Seq<char>)| !shadows(sealed, q.0);
    let gone = |q: (Seq<char>, Seq<char>)| shadows(sealed, q.0);
    reveal(Seq::filter);
    let all = plain.push(p);
    assert(all.drop_last() =~= plain);
    assert(all.last() == p);
    assert(Seq::<(Seq<char>, Seq<char>)>::empty().filter(keep).len() == 0);
    assert(Seq::<(Seq<char>, Seq<char>)>::empty().filter(gone).len() == 0);
    if shadows(sealed, p.0) {
        assert(dropped(all, sealed) =~= dropped(plain, sealed).push(p.0));
    }
}

/// Variables are what was consented to exactly where each of them is named there, and
/// each name there is one of them.
pub proof fn a_consent_names_each_variable(
    pairs: &[(String, Token)],
    consented: &[String],
    r: bool,
    i: int,
)
    requires
        call_ensures(env_keys_match, (pairs, consented), r),
        r,
    ensures
        0 <= i < pairs@.len() ==> exists|j: int|
            0 <= j < consented@.len() && (#[trigger] consented@[j])@ == pairs@[i].0@,
        0 <= i < consented@.len() ==> exists|j: int|
            0 <= j < pairs@.len() && (#[trigger] pairs@[j]).0@ == consented@[i]@,
{
    let p = pair_secrets(pairs@);
    let c = text::texts(consented@);
    assert(injected(p) == named(c));
    if 0 <= i < pairs@.len() {
        let k = pairs@[i].0@;
        assert(p[i].0 == k);
        assert(injected(p).contains(k));
        assert(named(c).contains(k));
        let j = c.index_of(k);
        assert(consented@[j]@ == c[j]);
    }
    if 0 <= i < consented@.len() {
        let k = consented@[i]@;
        assert(c[i] == k);
        assert(named(c).contains(k));
        assert(injected(p).contains(k));
        let j = choose|j: int| 0 <= j < p.len() && #[trigger] p[j].0 == k;
        assert(pairs@[j].0@ == p[j].0);
    }
}

/// What a window releases for a sealed rule is exactly what it decoded to, and only
/// where each of those variables is consented to; a rule without sealed values gets
/// none.
pub proof fn a_window_releases_what_was_consented_to(
    needs_sealed_env: bool,
    decoded: Option<Vec<(String, Token)>>,
    consented: &[String],
    r: Result<Option<Vec<(String, Token)>>, &'static str>,
    i: int,
)
    requires
        call_ensures(leased_env, (needs_sealed_env, decoded, consented), r),
    ensures
        !needs_sealed_env ==> (r matches Ok(env) && env is None),
        needs_sealed_env && decoded is None ==> r is Err,
        needs_sealed_env ==> (r matches Ok(env) ==> (env matches Some(v) && (decoded matches Some(d)
            && v@.len() == d@.len() && (0 <= i < v@.len() ==> v@[i].0@ == d@[i].0@ && v@[i].1@
            == d@[i].1@ && text::texts(consented@).contains(v@[i].0@))))),
{
    if needs_sealed_env && decoded is Some && r is Ok {
        let env = r->Ok_0;
        let d = pair_secrets(decoded->0@);
        assert(released(true, Some(d), text::texts(consented@)) == Ok::<
            Option<Seq<(Seq<char>, Seq<u8>)>>,
            Seq<char>,
        >(maybe_pairs(env)));
        let v = pair_secrets(env->0@);
        assert(v == d);
        assert(v.len() == env->0@.len());
        if 0 <= i < v.len() {
            assert(v[i] == (env->0@[i].0@, env->0@[i].1@));
            assert(d[i] == (decoded->0@[i].0@, decoded->0@[i].1@));
            assert(injected(d).contains(d[i].0));
            assert(named(text::texts(consented@)).contains(d[i].0));
        }
    }
}

} // verus!
