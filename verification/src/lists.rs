//! Lists of values with a view, and where things stand in them.
use vstd::prelude::*;

verus! {

/// The views of a list's items.
pub open spec fn views<S: View>(s: Seq<S>) -> Seq<S::V> {
    Seq::new(s.len(), |i: int| s[i]@)
}

/// The index of the first item with property `p`, or the length where none has
/// it.
pub open spec fn first_where<A>(s: Seq<A>, p: spec_fn(A) -> bool) -> int
    decreases s.len(),
{
    if s.len() == 0 || p(s[0]) {
        0
    } else {
        1 + first_where(s.skip(1), p)
    }
}

/// What [`first_where`] finds is the first such item, and it finds one where
/// there is one.
pub proof fn first_where_is_first<A>(s: Seq<A>, p: spec_fn(A) -> bool)
    ensures
        0 <= first_where(s, p) <= s.len(),
        first_where(s, p) < s.len() ==> p(s[first_where(s, p)]),
        forall|i: int| 0 <= i < first_where(s, p) ==> !p(#[trigger] s[i]),
        forall|i: int| 0 <= i < s.len() && p(#[trigger] s[i]) ==> first_where(s, p) <= i,
    decreases s.len(),
{
    if s.len() > 0 && !p(s[0]) {
        first_where_is_first(s.skip(1), p);
        let rest = s.skip(1);
        assert forall|i: int| 0 <= i < first_where(s, p) implies !p(#[trigger] s[i]) by {
            if i > 0 {
                assert(!p(rest[i - 1]));
            }
        }
        assert forall|i: int| 0 <= i < s.len() && p(#[trigger] s[i]) implies first_where(s, p)
            <= i by {
            if i > 0 {
                assert(p(rest[i - 1]));
            }
        }
    }
}

/// The first such item is the only index with these two properties.
pub proof fn first_where_is<A>(s: Seq<A>, p: spec_fn(A) -> bool, at: int)
    requires
        0 <= at <= s.len(),
        at < s.len() ==> p(s[at]),
        forall|i: int| 0 <= i < at ==> !p(#[trigger] s[i]),
    ensures
        first_where(s, p) == at,
{
    first_where_is_first(s, p);
}

/// Taking items out one by one filters the list.
pub proof fn filter_extends<A>(s: Seq<A>, p: spec_fn(A) -> bool, i: int)
    requires
        0 <= i < s.len(),
    ensures
        s.take(i + 1).filter(p) == (if p(s[i]) {
            s.take(i).filter(p).push(s[i])
        } else {
            s.take(i).filter(p)
        }),
{
    reveal(Seq::filter);
    assert(s.take(i + 1).drop_last() =~= s.take(i));
}

/// A filter that keeps every item keeps the list.
pub proof fn filter_keeps_all<A>(s: Seq<A>, p: spec_fn(A) -> bool)
    requires
        forall|i: int| 0 <= i < s.len() ==> p(#[trigger] s[i]),
    ensures
        s.filter(p) == s,
    decreases s.len(),
{
    reveal(Seq::filter);
    if s.len() > 0 {
        assert forall|i: int| 0 <= i < s.drop_last().len() implies p(
            #[trigger] s.drop_last()[i],
        ) by {
            assert(p(s[i]));
        }
        filter_keeps_all(s.drop_last(), p);
        assert(s.drop_last().push(s.last()) =~= s);
    }
}

/// What is left after a filter is what the list held and the filter keeps.
pub proof fn filter_members<A>(s: Seq<A>, p: spec_fn(A) -> bool)
    ensures
        forall|x: A|
            #![trigger s.filter(p).contains(x)]
            s.filter(p).contains(x) <==> s.contains(x) && p(x),
        s.filter(p).len() <= s.len(),
    decreases s.len(),
{
    reveal(Seq::filter);
    if s.len() > 0 {
        let rest = s.drop_last();
        filter_members(rest, p);
        assert forall|x: A| #[trigger] s.filter(p).contains(x) <==> s.contains(x) && p(x) by {
            if rest.contains(x) {
                let i = rest.index_of(x);
                assert(s[i] == x);
            }
            if s.contains(x) && x != s.last() {
                let i = s.index_of(x);
                assert(rest[i] == x);
            }
            assert(s[s.len() - 1] == s.last());
            if p(s.last()) {
                let f = rest.filter(p);
                let g = f.push(s.last());
                assert(g[f.len() as int] == s.last());
                if f.contains(x) {
                    let i = f.index_of(x);
                    assert(g[i] == x);
                }
                if g.contains(x) && x != s.last() {
                    let i = g.index_of(x);
                    assert(f[i] == x);
                }
            }
        }
    }
}

/// A filter shortens a list exactly where it drops something.
pub proof fn filter_shrinks<A>(s: Seq<A>, p: spec_fn(A) -> bool)
    ensures
        s.filter(p).len() <= s.len(),
        (s.filter(p).len() < s.len()) <==> exists|i: int| 0 <= i < s.len() && !p(#[trigger] s[i]),
    decreases s.len(),
{
    reveal(Seq::filter);
    if s.len() > 0 {
        let rest = s.drop_last();
        filter_shrinks(rest, p);
        if rest.filter(p).len() < rest.len() {
            let i = choose|i: int| 0 <= i < rest.len() && !p(#[trigger] rest[i]);
            assert(!p(s[i]));
        } else if !p(s.last()) {
            assert(!p(s[s.len() - 1]));
        } else {
            assert forall|i: int| 0 <= i < s.len() implies p(#[trigger] s[i]) by {
                if i < rest.len() {
                    assert(p(rest[i]));
                }
            }
        }
    }
}

/// Filtering twice keeps what both filters keep.
pub proof fn filter_twice<A>(s: Seq<A>, p: spec_fn(A) -> bool, q: spec_fn(A) -> bool)
    ensures
        s.filter(p).filter(q) == s.filter(|x: A| p(x) && q(x)),
    decreases s.len(),
{
    reveal(Seq::filter);
    let both = |x: A| p(x) && q(x);
    if s.len() > 0 {
        let rest = s.drop_last();
        filter_twice(rest, p, q);
        if p(s.last()) {
            let f = rest.filter(p);
            assert(f.push(s.last()).drop_last() =~= f);
        }
    }
}

/// Where the filter keeps the first item with a property, that item is still the
/// first one with it.
pub proof fn first_survives_filter<A>(s: Seq<A>, p: spec_fn(A) -> bool, q: spec_fn(A) -> bool)
    requires
        first_where(s, p) < s.len(),
        q(s[first_where(s, p)]),
    ensures
        first_where(s.filter(q), p) < s.filter(q).len(),
        s.filter(q)[first_where(s.filter(q), p)] == s[first_where(s, p)],
    decreases s.len(),
{
    first_where_is_first(s, p);
    let at = first_where(s, p);
    reveal(Seq::filter);
    let rest = s.drop_last();
    let f = rest.filter(q);
    if at < s.len() - 1 {
        first_where_is(rest, p, at);
        first_survives_filter(rest, p, q);
        first_where_is_first(f, p);
        if q(s.last()) {
            first_where_is(f.push(s.last()), p, first_where(f, p));
        }
    } else {
        assert forall|i: int| 0 <= i < f.len() implies !p(#[trigger] f[i]) by {
            filter_members(rest, q);
            assert(f.contains(f[i]));
            let j = rest.index_of(f[i]);
            assert(!p(s[j]));
        }
        assert(s.filter(q) =~= f.push(s.last()));
        first_where_is(f.push(s.last()), p, f.len() as int);
    }
}

/// What holds between each two items of a list holds of a filtered list.
pub proof fn filter_keeps_apart<A>(s: Seq<A>, q: spec_fn(A) -> bool, r: spec_fn(A, A) -> bool)
    requires
        forall|i: int, j: int| 0 <= i < j < s.len() ==> r(#[trigger] s[i], #[trigger] s[j]),
    ensures
        forall|i: int, j: int|
            0 <= i < j < s.filter(q).len() ==> r(
                #[trigger] s.filter(q)[i],
                #[trigger] s.filter(q)[j],
            ),
    decreases s.len(),
{
    reveal(Seq::filter);
    if s.len() > 0 {
        let rest = s.drop_last();
        assert forall|i: int, j: int| 0 <= i < j < rest.len() implies r(
            #[trigger] rest[i],
            #[trigger] rest[j],
        ) by {
            assert(r(s[i], s[j]));
        }
        filter_keeps_apart(rest, q, r);
        let f = rest.filter(q);
        assert forall|i: int, j: int| 0 <= i < j < s.filter(q).len() implies r(
            #[trigger] s.filter(q)[i],
            #[trigger] s.filter(q)[j],
        ) by {
            if j == f.len() {
                filter_members(rest, q);
                assert(f.contains(f[i]));
                let k = rest.index_of(f[i]);
                assert(r(s[k], s[s.len() - 1]));
            }
        }
    }
}

/// Keep the items of `v` that `keep` keeps, in their order.
pub(crate) fn retain<T: View, F: Fn(&T) -> bool>(
    v: &mut Vec<T>,
    keep: F,
    Ghost(p): Ghost<spec_fn(T::V) -> bool>,
)
    requires
        forall|x: &T| keep.requires((x,)),
        forall|x: &T, b: bool| keep.ensures((x,), b) ==> b == p(x@),
    ensures
        views(final(v)@) == views(old(v)@).filter(p),
{
    let ghost all = views(v@);
    let mut i: usize = 0;
    let ghost mut seen: int = 0;
    assert(all.take(0).filter(p) =~= Seq::empty()) by {
        reveal(Seq::filter);
    }
    while i < v.len()
        invariant
            forall|x: &T| keep.requires((x,)),
            forall|x: &T, b: bool| keep.ensures((x,), b) ==> b == p(x@),
            i <= v.len(),
            0 <= seen <= all.len(),
            v.len() - i == all.len() - seen,
            views(v@).take(i as int) == all.take(seen).filter(p),
            views(v@).skip(i as int) == all.skip(seen),
        decreases v.len() - i,
    {
        let ghost before = views(v@);
        assert(before[i as int] == before.skip(i as int)[0]);
        assert(all[seen] == all.skip(seen)[0]);
        proof {
            filter_extends(all, p, seen);
        }
        if keep(&v[i]) {
            assert(before.take(i + 1) =~= before.take(i as int).push(before[i as int]));
            assert(before.skip(i + 1) =~= before.skip(i as int).skip(1));
            i += 1;
        } else {
            v.remove(i);
            assert(views(v@) =~= before.remove(i as int));
            assert(views(v@).take(i as int) =~= before.take(i as int));
            assert(views(v@).skip(i as int) =~= before.skip(i as int).skip(1));
        }
        proof {
            assert(all.skip(seen).skip(1) =~= all.skip(seen + 1));
            seen = seen + 1;
        }
    }
    assert(views(v@).take(i as int) =~= views(v@));
    assert(all.take(seen) =~= all);
}

/// `s` with `x` put behind every item whose key is not greater.
pub open spec fn placed<A>(s: Seq<A>, x: A, key: spec_fn(A) -> int) -> Seq<A> {
    s.insert(first_where(s, |y: A| key(y) > key(x)), x)
}

/// `s` in ascending order of `key`; items of one key keep their order.
pub open spec fn sorted_by<A>(s: Seq<A>, key: spec_fn(A) -> int) -> Seq<A>
    decreases s.len(),
{
    if s.len() == 0 {
        s
    } else {
        placed(sorted_by(s.drop_last(), key), s.last(), key)
    }
}

/// Keys never go down along `s`.
pub open spec fn ascending<A>(s: Seq<A>, key: spec_fn(A) -> int) -> bool {
    forall|i: int, j: int| 0 <= i < j < s.len() ==> key(#[trigger] s[i]) <= key(#[trigger] s[j])
}

/// Sorting orders the items and loses or invents none.
pub proof fn sorted_by_sorts<A>(s: Seq<A>, key: spec_fn(A) -> int)
    ensures
        ascending(sorted_by(s, key), key),
        sorted_by(s, key).to_multiset() == s.to_multiset(),
        sorted_by(s, key).len() == s.len(),
    decreases s.len(),
{
    if s.len() > 0 {
        let rest = s.drop_last();
        let x = s.last();
        sorted_by_sorts(rest, key);
        let r = sorted_by(rest, key);
        let above = |y: A| key(y) > key(x);
        let at = first_where(r, above);
        first_where_is_first(r, above);
        let out = r.insert(at, x);
        assert(s =~= rest.push(x));
        vstd::seq_lib::to_multiset_build(rest, x);
        vstd::seq_lib::to_multiset_insert(r, at, x);
        assert forall|i: int, j: int| 0 <= i < j < out.len() implies key(#[trigger] out[i]) <= key(
            #[trigger] out[j],
        ) by {
            if i < at {
                assert(out[i] == r[i]);
                assert(!above(r[i]));
                if j > at {
                    assert(out[j] == r[j - 1]);
                }
                if j < at {
                    assert(out[j] == r[j]);
                }
            } else if i == at {
                assert(out[j] == r[j - 1]);
                if j - 1 > at {
                    assert(key(r[at]) <= key(r[j - 1]));
                }
            } else {
                assert(out[i] == r[i - 1] && out[j] == r[j - 1]);
            }
        }
    }
}

/// Sort `v` in ascending order of `key`; items of one key keep their order.
pub(crate) fn sort_by_key<T: View, F: Fn(&T) -> u128>(
    v: Vec<T>,
    key: F,
    Ghost(k): Ghost<spec_fn(T::V) -> int>,
) -> (r: Vec<T>)
    requires
        forall|x: &T| key.requires((x,)),
        forall|x: &T, n: u128| key.ensures((x,), n) ==> n == k(x@),
    ensures
        views(r@) == sorted_by(views(v@), k),
{
    let ghost all = views(v@);
    let mut left = v;
    let mut out: Vec<T> = Vec::new();
    let ghost mut done: int = 0;
    assert(views(out@) =~= sorted_by(all.take(0), k));
    while left.len() > 0
        invariant
            forall|x: &T| key.requires((x,)),
            forall|x: &T, n: u128| key.ensures((x,), n) ==> n == k(x@),
            0 <= done <= all.len(),
            views(left@) == all.skip(done),
            views(out@) == sorted_by(all.take(done), k),
        decreases left.len(),
    {
        let ghost before = views(left@);
        assert(before.len() == all.skip(done).len());
        assert(before[0] == all[done]);
        let x = left.remove(0);
        assert(views(left@) =~= before.skip(1));
        assert(all.skip(done).skip(1) =~= all.skip(done + 1));
        let n: u128 = key(&x);
        let ghost above = |y: T::V| k(y) > k(x@);
        let mut at: usize = 0;
        while at < out.len() && key(&out[at]) <= n
            invariant
                forall|x: &T| key.requires((x,)),
                forall|x: &T, n: u128| key.ensures((x,), n) ==> n == k(x@),
                at <= out.len(),
                n == k(x@),
                above == (|y: T::V| k(y) > k(x@)),
                forall|i: int| 0 <= i < at ==> !above(#[trigger] views(out@)[i]),
            decreases out.len() - at,
        {
            assert(!above(views(out@)[at as int]));
            at += 1;
        }
        let ghost placed_in = views(out@);
        proof {
            if at < out.len() {
                assert(above(placed_in[at as int]));
            }
            first_where_is(placed_in, above, at as int);
            assert(all.take(done + 1).drop_last() =~= all.take(done));
            assert(all.take(done + 1).last() == x@);
        }
        out.insert(at, x);
        assert(views(out@) =~= placed_in.insert(at as int, x@));
        proof {
            done = done + 1;
        }
    }
    assert(all.take(done) =~= all);
    out
}

} // verus!
