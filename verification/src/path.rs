//! Executable paths, held as the bytes the platform gives.
use crate::bytes;
use vstd::prelude::*;
use vstd::string::*;
use vstd::utf8::*;

verus! {

/// Where the part of `p` after its last slash starts.
pub open spec fn last_part(p: Seq<u8>) -> int
    decreases p.len(),
{
    if p.len() == 0 || p.last() == 47u8 {
        p.len() as int
    } else {
        last_part(p.drop_last())
    }
}

/// A single dot.
pub open spec fn is_dot(part: Seq<u8>) -> bool {
    part == seq![46u8]
}

/// Two dots.
pub open spec fn is_dot_dot(part: Seq<u8>) -> bool {
    part == seq![46u8, 46u8]
}

/// The final component of a path: the part after the last slash, where empty
/// parts and single dots are passed over. `None` where nothing is left or the
/// path ends in two dots.
pub open spec fn final_component(p: Seq<u8>) -> Option<Seq<u8>>
    decreases p.len(),
{
    let at = last_part(p);
    if at < 0 || at > p.len() {
        None
    } else {
        let part = p.skip(at);
        if part.len() == 0 || is_dot(part) {
            if at == 0 {
                None
            } else {
                final_component(p.take(at - 1))
            }
        } else if is_dot_dot(part) {
            None
        } else {
            Some(part)
        }
    }
}

proof fn lemma_last_part(p: Seq<u8>)
    ensures
        0 <= last_part(p) <= p.len(),
    decreases p.len(),
{
    if p.len() > 0 && p.last() != 47u8 {
        lemma_last_part(p.drop_last());
    }
}

fn last_part_start(p: &[u8], end: usize) -> (at: usize)
    requires
        end <= p@.len(),
    ensures
        at <= end,
        at == last_part(p@.take(end as int)),
{
    let mut at: usize = end;
    while at > 0 && p[at - 1] != 47
        invariant
            at <= end <= p@.len(),
            last_part(p@.take(at as int)) == last_part(p@.take(end as int)),
        decreases at,
    {
        assert(p@.take(at as int).drop_last() =~= p@.take(at - 1));
        at -= 1;
    }
    at
}

/// The final component of a path, if it has one.
pub fn file_name(path: &[u8]) -> (r: Option<Vec<u8>>)
    ensures
        match r {
            Some(name) => final_component(path@) == Some(name@),
            None => final_component(path@) is None,
        },
{
    let mut end: usize = path.len();
    assert(path@.take(end as int) =~= path@);
    loop
        invariant
            end <= path@.len(),
            final_component(path@.take(end as int)) == final_component(path@),
        decreases end,
    {
        let at: usize = last_part_start(path, end);
        let ghost p = path@.take(end as int);
        let ghost part = p.skip(at as int);
        let n: usize = end - at;
        if n == 0 || (n == 1 && path[at] == 46) {
            assert(n == 1 ==> part =~= seq![46u8]);
            if at == 0 {
                return None;
            }
            assert(p.take(at - 1) =~= path@.take(at - 1));
            end = at - 1;
        } else if n == 2 && path[at] == 46 && path[at + 1] == 46 {
            assert(part =~= seq![46u8, 46u8]);
            return None;
        } else {
            assert(is_dot(part) ==> part.len() == 1 && part[0] == 46u8);
            assert(is_dot_dot(part) ==> part.len() == 2 && part[0] == 46u8 && part[1] == 46u8);
            let mut name: Vec<u8> = Vec::new();
            let mut i: usize = at;
            while i < end
                invariant
                    at <= i <= end <= path@.len(),
                    name@ == path@.subrange(at as int, i as int),
                decreases end - i,
            {
                name.push(path[i]);
                assert(name@ =~= path@.subrange(at as int, i + 1));
                i += 1;
            }
            assert(name@ =~= part);
            return Some(name);
        }
    }
}

/// The names on the way along a path, in order, where empty parts and single dots
/// are passed over.
pub open spec fn names(p: Seq<u8>) -> Seq<Seq<u8>>
    decreases p.len(),
{
    let at = last_part(p);
    if at < 0 || at > p.len() {
        Seq::empty()
    } else {
        let part = p.skip(at);
        let before = if at == 0 {
            Seq::empty()
        } else {
            names(p.take(at - 1))
        };
        if part.len() == 0 || is_dot(part) {
            before
        } else {
            before.push(part)
        }
    }
}

/// A path that starts at the root.
pub open spec fn rooted(p: Seq<u8>) -> bool {
    p.len() > 0 && p[0] == 47u8
}

/// A path that starts with a single dot, which counts there.
pub open spec fn starts_here(p: Seq<u8>) -> bool {
    p.len() > 0 && p[0] == 46u8 && (p.len() > 1 ==> p[1] == 47u8)
}

/// What a path is made of: where it starts, and the names on its way.
pub open spec fn components(p: Seq<u8>) -> (bool, bool, Seq<Seq<u8>>) {
    (rooted(p), starts_here(p), names(p))
}

/// Where the last name of the first `end` bytes stands, if they hold one.
fn last_name(p: &[u8], end: usize) -> (r: Option<(usize, usize)>)
    requires
        end <= p@.len(),
    ensures
        match r {
            None => names(p@.take(end as int)) == Seq::<Seq<u8>>::empty(),
            Some((at, stop)) => {
                &&& at < stop <= end
                &&& names(p@.take(end as int)) == names(
                    p@.take(
                        if at == 0 {
                            0
                        } else {
                            at - 1
                        },
                    ),
                ).push(p@.subrange(at as int, stop as int))
            },
        },
{
    let mut stop: usize = end;
    loop
        invariant
            stop <= end <= p@.len(),
            names(p@.take(stop as int)) == names(p@.take(end as int)),
        decreases stop,
    {
        let at: usize = last_part_start(p, stop);
        let ghost q = p@.take(stop as int);
        let ghost part = q.skip(at as int);
        let n: usize = stop - at;
        if n == 0 || (n == 1 && p[at] == 46) {
            assert(n == 1 ==> part =~= seq![46u8]);
            if at == 0 {
                return None;
            }
            assert(q.take(at - 1) =~= p@.take(at - 1));
            stop = at - 1;
        } else {
            proof {
                assert(is_dot(part) ==> part.len() == 1 && part[0] == 46u8);
                assert(part =~= p@.subrange(at as int, stop as int));
                if at == 0 {
                    assert(p@.take(0) =~= Seq::empty());
                    assert(Seq::<u8>::empty().skip(0) =~= Seq::empty());
                    assert(names(p@.take(0)) =~= Seq::empty());
                } else {
                    assert(q.take(at - 1) =~= p@.take(at - 1));
                }
            }
            return Some((at, stop));
        }
    }
}

fn same_names(a: &[u8], b: &[u8]) -> (r: bool)
    ensures
        r == (names(a@) == names(b@)),
{
    let mut i: usize = a.len();
    let mut j: usize = b.len();
    assert(a@.take(i as int) =~= a@ && b@.take(j as int) =~= b@);
    loop
        invariant
            i <= a@.len(),
            j <= b@.len(),
            (names(a@.take(i as int)) == names(b@.take(j as int))) == (names(a@) == names(b@)),
        decreases i,
    {
        let ghost x = names(a@.take(i as int));
        let ghost y = names(b@.take(j as int));
        match (last_name(a, i), last_name(b, j)) {
            (None, None) => {
                return true;
            },
            (Some((at, stop)), Some((to, end))) => {
                let ghost p = a@.subrange(at as int, stop as int);
                let ghost q = b@.subrange(to as int, end as int);
                proof {
                    assert(x.last() == p && y.last() == q);
                }
                if !bytes::same(
                    vstd::slice::slice_subrange(a, at, stop),
                    vstd::slice::slice_subrange(b, to, end),
                ) {
                    return false;
                }
                i = if at == 0 {
                    0
                } else {
                    at - 1
                };
                j = if to == 0 {
                    0
                } else {
                    to - 1
                };
                proof {
                    let u = names(a@.take(i as int));
                    let v = names(b@.take(j as int));
                    assert(x == u.push(p) && y == v.push(q));
                    assert(x.drop_last() =~= u && y.drop_last() =~= v);
                }
            },
            _ => {
                proof {
                    assert(x.len() == 0 || y.len() == 0);
                    assert(x.len() != y.len());
                }
                return false;
            },
        }
    }
}

/// Whether two paths are made of the same components.
pub fn same(a: &[u8], b: &[u8]) -> (r: bool)
    ensures
        r == (components(a@) == components(b@)),
{
    let root = (a.len() > 0 && a[0] == 47) == (b.len() > 0 && b[0] == 47);
    let here = (a.len() > 0 && a[0] == 46 && (a.len() == 1 || a[1] == 47)) == (b.len() > 0
        && b[0] == 46 && (b.len() == 1 || b[1] == 47));
    root && here && same_names(a, b)
}

/// `name` under the directory `base`.
pub open spec fn under(base: Seq<u8>, name: Seq<u8>) -> Seq<u8> {
    if base.len() == 0 || base.last() == 47u8 {
        base + name
    } else {
        base.push(47u8) + name
    }
}

/// The path of `name`, a plain file name, under the directory `base`.
pub fn join(base: &[u8], name: &str) -> (r: Vec<u8>)
    ensures
        r@ == under(base@, name.spec_bytes()),
{
    let mut out: Vec<u8> = Vec::new();
    bytes::push_bytes(&mut out, base);
    assert(out@ =~= base@);
    if base.len() > 0 && base[base.len() - 1] != 47 {
        out.push(47);
    }
    bytes::push_bytes(&mut out, name.as_bytes());
    out
}

/// A byte string as text, with what is not UTF-8 replaced.
pub uninterp spec fn utf8_lossy(b: Seq<u8>) -> Seq<char>;

/// `String::from_utf8_lossy`: the text depends on the bytes alone, and valid
/// UTF-8 is read as what it encodes.
#[verifier::external_body]
pub(crate) fn lossy(b: &[u8]) -> (r: String)
    ensures
        r@ == utf8_lossy(b@),
        valid_utf8(b@) ==> r@ == decode_utf8(b@),
{
    String::from_utf8_lossy(b).into_owned()
}

/// A name under a directory is the path's final component, and the directory's names
/// with it are the path's names.
pub proof fn a_name_under_a_directory_is_the_last(dir: Seq<u8>, name: Seq<u8>)
    requires
        name.len() > 0,
        forall|i: int| 0 <= i < name.len() ==> #[trigger] name[i] != 47u8,
        name != seq![46u8],
        name != seq![46u8, 46u8],
    ensures
        final_component(dir.push(47u8) + name) == Some(name),
        names(dir.push(47u8) + name) == names(dir).push(name),
        final_component(name) == Some(name),
        names(name) == seq![name],
{
    part_after_slash(dir, name);
    let p = dir.push(47u8) + name;
    assert(p.skip(dir.len() as int + 1) =~= name);
    assert(p.take(dir.len() as int) =~= dir);
    no_slash_is_one_part(name);
    assert(name.skip(0) =~= name);
    assert(names(name) =~= seq![name]);
}

proof fn part_after_slash(dir: Seq<u8>, name: Seq<u8>)
    requires
        forall|i: int| 0 <= i < name.len() ==> #[trigger] name[i] != 47u8,
    ensures
        last_part(dir.push(47u8) + name) == dir.len() + 1,
    decreases name.len(),
{
    let p = dir.push(47u8) + name;
    if name.len() == 0 {
        assert(p.last() == 47u8);
    } else {
        assert(p.last() == name[name.len() - 1]);
        assert(p.drop_last() =~= dir.push(47u8) + name.drop_last());
        part_after_slash(dir, name.drop_last());
    }
}

proof fn no_slash_is_one_part(name: Seq<u8>)
    requires
        forall|i: int| 0 <= i < name.len() ==> #[trigger] name[i] != 47u8,
    ensures
        last_part(name) == 0,
    decreases name.len(),
{
    if name.len() > 0 {
        assert(name.last() == name[name.len() - 1]);
        no_slash_is_one_part(name.drop_last());
    }
}

/// An empty part and a single dot behind a slash change nothing about where a path
/// leads.
pub proof fn an_empty_part_or_a_dot_leads_nowhere(dir: Seq<u8>)
    requires
        dir.len() > 0,
    ensures
        components(dir.push(47u8)) == components(dir) || dir.len() == 1,
        components(dir.push(47u8).push(46u8)) == components(dir) || dir.len() == 1,
        names(dir.push(47u8)) == names(dir),
        names(dir.push(47u8).push(46u8)) == names(dir),
        final_component(dir.push(47u8)) == final_component(dir),
        final_component(dir.push(47u8).push(46u8)) == final_component(dir),
{
    let none = Seq::<u8>::empty();
    let dot = seq![46u8];
    part_after_slash(dir, none);
    part_after_slash(dir, dot);
    assert(dir.push(47u8) + none =~= dir.push(47u8));
    assert(dir.push(47u8) + dot =~= dir.push(47u8).push(46u8));
    let p = dir.push(47u8);
    let q = dir.push(47u8).push(46u8);
    assert(p.take(dir.len() as int) =~= dir);
    assert(q.take(dir.len() as int) =~= dir);
    assert(q.skip(dir.len() as int + 1) =~= dot);
}

/// A path that ends in two dots leads above its directory and names nothing there, but
/// the two dots count as a step on its way.
pub proof fn two_dots_name_nothing(dir: Seq<u8>)
    ensures
        final_component(dir.push(47u8) + seq![46u8, 46u8]) is None,
        names(dir.push(47u8) + seq![46u8, 46u8]) == names(dir).push(seq![46u8, 46u8]),
        final_component(seq![46u8, 46u8]) is None,
{
    let up = seq![46u8, 46u8];
    part_after_slash(dir, up);
    let p = dir.push(47u8) + up;
    assert(p.skip(dir.len() as int + 1) =~= up);
    assert(p.take(dir.len() as int) =~= dir);
    assert(up[0] == 46u8 && up.len() == 2);
    no_slash_is_one_part(up);
    assert(up.skip(0) =~= up);
}

/// A path starts at the root exactly where a slash comes first, and here exactly where
/// it is a single dot or a dot and a slash come first; and paths that start elsewhere
/// are never the same.
pub proof fn a_path_starts_where_it_says(p: Seq<u8>, q: Seq<u8>)
    ensures
        components(p).0 <==> p.len() > 0 && p[0] == 47u8,
        components(p).1 <==> p == seq![46u8] || (p.len() > 1 && p[0] == 46u8 && p[1] == 47u8),
        components(p) == components(q) ==> (p.len() > 0 && p[0] == 47u8 <==> q.len() > 0 && q[0]
            == 47u8) && names(p) == names(q),
{
    if p.len() == 1 && p[0] == 46u8 {
        assert(p =~= seq![46u8]);
    }
}

/// A name goes under a directory behind exactly one slash.
pub proof fn a_name_goes_behind_one_slash(dir: Seq<u8>, name: Seq<u8>)
    ensures
        dir.len() > 0 && dir.last() != 47u8 ==> under(dir, name) == dir + (seq![47u8] + name),
        dir.len() > 0 && dir.last() == 47u8 ==> under(dir, name) == dir + name,
        under(Seq::empty(), name) == name,
{
    assert(under(dir, name) =~= if dir.len() > 0 && dir.last() != 47u8 {
        dir + (seq![47u8] + name)
    } else {
        dir + name
    });
    assert(under(Seq::empty(), name) =~= name);
}

} // verus!
