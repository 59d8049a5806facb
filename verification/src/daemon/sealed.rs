//! The sealed records that the daemon armed with: what is public of each, and
//! whether they are still those on disk.
use crate::lists;
use crate::text;
use vstd::multiset::Multiset;
use vstd::prelude::*;
use vstd::seq_lib::*;
use vstd::string::*;

verus! {

/// What is public of a sealed value: its id, the point it was sealed under, which
/// is fresh on every sealing, and how the phone agrees on a key for it.
#[derive(Debug, Clone, PartialEq, Eq)]
pub struct SealedRecord {
    pub account_id: String,
    pub ephemeral_pub: String,
    pub se_key_id: String,
    pub ecdh_algo: String,
}

/// A record as plain values.
#[verifier::ext_equal]
pub struct RecordView {
    pub account_id: Seq<char>,
    pub ephemeral_pub: Seq<char>,
    pub se_key_id: Seq<char>,
    pub ecdh_algo: Seq<char>,
}

impl View for SealedRecord {
    type V = RecordView;

    open spec fn view(&self) -> RecordView {
        RecordView {
            account_id: self.account_id@,
            ephemeral_pub: self.ephemeral_pub@,
            se_key_id: self.se_key_id@,
            ecdh_algo: self.ecdh_algo@,
        }
    }
}

impl SealedRecord {
    /// Another record of the same values.
    pub fn duplicate(&self) -> (r: SealedRecord)
        ensures
            r@ == self@,
    {
        SealedRecord {
            account_id: self.account_id.clone(),
            ephemeral_pub: self.ephemeral_pub.clone(),
            se_key_id: self.se_key_id.clone(),
            ecdh_algo: self.ecdh_algo.clone(),
        }
    }
}

/// The armed records.
pub struct SealedStore {
    pub secrets: Vec<SealedRecord>,
}

impl View for SealedStore {
    type V = Seq<RecordView>;

    open spec fn view(&self) -> Seq<RecordView> {
        lists::views(self.secrets@)
    }
}

/// The record of an id: the first in the store.
pub open spec fn record_of(store: Seq<RecordView>, id: Seq<char>) -> Option<RecordView> {
    let at = lists::first_where(store, |r: RecordView| r.account_id == id);
    if at < store.len() {
        Some(store[at])
    } else {
        None
    }
}

/// The records of a store but for those of an id.
pub open spec fn without(store: Seq<RecordView>, id: Seq<char>) -> Seq<RecordView> {
    store.filter(|r: RecordView| r.account_id != id)
}

/// The records of a store with this one filed under an id, in place of any that
/// are there.
pub open spec fn with_record(store: Seq<RecordView>, id: Seq<char>, record: RecordView) -> Seq<
    RecordView,
> {
    without(store, id).push(RecordView { account_id: id, ..record })
}

/// Removing an id takes away its records and no others, and filing a record
/// under an id leaves that record there and every other id as it was.
pub proof fn a_change_touches_only_its_id(
    store: Seq<RecordView>,
    id: Seq<char>,
    record: RecordView,
    other: Seq<char>,
)
    ensures
        record_of(without(store, id), id) is None,
        record_of(with_record(store, id, record), id) == Some(
            RecordView { account_id: id, ..record },
        ),
        other != id ==> record_of(without(store, id), other) == record_of(store, other),
        other != id ==> record_of(with_record(store, id, record), other) == record_of(
            store,
            other,
        ),
        forall|x: RecordView|
            without(store, id).contains(x) <==> store.contains(x) && x.account_id != id,
{
    let keep = |r: RecordView| r.account_id != id;
    let mine = |r: RecordView| r.account_id == id;
    let theirs = |r: RecordView| r.account_id == other;
    let left = without(store, id);
    let filed = RecordView { account_id: id, ..record };
    let after = with_record(store, id, record);
    lists::filter_members(store, keep);
    assert forall|i: int| 0 <= i < left.len() implies !mine(#[trigger] left[i]) by {
        assert(left.contains(left[i]));
    }
    lists::first_where_is(left, mine, left.len() as int);
    assert(mine(after[left.len() as int]));
    lists::first_where_is(after, mine, left.len() as int);
    if other != id {
        lists::first_where_is_first(store, theirs);
        let at = lists::first_where(store, theirs);
        if at < store.len() {
            assert(theirs(store[at]));
            lists::first_survives_filter(store, theirs, keep);
            lists::first_where_is_first(left, theirs);
            let to = lists::first_where(left, theirs);
            assert(theirs(after[to]));
            lists::first_where_is(after, theirs, to);
        } else {
            assert forall|i: int| 0 <= i < left.len() implies !theirs(#[trigger] left[i]) by {
                assert(left.contains(left[i]));
                let j = store.index_of(left[i]);
                assert(!theirs(store[j]));
            }
            lists::first_where_is(left, theirs, left.len() as int);
            assert(!theirs(filed));
            lists::first_where_is(after, theirs, after.len() as int);
        }
    }
}

/// What identifies a record: its id and the point it was sealed under.
pub open spec fn mark(r: RecordView) -> (Seq<char>, Seq<char>) {
    (r.account_id, r.ephemeral_pub)
}

/// What identifies each record of a store.
pub open spec fn marks(store: Seq<RecordView>) -> Seq<(Seq<char>, Seq<char>)> {
    Seq::new(store.len(), |i: int| mark(store[i]))
}

/// Two stores hold the same records, in whatever order.
pub open spec fn same_records(a: Seq<RecordView>, b: Seq<RecordView>) -> bool {
    marks(a).to_multiset() == marks(b).to_multiset()
}

impl SealedStore {
    /// A store without records.
    pub fn new() -> (r: SealedStore)
        ensures
            r@ == Seq::<RecordView>::empty(),
    {
        let r = SealedStore { secrets: Vec::new() };
        assert(r@ =~= Seq::<RecordView>::empty());
        r
    }

    /// The record of an id.
    pub fn get(&self, id: &str) -> (r: Option<&SealedRecord>)
        ensures
            match r {
                Some(rec) => record_of(self@, id@) == Some(rec@),
                None => record_of(self@, id@) is None,
            },
    {
        let ghost p = |r: RecordView| r.account_id == id@;
        let mut i: usize = 0;
        while i < self.secrets.len()
            invariant
                i <= self.secrets.len(),
                p == (|r: RecordView| r.account_id == id@),
                forall|k: int| 0 <= k < i ==> !p(#[trigger] self@[k]),
            decreases self.secrets.len() - i,
        {
            if text::same(self.secrets[i].account_id.as_str(), id) {
                assert(p(self@[i as int]));
                proof {
                    lists::first_where_is(self@, p, i as int);
                }
                return Some(&self.secrets[i]);
            }
            assert(!p(self@[i as int]));
            i += 1;
        }
        proof {
            lists::first_where_is(self@, p, i as int);
        }
        None
    }

    /// Take away every record of an id.
    pub fn remove(&mut self, id: &str)
        ensures
            final(self)@ == old(self)@.filter(|r: RecordView| r.account_id != id@),
    {
        let keep = |r: &SealedRecord| -> (b: bool)
            ensures
                b == (r@.account_id != id@),
            { !text::same(r.account_id.as_str(), id) };
        lists::retain(&mut self.secrets, keep, Ghost(|r: RecordView| r.account_id != id@));
    }

    /// File a record under an id, in place of any that are there.
    pub fn put(&mut self, id: &str, record: SealedRecord)
        ensures
            final(self)@ == with_record(old(self)@, id@, record@),
    {
        self.remove(id);
        let ghost before = self@;
        let mut filed = record;
        filed.account_id = id.to_owned();
        let ghost shown = filed@;
        self.secrets.push(filed);
        assert(self@ =~= before.push(shown));
    }

    /// Another store of the same records.
    pub fn duplicate(&self) -> (r: SealedStore)
        ensures
            r@ == self@,
    {
        let mut secrets: Vec<SealedRecord> = Vec::new();
        let mut i: usize = 0;
        while i < self.secrets.len()
            invariant
                i <= self.secrets.len(),
                secrets.len() == i,
                forall|k: int| 0 <= k < i ==> (#[trigger] secrets@[k])@ == self@[k],
            decreases self.secrets.len() - i,
        {
            secrets.push(self.secrets[i].duplicate());
            i += 1;
        }
        let r = SealedStore { secrets };
        assert(r@ =~= self@);
        r
    }

    /// Whether this store and another hold the same records, in whatever order.
    pub fn same(&self, other: &SealedStore) -> (r: bool)
        ensures
            r == same_records(self@, other@),
    {
        let ghost a = marks(self@);
        let ghost b = marks(other@);
        let mut rest: Vec<usize> = Vec::new();
        let mut j: usize = 0;
        while j < other.secrets.len()
            invariant
                j <= other.secrets.len(),
                rest@.len() == j,
                forall|k: int| 0 <= k < j ==> rest@[k] == k,
            decreases other.secrets.len() - j,
        {
            rest.push(j);
            j += 1;
        }
        let ghost mut left = b;
        proof {
            broadcast use group_to_multiset_ensures;

            assert(Seq::new(rest@.len(), |k: int| b[rest@[k] as int]) =~= b);
            assert(a.take(0) =~= Seq::empty());
            assert(left.to_multiset().add(a.take(0).to_multiset()) =~= b.to_multiset());
        }
        let mut i: usize = 0;
        while i < self.secrets.len()
            invariant
                i <= self.secrets.len(),
                a == marks(self@),
                b == marks(other@),
                forall|k: int| 0 <= k < rest@.len() ==> rest@[k] < other.secrets.len(),
                left == Seq::new(rest@.len(), |k: int| b[rest@[k] as int]),
                left.to_multiset().add(a.take(i as int).to_multiset()) == b.to_multiset(),
            decreases self.secrets.len() - i,
        {
            let mine = &self.secrets[i];
            let ghost x = a[i as int];
            let mut k: usize = 0;
            while k < rest.len()
                invariant
                    k <= rest.len(),
                    x == mark(mine@),
                    b == marks(other@),
                    forall|n: int| 0 <= n < rest@.len() ==> rest@[n] < other.secrets.len(),
                    left == Seq::new(rest@.len(), |n: int| b[rest@[n] as int]),
                    forall|n: int| 0 <= n < k ==> left[n] != x,
                ensures
                    k <= rest.len(),
                    k < rest.len() ==> left[k as int] == x,
                    k == rest.len() ==> !left.contains(x),
                decreases rest.len() - k,
            {
                let theirs = &other.secrets[rest[k]];
                if mine.account_id == theirs.account_id && mine.ephemeral_pub
                    == theirs.ephemeral_pub {
                    break;
                }
                k += 1;
            }
            let ghost t = a.take(i as int);
            proof {
                assert(a.take(i + 1) =~= t.push(x));
                t.to_multiset_ensures();
                a.to_multiset_ensures();
                left.to_multiset_ensures();
            }
            if k == rest.len() {
                proof {
                    taken_counts(a, i + 1, x);
                    assert(a.take(i + 1).to_multiset() =~= t.to_multiset().insert(x));
                    assert(left.to_multiset().count(x) == 0);
                    assert(b.to_multiset().count(x) == t.to_multiset().count(x));
                    assert(a.to_multiset().count(x) >= t.to_multiset().count(x) + 1);
                }
                return false;
            }
            let ghost was = left;
            rest.remove(k);
            proof {
                left = was.remove(k as int);
                assert(left =~= Seq::new(rest@.len(), |n: int| b[rest@[n] as int]));
                was.to_multiset_ensures();
                assert(left.to_multiset() =~= was.to_multiset().remove(x));
                assert(a.take(i + 1).to_multiset() =~= t.to_multiset().insert(x));
                assert(was.to_multiset().count(x) > 0);
                assert(left.to_multiset().add(a.take(i + 1).to_multiset()) =~= b.to_multiset());
            }
            i += 1;
        }
        proof {
            assert(a.take(i as int) =~= a);
            left.to_multiset_ensures();
            a.to_multiset_ensures();
            b.to_multiset_ensures();
            if left.len() == 0 {
                assert(left =~= Seq::empty());
                assert(left.to_multiset() =~= Multiset::empty());
                assert(a.to_multiset() =~= b.to_multiset());
            } else {
                assert(left.to_multiset().len() > 0);
                assert(b.to_multiset().len() == a.to_multiset().len() + left.to_multiset().len());
            }
        }
        rest.len() == 0
    }
}

/// A prefix holds an item no more often than the whole.
proof fn taken_counts<A>(s: Seq<A>, n: int, x: A)
    requires
        0 <= n <= s.len(),
    ensures
        s.take(n).to_multiset().count(x) <= s.to_multiset().count(x),
    decreases s.len() - n,
{
    broadcast use group_to_multiset_ensures;

    if n == s.len() {
        assert(s.take(n) =~= s);
    } else {
        taken_counts(s, n + 1, x);
        assert(s.take(n + 1) =~= s.take(n).push(s[n]));
    }
}

/// What is said of the armed records beside those on disk.
pub open spec fn drift_of(
    armed: Seq<RecordView>,
    disk: Result<Seq<RecordView>, Seq<char>>,
) -> (bool, Seq<char>) {
    match disk {
        Err(e) => (false, "the sealed store could not be read: "@ + e),
        Ok(d) => if same_records(armed, d) {
            (true, text::decimal(armed.len()) + " sealed secret(s)"@)
        } else if armed.len() != d.len() {
            (
                false,
                "the daemon armed "@ + text::decimal(armed.len())
                    + " sealed secret(s); the store on disk holds "@ + text::decimal(d.len())
                    + ". Gated runs may inject nothing. Resync: sigil restart"@,
            )
        } else {
            (
                false,
                "the daemon armed "@ + text::decimal(armed.len())
                    + " sealed secret(s) but they were re-sealed since. Resync: sigil restart"@,
            )
        },
    }
}

/// The plain values of a store that may not have been read.
pub open spec fn disk_view(disk: Result<SealedStore, String>) -> Result<
    Seq<RecordView>,
    Seq<char>,
> {
    match disk {
        Ok(s) => Ok(s@),
        Err(e) => Err(e@),
    }
}

/// Whether the armed records are still those on disk, and what to say of it. A
/// store that cannot be read is a failure, not a pass.
pub fn sealed_store_drift(armed: &SealedStore, disk: Result<SealedStore, String>) -> (r: (
    bool,
    String,
))
    ensures
        (r.0, r.1@) == drift_of(armed@, disk_view(disk)),
{
    let mut s = String::new();
    match disk {
        Err(e) => {
            s.append("the sealed store could not be read: ");
            s.append(e.as_str());
            assert(s@ =~= drift_of(armed@, disk_view(disk)).1);
            (false, s)
        },
        Ok(d) => {
            if armed.same(&d) {
                text::push_decimal(&mut s, armed.secrets.len() as u128);
                s.append(" sealed secret(s)");
                assert(s@ =~= drift_of(armed@, disk_view(disk)).1);
                return (true, s);
            }
            s.append("the daemon armed ");
            text::push_decimal(&mut s, armed.secrets.len() as u128);
            if armed.secrets.len() != d.secrets.len() {
                s.append(" sealed secret(s); the store on disk holds ");
                text::push_decimal(&mut s, d.secrets.len() as u128);
                s.append(". Gated runs may inject nothing. Resync: sigil restart");
            } else {
                s.append(" sealed secret(s) but they were re-sealed since. Resync: sigil restart");
            }
            assert(s@ =~= drift_of(armed@, disk_view(disk)).1);
            (false, s)
        },
    }
}

/// A store that was sealed again is never taken for the armed one: a record under
/// another point makes the check fail.
pub proof fn a_reseal_shows(armed: Seq<RecordView>, i: int, point: Seq<char>)
    requires
        0 <= i < armed.len(),
        point != armed[i].ephemeral_pub,
    ensures
        !drift_of(armed, Ok(armed.update(i, RecordView { ephemeral_pub: point, ..armed[i] }))).0,
{
    broadcast use group_to_multiset_ensures;

    let next = RecordView { ephemeral_pub: point, ..armed[i] };
    let disk = armed.update(i, next);
    let x = mark(armed[i]);
    let y = mark(next);
    assert(marks(disk) =~= marks(armed).update(i, y));
    to_multiset_update(marks(armed), i, y);
    assert(marks(disk).to_multiset().count(y) == marks(armed).to_multiset().count(y) + 1);
}

/// What a store holds after a removal is what it held under other ids, in the same
/// order and as often; filing a record adds that one at the end.
pub proof fn a_change_keeps_the_rest(
    store: Seq<RecordView>,
    id: Seq<char>,
    record: RecordView,
    r: RecordView,
)
    ensures
        without(store, id).contains(r) <==> store.contains(r) && r.account_id != id,
        without(store, id).len() <= store.len(),
        r.account_id != id ==> without(store.push(r), id) == without(store, id).push(r),
        r.account_id == id ==> without(store.push(r), id) == without(store, id),
        with_record(store, id, record).drop_last() == without(store, id),
        with_record(store, id, record).last().account_id == id,
        with_record(store, id, record).last().ephemeral_pub == record.ephemeral_pub,
        with_record(store, id, record).last().se_key_id == record.se_key_id,
        with_record(store, id, record).last().ecdh_algo == record.ecdh_algo,
{
    let p = |x: RecordView| x.account_id != id;
    lists::filter_members(store, p);
    lists::filter_shrinks(store, p);
    assert(store.push(r).drop_last() =~= store);
    reveal(Seq::filter);
    assert(with_record(store, id, record).drop_last() =~= without(store, id));
}

/// A record is found by its own id, the first of them, and none is found where there
/// is none.
pub proof fn a_record_is_found_by_its_id(store: Seq<RecordView>, id: Seq<char>)
    ensures
        record_of(store, id) is None <==> forall|i: int|
            0 <= i < store.len() ==> (#[trigger] store[i]).account_id != id,
        record_of(store, id) matches Some(r) ==> r.account_id == id && exists|i: int|
            0 <= i < store.len() && #[trigger] store[i] == r && forall|k: int|
                0 <= k < i ==> (#[trigger] store[k]).account_id != id,
{
    let p = |r: RecordView| r.account_id == id;
    lists::first_where_is_first(store, p);
    let at = lists::first_where(store, p);
    if at < store.len() {
        assert(p(store[at]));
        assert forall|k: int| 0 <= k < at implies (#[trigger] store[k]).account_id != id by {
            assert(!p(store[k]));
        }
    } else {
        assert forall|i: int| 0 <= i < store.len() implies (#[trigger] store[i]).account_id
            != id by {
            assert(!p(store[i]));
        }
    }
}

/// The armed records are those on disk exactly where each id stands under each point
/// as often here as there, in whatever order; a store that cannot be read never
/// passes, and its reason is told.
pub proof fn drift_is_by_id_and_point(armed: Seq<RecordView>, disk: Seq<RecordView>, e: Seq<char>)
    ensures
        drift_of(armed, Ok(disk)).0 <==> forall|id: Seq<char>, point: Seq<char>|
            #[trigger] times(armed, id, point) == times(disk, id, point),
        !drift_of(armed, Err(e)).0,
        text::occurs_in(drift_of(armed, Err(e)).1, e),
{
    broadcast use text::parts_stand_in;

    let a = marks(armed).to_multiset();
    let b = marks(disk).to_multiset();
    if forall|id: Seq<char>, point: Seq<char>|
        #[trigger] times(armed, id, point) == times(disk, id, point) {
        assert forall|m: (Seq<char>, Seq<char>)| a.count(m) == b.count(m) by {
            marks_are_counted(armed, m.0, m.1);
            marks_are_counted(disk, m.0, m.1);
            assert(times(armed, m.0, m.1) == times(disk, m.0, m.1));
        }
        assert(a =~= b);
    }
    if a == b {
        assert forall|id: Seq<char>, point: Seq<char>| #[trigger]
            times(armed, id, point) == times(disk, id, point) by {
            marks_are_counted(armed, id, point);
            marks_are_counted(disk, id, point);
        }
    }
}

/// How often an id stands in a store under a point.
pub open spec fn times(store: Seq<RecordView>, id: Seq<char>, point: Seq<char>) -> nat
    decreases store.len(),
{
    if store.len() == 0 {
        0
    } else {
        times(store.drop_last(), id, point) + (if store.last().account_id == id
            && store.last().ephemeral_pub == point {
            1nat
        } else {
            0nat
        })
    }
}

proof fn marks_are_counted(store: Seq<RecordView>, id: Seq<char>, point: Seq<char>)
    ensures
        marks(store).to_multiset().count((id, point)) == times(store, id, point),
    decreases store.len(),
{
    broadcast use group_to_multiset_ensures;

    if store.len() > 0 {
        marks_are_counted(store.drop_last(), id, point);
        let rest = marks(store.drop_last());
        assert(marks(store) =~= rest.push(mark(store.last())));
        vstd::seq_lib::to_multiset_build(rest, mark(store.last()));
    }
}

} // verus!
