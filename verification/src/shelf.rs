//! A small map from labels to values, each label once.
use crate::text;
use vstd::prelude::*;
use vstd::string::*;

verus! {

/// Values under labels. No label occurs twice.
pub struct Shelf<T> {
    entries: Vec<(String, T)>,
}

/// The labels of a list of entries, in order.
pub open spec fn labels<T>(entries: Seq<(String, T)>) -> Seq<Seq<char>> {
    Seq::new(entries.len(), |i: int| entries[i].0@)
}

/// The value under each label of a list of entries, the first where a label
/// occurs more than once.
pub open spec fn shelved<T>(entries: Seq<(String, T)>) -> Map<Seq<char>, T> {
    Map::new(
        |k: Seq<char>| labels(entries).contains(k),
        |k: Seq<char>| entries[labels(entries).index_of_first(k)->0].1,
    )
}

/// The value under each label of a list of entries, the last where a label
/// occurs more than once.
pub open spec fn gathered<T>(entries: Seq<(String, T)>) -> Map<Seq<char>, T>
    decreases entries.len(),
{
    if entries.len() == 0 {
        Map::empty()
    } else {
        gathered(entries.drop_last()).insert(entries.last().0@, entries.last().1)
    }
}

/// The value at an index is what its label maps to, where labels occur once.
proof fn shelved_at<T>(entries: Seq<(String, T)>, i: int)
    requires
        labels(entries).no_duplicates(),
        0 <= i < entries.len(),
    ensures
        shelved(entries).contains_key(entries[i].0@),
        shelved(entries)[entries[i].0@] == entries[i].1,
{
    let k = entries[i].0@;
    assert(labels(entries)[i] == k);
    labels(entries).index_of_first_ensures(k);
}

/// Entries with each label once put down what they hold: gathering them gives
/// the same values under the same labels.
pub proof fn entries_gather_back<T>(entries: Seq<(String, T)>)
    requires
        labels(entries).no_duplicates(),
    ensures
        gathered(entries) == shelved(entries),
    decreases entries.len(),
{
    let all = labels(entries);
    if entries.len() == 0 {
        assert(shelved(entries) =~= Map::empty());
    } else {
        let before = entries.drop_last();
        let n = before.len() as int;
        let last = entries.last();
        assert(labels(before) =~= all.drop_last());
        assert(labels(before).no_duplicates()) by {
            assert forall|i: int, j: int|
                0 <= i < labels(before).len() && 0 <= j < labels(before).len() && i
                    != j implies labels(before)[i] != labels(before)[j] by {
                assert(all[i] != all[j]);
            }
        }
        entries_gather_back(before);
        let after = shelved(before).insert(last.0@, last.1);
        assert forall|k: Seq<char>| shelved(entries).contains_key(k) == after.contains_key(k) by {
            if all.contains(k) {
                let i = choose|i: int| 0 <= i < all.len() && all[i] == k;
                if i < n {
                    assert(labels(before)[i] == k);
                }
            }
            if labels(before).contains(k) {
                let i = choose|i: int| 0 <= i < n && labels(before)[i] == k;
                assert(all[i] == k);
            }
            assert(all[n] == last.0@);
        }
        assert forall|k: Seq<char>| shelved(entries).contains_key(k) implies shelved(entries)[k]
            == after[k] by {
            let i = choose|i: int| 0 <= i < all.len() && all[i] == k;
            shelved_at(entries, i);
            if i < n {
                shelved_at(before, i);
                assert(all[i] != all[n]);
            }
        }
        assert(shelved(entries) =~= after);
    }
}

impl<T> View for Shelf<T> {
    type V = Map<Seq<char>, T>;

    closed spec fn view(&self) -> Map<Seq<char>, T> {
        shelved(self.entries@)
    }
}

impl<T> Shelf<T> {
    #[verifier::type_invariant]
    spec fn labels_differ(self) -> bool {
        labels(self.entries@).no_duplicates()
    }

    /// A shelf with nothing on it.
    pub fn new() -> (r: Shelf<T>)
        ensures
            r@ == Map::<Seq<char>, T>::empty(),
    {
        let entries: Vec<(String, T)> = Vec::new();
        assert(shelved(entries@) =~= Map::<Seq<char>, T>::empty());
        Shelf { entries }
    }

    /// Where the label stands, or the number of entries where it does not.
    fn find(entries: &Vec<(String, T)>, label: &str) -> (at: usize)
        ensures
            at <= entries@.len(),
            at < entries@.len() ==> entries@[at as int].0@ == label@,
            at == entries@.len() ==> !labels(entries@).contains(label@),
    {
        let mut i: usize = 0;
        while i < entries.len()
            invariant
                i <= entries@.len(),
                forall|j: int| 0 <= j < i ==> labels(entries@)[j] != label@,
            decreases entries@.len() - i,
        {
            if text::same(entries[i].0.as_str(), label) {
                return i;
            }
            i += 1;
        }
        i
    }

    /// The value under `label`.
    pub fn get(&self, label: &str) -> (r: Option<&T>)
        ensures
            match r {
                Some(v) => self@.contains_key(label@) && *v == self@[label@],
                None => !self@.contains_key(label@),
            },
    {
        proof {
            use_type_invariant(&*self);
        }
        let at: usize = Self::find(&self.entries, label);
        if at < self.entries.len() {
            proof {
                shelved_at(self.entries@, at as int);
            }
            Some(&self.entries[at].1)
        } else {
            None
        }
    }

    /// Put `value` under `label`, in place of what was there.
    pub fn put(&mut self, label: &str, value: T)
        ensures
            final(self)@ == old(self)@.insert(label@, value),
    {
        proof {
            use_type_invariant(&*self);
        }
        let mut entries: Vec<(String, T)> = Vec::new();
        std::mem::swap(&mut entries, &mut self.entries);
        let ghost before = entries@;
        let at: usize = Self::find(&entries, label);
        if at < entries.len() {
            entries.set(at, (label.to_owned(), value));
            assert(labels(entries@) =~= labels(before));
        } else {
            entries.push((label.to_owned(), value));
            assert(labels(entries@) =~= labels(before).push(label@));
        }
        proof {
            let after = entries@;
            assert forall|k: Seq<char>|
                #![trigger shelved(after).contains_key(k)]
                shelved(after).contains_key(k) <==> shelved(before).insert(
                    label@,
                    value,
                ).contains_key(k) by {
                if k == label@ {
                    assert(labels(after)[at as int] == k);
                } else if labels(before).contains(k) {
                    let j = choose|j: int| 0 <= j < before.len() && labels(before)[j] == k;
                    assert(labels(after)[j] == k);
                } else if labels(after).contains(k) {
                    let j = choose|j: int| 0 <= j < after.len() && labels(after)[j] == k;
                    if j < before.len() {
                        assert(labels(before)[j] == k);
                    }
                }
            }
            assert forall|k: Seq<char>|
                #![trigger shelved(after)[k]]
                shelved(after).contains_key(k) implies shelved(after)[k] == shelved(before).insert(
                label@,
                value,
            )[k] by {
                let j = choose|j: int| 0 <= j < after.len() && labels(after)[j] == k;
                shelved_at(after, j);
                if k == label@ {
                    assert(labels(after)[at as int] == k);
                } else {
                    assert(j < before.len());
                    shelved_at(before, j);
                }
            }
            assert(shelved(after) =~= shelved(before).insert(label@, value));
        }
        self.entries = entries;
    }

    /// Take away what is under `label`. Absent is fine.
    pub fn remove(&mut self, label: &str)
        ensures
            final(self)@ == old(self)@.remove(label@),
    {
        proof {
            use_type_invariant(&*self);
        }
        let mut entries: Vec<(String, T)> = Vec::new();
        std::mem::swap(&mut entries, &mut self.entries);
        let ghost before = entries@;
        let at: usize = Self::find(&entries, label);
        if at < entries.len() {
            entries.remove(at);
            assert(entries@ == before.remove(at as int));
        }
        proof {
            let after = entries@;
            if at < before.len() {
                assert(labels(after) =~= labels(before).remove(at as int));
            }
            assert forall|k: Seq<char>|
                #![trigger shelved(after).contains_key(k)]
                shelved(after).contains_key(k) <==> shelved(before).remove(label@).contains_key(
                    k,
                ) by {
                if labels(after).contains(k) {
                    let j = choose|j: int| 0 <= j < after.len() && labels(after)[j] == k;
                    let i = if at < before.len() && j >= at {
                        j + 1
                    } else {
                        j
                    };
                    assert(labels(before)[i] == k);
                    if k == label@ {
                        assert(labels(before)[at as int] == k);
                    }
                } else if labels(before).contains(k) && k != label@ {
                    let i = choose|i: int| 0 <= i < before.len() && labels(before)[i] == k;
                    let j = if at < before.len() && i > at {
                        i - 1
                    } else {
                        i
                    };
                    assert(labels(after)[j] == k);
                }
            }
            assert forall|k: Seq<char>|
                #![trigger shelved(after)[k]]
                shelved(after).contains_key(k) implies shelved(after)[k] == shelved(before).remove(
                label@,
            )[k] by {
                let j = choose|j: int| 0 <= j < after.len() && labels(after)[j] == k;
                shelved_at(after, j);
                let i = if at < before.len() && j >= at {
                    j + 1
                } else {
                    j
                };
                shelved_at(before, i);
            }
            assert(shelved(after) =~= shelved(before).remove(label@));
        }
        self.entries = entries;
    }

    /// A shelf with each of these entries put on it in turn.
    pub fn from_entries(entries: Vec<(String, T)>) -> (r: Shelf<T>)
        ensures
            r@ == gathered(entries@),
    {
        let mut shelf: Shelf<T> = Shelf::new();
        for entry in it: entries
            invariant
                it.seq() == entries@,
                shelf@ == gathered(entries@.take(it.index() as int)),
        {
            let ghost i = it.index() as int;
            let (label, value) = entry;
            shelf.put(label.as_str(), value);
            assert(entries@.take(i + 1).drop_last() =~= entries@.take(i));
        }
        assert(entries@.take(entries@.len() as int) =~= entries@);
        shelf
    }

    /// The entries, one per label.
    pub fn into_entries(self) -> (r: Vec<(String, T)>)
        ensures
            labels(r@).no_duplicates(),
            shelved(r@) == self@,
    {
        proof {
            use_type_invariant(&self);
        }
        self.entries
    }

    /// How many labels there are.
    pub fn len(&self) -> (r: usize)
        ensures
            r == self@.dom().len(),
    {
        proof {
            use_type_invariant(&*self);
            labels(self.entries@).unique_seq_to_set();
            assert(self@.dom() =~= labels(self.entries@).to_set());
        }
        self.entries.len()
    }
}

/// Of entries under one label the last counts.
pub proof fn the_last_entry_counts<T>(entries: Seq<(String, T)>, i: int)
    requires
        0 <= i < entries.len(),
        forall|j: int| i < j < entries.len() ==> (#[trigger] entries[j]).0@ != entries[i].0@,
    ensures
        gathered(entries).contains_key(entries[i].0@),
        gathered(entries)[entries[i].0@] == entries[i].1,
    decreases entries.len(),
{
    let rest = entries.drop_last();
    if i < entries.len() - 1 {
        assert(entries[entries.len() - 1].0@ != entries[i].0@);
        assert(rest[i] == entries[i]);
        assert forall|j: int| i < j < rest.len() implies (#[trigger] rest[j]).0@ != rest[i].0@ by {
            assert(entries[j].0@ != entries[i].0@);
        }
        the_last_entry_counts(rest, i);
    }
}

/// A label without an entry holds nothing.
pub proof fn a_label_without_an_entry_holds_nothing<T>(entries: Seq<(String, T)>, k: Seq<char>)
    requires
        forall|i: int| 0 <= i < entries.len() ==> (#[trigger] entries[i]).0@ != k,
    ensures
        !gathered(entries).contains_key(k),
    decreases entries.len(),
{
    if entries.len() > 0 {
        let rest = entries.drop_last();
        assert forall|i: int| 0 <= i < rest.len() implies (#[trigger] rest[i]).0@ != k by {
            assert(entries[i].0@ != k);
        }
        assert(entries[entries.len() - 1].0@ != k);
        a_label_without_an_entry_holds_nothing(rest, k);
    }
}

} // verus!
