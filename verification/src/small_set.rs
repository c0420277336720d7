//! Small sets of values that are told apart by a key.
use crate::jmap::{EmailKeyword, Id};
use vstd::prelude::*;

verus! {

/// A type whose values are told apart by a key.
pub trait Keyed: Sized {
    type Key;

    /// What two equal values have in common.
    spec fn key(&self) -> Self::Key;

    /// Tells whether two values have the same key.
    fn same(&self, other: &Self) -> (answer: bool)
        ensures
            answer == (self.key() == other.key()),
    ;
}

impl Keyed for EmailKeyword {
    type Key = EmailKeyword;

    open spec fn key(&self) -> EmailKeyword {
        *self
    }

    fn same(&self, other: &Self) -> (answer: bool) {
        *self == *other
    }
}

impl Keyed for Id {
    type Key = Seq<char>;

    open spec fn key(&self) -> Seq<char> {
        self@
    }

    fn same(&self, other: &Self) -> (answer: bool) {
        self.0 == other.0
    }
}

/// The keys of a sequence.
pub open spec fn keys<T: Keyed>(items: Seq<T>) -> Set<T::Key> {
    Set::new(|k: T::Key| exists|i: int| 0 <= i < items.len() && (#[trigger] items[i]).key() == k)
}

/// The entries of an object as a map: where a key recurs, the last entry counts.
pub open spec fn entry_map<T: Keyed>(entries: Seq<(T, bool)>) -> Map<T::Key, bool>
    decreases entries.len(),
{
    if entries.len() == 0 {
        Map::empty()
    } else {
        entry_map(entries.drop_last()).insert(entries.last().0.key(), entries.last().1)
    }
}

/// The keys that an object maps to `true`.
pub open spec fn marked<T: Keyed>(entries: Seq<(T, bool)>) -> Set<T::Key> {
    Set::new(|k: T::Key| entry_map(entries).contains_key(k) && entry_map(entries)[k])
}

/// Where no key recurs, the marked keys are those of the entries that say `true`.
pub proof fn marked_without_repetition<T: Keyed>(entries: Seq<(T, bool)>)
    requires
        forall|i: int, j: int|
            0 <= i < j < entries.len() ==> (#[trigger] entries[i]).0.key() != (
            #[trigger] entries[j]).0.key(),
    ensures
        forall|k: T::Key| #[trigger]
            marked(entries).contains(k) <==> exists|i: int|
                0 <= i < entries.len() && (#[trigger] entries[i]).0.key() == k && entries[i].1,
{
    assert forall|k: T::Key| #[trigger] marked(entries).contains(k) <==> exists|i: int|
        0 <= i < entries.len() && (#[trigger] entries[i]).0.key() == k && entries[i].1 by {
        lemma_entry_map(entries, k);
        if exists|i: int|
            0 <= i < entries.len() && (#[trigger] entries[i]).0.key() == k && entries[i].1 {
            let i = choose|i: int|
                0 <= i < entries.len() && (#[trigger] entries[i]).0.key() == k && entries[i].1;
            let last = choose|last: int|
                0 <= last < entries.len() && (#[trigger] entries[last]).0.key() == k
                    && entry_map(entries)[k] == entries[last].1;
            assert(i == last);
        }
    }
}

/// A key is mapped by some entry with that key, and only where there is one.
proof fn lemma_entry_map<T: Keyed>(entries: Seq<(T, bool)>, k: T::Key)
    ensures
        entry_map(entries).contains_key(k) <==> exists|i: int|
            0 <= i < entries.len() && (#[trigger] entries[i]).0.key() == k,
        entry_map(entries).contains_key(k) ==> exists|i: int|
            0 <= i < entries.len() && (#[trigger] entries[i]).0.key() == k && entry_map(entries)[k]
                == entries[i].1,
    decreases entries.len(),
{
    if entries.len() != 0 {
        let init = entries.drop_last();
        lemma_entry_map(init, k);
        if entries.last().0.key() == k {
            assert(entries[entries.len() - 1].0.key() == k);
        } else {
            if entry_map(init).contains_key(k) {
                let i = choose|i: int|
                    0 <= i < init.len() && (#[trigger] init[i]).0.key() == k && entry_map(init)[k]
                        == init[i].1;
                assert(entries[i].0.key() == k);
            }
            if exists|i: int| 0 <= i < entries.len() && (#[trigger] entries[i]).0.key() == k {
                let i = choose|i: int|
                    0 <= i < entries.len() && (#[trigger] entries[i]).0.key() == k;
                assert(init[i].0.key() == k);
            }
        }
    }
}

/// A set of a few values.
#[derive(Debug)]
pub struct SmallSet<T> {
    items: Vec<T>,
}

impl<T: Keyed> View for SmallSet<T> {
    type V = Set<T::Key>;

    closed spec fn view(&self) -> Set<T::Key> {
        keys(self.items@)
    }
}

impl<T: Keyed> SmallSet<T> {
    /// No value is listed twice.
    pub closed spec fn wf(&self) -> bool {
        forall|i: int, j: int|
            0 <= i < j < self.items@.len() ==> (#[trigger] self.items@[i]).key() != (
            #[trigger] self.items@[j]).key()
    }

    /// An empty set.
    pub fn new() -> (set: Self)
        ensures
            set.wf(),
            set@ == Set::<T::Key>::empty(),
    {
        let set = SmallSet { items: Vec::new() };
        proof {
            assert(set@ =~= Set::empty());
        }
        set
    }

    fn position(&self, item: &T) -> (at: Option<usize>)
        ensures
            match at {
                Some(at) => at < self.items@.len() && self.items@[at as int].key() == item.key(),
                None => !self@.contains(item.key()),
            },
    {
        let mut i: usize = 0;
        while i < self.items.len()
            invariant
                i <= self.items.len(),
                forall|j: int| 0 <= j < i ==> (#[trigger] self.items@[j]).key() != item.key(),
            decreases self.items.len() - i,
        {
            if self.items[i].same(item) {
                return Some(i);
            }
            i = i + 1;
        }
        None
    }

    /// Tells whether a value is in the set.
    pub fn contains(&self, item: &T) -> (answer: bool)
        ensures
            answer == self@.contains(item.key()),
    {
        self.position(item).is_some()
    }

    /// Puts a value into the set.
    pub fn insert(&mut self, item: T)
        requires
            old(self).wf(),
        ensures
            final(self).wf(),
            final(self)@ == old(self)@.insert(item.key()),
    {
        let ghost before = self.items@;
        if !self.contains(&item) {
            self.items.push(item);
            proof {
                let after = self.items@;
                assert forall|i: int, j: int| 0 <= i < j < after.len() implies (
                #[trigger] after[i]).key() != (#[trigger] after[j]).key() by {
                    assert(after[i] == before[i]);
                    assert(keys(before).contains(before[i].key()));
                    if j < before.len() {
                        assert(after[j] == before[j]);
                    }
                }
                assert forall|k: T::Key| keys(before).insert(item.key()).contains(k) implies keys(
                    after,
                ).contains(k) by {
                    if k == item.key() {
                        assert(after[before.len() as int].key() == k);
                    } else {
                        let i = choose|i: int|
                            0 <= i < before.len() && (#[trigger] before[i]).key() == k;
                        assert(after[i].key() == k);
                    }
                }
                assert forall|k: T::Key| keys(after).contains(k) implies keys(before).insert(
                    item.key(),
                ).contains(k) by {
                    let i = choose|i: int| 0 <= i < after.len() && (#[trigger] after[i]).key() == k;
                    if i < before.len() {
                        assert(before[i].key() == k);
                    }
                }
            }
        }
        proof {
            assert(self@ =~= old(self)@.insert(item.key()));
        }
    }

    /// Takes a value out of the set.
    pub fn remove(&mut self, item: &T)
        requires
            old(self).wf(),
        ensures
            final(self).wf(),
            final(self)@ == old(self)@.remove(item.key()),
    {
        let ghost before = self.items@;
        if let Some(at) = self.position(item) {
            self.items.remove(at);
            proof {
                let after = self.items@;
                assert forall|i: int, j: int| 0 <= i < j < after.len() implies (
                #[trigger] after[i]).key() != (#[trigger] after[j]).key() by {
                    let i0 = if i < at { i } else { i + 1 };
                    let j0 = if j < at { j } else { j + 1 };
                    assert(after[i] == before[i0] && after[j] == before[j0]);
                }
                assert forall|k: T::Key| keys(before).remove(item.key()).contains(k) implies keys(
                    after,
                ).contains(k) by {
                    let i = choose|i: int|
                        0 <= i < before.len() && (#[trigger] before[i]).key() == k;
                    let i1 = if i < at { i } else { i - 1 };
                    assert(after[i1].key() == k);
                }
                assert forall|k: T::Key| keys(after).contains(k) implies keys(before).remove(
                    item.key(),
                ).contains(k) by {
                    let i = choose|i: int| 0 <= i < after.len() && (#[trigger] after[i]).key() == k;
                    let i0 = if i < at { i } else { i + 1 };
                    assert(before[i0].key() == k);
                    assert(i0 != at);
                }
            }
        }
        proof {
            assert(self@ =~= old(self)@.remove(item.key()));
        }
    }

    /// The set of the keys that an object maps to `true`.
    pub fn from_entries(entries: Vec<(T, bool)>) -> (set: Self)
        ensures
            set.wf(),
            set@ == marked(entries@),
    {
        let mut set = SmallSet::new();
        let ghost all = entries@;
        proof {
            assert(marked(all.take(0)) =~= Set::empty());
        }
        for entry in it: entries
            invariant
                it.seq() == all,
                set.wf(),
                set@ == marked(all.take(it.index() as int)),
        {
            let ghost n = it.index() as int;
            proof {
                assert(all.take(n + 1).drop_last() =~= all.take(n));
            }
            let (item, is_set) = entry;
            if is_set {
                set.insert(item);
            } else {
                set.remove(&item);
            }
            proof {
                assert(set@ =~= marked(all.take(n + 1)));
            }
        }
        proof {
            assert(all.take(all.len() as int) =~= all);
        }
        set
    }

    /// The values of the set, each once.
    pub fn as_list(&self) -> (items: &Vec<T>)
        requires
            self.wf(),
        ensures
            keys(items@) == self@,
            forall|i: int, j: int|
                0 <= i < j < items@.len() ==> (#[trigger] items@[i]).key() != (
                #[trigger] items@[j]).key(),
    {
        &self.items
    }
}

/// Keywords are told apart by what they are, ids by their texts.
pub proof fn keywords_and_ids_are_told_apart(keyword: EmailKeyword, id: Id)
    ensures
        keyword.key() == keyword,
        id.key() == id.0@,
{
}

/// The keys of a list are those of its values, and no others.
pub proof fn keys_of_a_list_are_those_in_it<T: Keyed>(items: Seq<T>, k: T::Key)
    ensures
        keys(items).contains(k) <==> exists|i: int|
            0 <= i < items.len() && (#[trigger] items[i]).key() == k,
{
}

/// The last entry with a key decides whether the key is marked.
pub proof fn last_entry_of_a_key_decides<T: Keyed>(entries: Seq<(T, bool)>, i: int)
    requires
        0 <= i < entries.len(),
        forall|j: int|
            i < j < entries.len() ==> (#[trigger] entries[j]).0.key() != entries[i].0.key(),
    ensures
        marked(entries).contains(entries[i].0.key()) <==> entries[i].1,
    decreases entries.len(),
{
    let init = entries.drop_last();
    if i < entries.len() - 1 {
        assert forall|j: int| i < j < init.len() implies (#[trigger] init[j]).0.key()
            != init[i].0.key() by {
            assert(entries[j].0.key() != entries[i].0.key());
        }
        last_entry_of_a_key_decides(init, i);
        assert(entries[entries.len() - 1].0.key() != entries[i].0.key());
    }
}

/// A key without an entry is not marked.
pub proof fn key_without_an_entry_is_not_marked<T: Keyed>(entries: Seq<(T, bool)>, k: T::Key)
    requires
        forall|i: int| 0 <= i < entries.len() ==> (#[trigger] entries[i]).0.key() != k,
    ensures
        !marked(entries).contains(k),
{
    lemma_entry_map(entries, k);
}

} // verus!
