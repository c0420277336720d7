//! Sets of ids.
use crate::jmap::Id;
use vstd::hash_set::StringHashSet;
use vstd::prelude::*;

verus! {

/// The ids of a sequence, as a set.
pub open spec fn id_texts(ids: Seq<Id>) -> Set<Seq<char>> {
    Set::new(|text: Seq<char>| exists|i: int| 0 <= i < ids.len() && (#[trigger] ids[i])@ == text)
}

/// Whether no id occurs twice.
pub open spec fn distinct(ids: Seq<Id>) -> bool {
    forall|i: int, j: int| 0 <= i < j < ids.len() ==> (#[trigger] ids[i])@ != (#[trigger] ids[j])@
}

/// The ids of a list with one more at its end.
pub proof fn lemma_id_texts_push(ids: Seq<Id>, id: Id)
    ensures
        id_texts(ids.push(id)) == id_texts(ids).insert(id@),
{
    let pushed = ids.push(id);
    assert forall|text: Seq<char>| id_texts(ids).insert(id@).contains(text) implies id_texts(
        pushed,
    ).contains(text) by {
        if text == id@ {
            assert(pushed[ids.len() as int]@ == text);
        } else {
            let i = choose|i: int| 0 <= i < ids.len() && (#[trigger] ids[i])@ == text;
            assert(pushed[i]@ == text);
        }
    }
    assert forall|text: Seq<char>| id_texts(pushed).contains(text) implies id_texts(ids).insert(
        id@,
    ).contains(text) by {
        let i = choose|i: int| 0 <= i < pushed.len() && (#[trigger] pushed[i])@ == text;
        if i < ids.len() {
            assert(ids[i]@ == text);
        }
    }
    assert(id_texts(pushed) =~= id_texts(ids).insert(id@));
}

/// A list stays without repetitions when an id is added that it lacks.
pub proof fn lemma_distinct_push(ids: Seq<Id>, id: Id)
    requires
        distinct(ids),
        !id_texts(ids).contains(id@),
    ensures
        distinct(ids.push(id)),
{
    let pushed = ids.push(id);
    assert forall|i: int, j: int| 0 <= i < j < pushed.len() implies (#[trigger] pushed[i])@ != (
    #[trigger] pushed[j])@ by {
        assert(pushed[i] == ids[i]);
        if j == ids.len() {
            assert(id_texts(ids).contains(ids[i]@));
        } else {
            assert(pushed[j] == ids[j]);
        }
    }
}

/// The ids of two lists are those of the one and those of the other.
pub proof fn lemma_id_texts_add(left: Seq<Id>, right: Seq<Id>)
    ensures
        id_texts(left + right) == id_texts(left).union(id_texts(right)),
    decreases right.len(),
{
    if right.len() == 0 {
        assert(left + right =~= left);
        assert(id_texts(right) =~= Set::empty());
        assert(id_texts(left).union(id_texts(right)) =~= id_texts(left));
    } else {
        let init = right.drop_last();
        lemma_id_texts_add(left, init);
        lemma_id_texts_push(left + init, right.last());
        lemma_id_texts_push(init, right.last());
        assert((left + init).push(right.last()) =~= left + right);
        assert(init.push(right.last()) =~= right);
        assert(id_texts(left).union(id_texts(right)) =~= id_texts(left).union(
            id_texts(init),
        ).insert(right.last()@));
    }
}

/// A list without repetitions, with those of `ids` added to its end that it lacks.
pub open spec fn with_added(order: Seq<Id>, ids: Seq<Id>) -> Seq<Id>
    decreases ids.len(),
{
    if ids.len() == 0 {
        order
    } else {
        let before = with_added(order, ids.drop_last());
        if id_texts(before).contains(ids.last()@) {
            before
        } else {
            before.push(ids.last())
        }
    }
}

/// A set of ids that keeps them in the order in which they first came.
pub struct IdSet {
    ids: Vec<Id>,
    members: StringHashSet,
}

impl View for IdSet {
    type V = Set<Seq<char>>;

    closed spec fn view(&self) -> Set<Seq<char>> {
        self.members@
    }
}

impl IdSet {
    /// Every member is listed once.
    pub closed spec fn wf(&self) -> bool {
        &&& distinct(self.ids@)
        &&& id_texts(self.ids@) == self.members@
    }

    /// The members in their order.
    pub closed spec fn order(&self) -> Seq<Id> {
        self.ids@
    }

    /// The order lists the members, each once.
    pub proof fn lemma_order(&self)
        requires
            self.wf(),
        ensures
            distinct(self.order()),
            id_texts(self.order()) == self@,
    {
    }

    /// An empty set.
    pub fn new() -> (set: Self)
        ensures
            set.wf(),
            set.order() == Seq::<Id>::empty(),
            set@ == Set::<Seq<char>>::empty(),
    {
        let set = IdSet { ids: Vec::new(), members: StringHashSet::new() };
        proof {
            assert(id_texts(set.ids@) =~= Set::empty());
        }
        set
    }

    /// Adds an id, and tells whether it is new.
    pub fn insert(&mut self, id: Id) -> (is_new: bool)
        requires
            old(self).wf(),
        ensures
            final(self).wf(),
            final(self)@ == old(self)@.insert(id@),
            final(self).order() == (if is_new {
                old(self).order().push(id)
            } else {
                old(self).order()
            }),
            is_new == !old(self)@.contains(id@),
    {
        let is_new = self.members.insert(id.0.clone());
        proof {
            lemma_id_texts_push(self.ids@, id);
            assert(old(self)@.contains(id@) ==> old(self)@.insert(id@) =~= old(self)@);
        }
        if is_new {
            proof {
                lemma_distinct_push(self.ids@, id);
            }
            self.ids.push(id);
        }
        is_new
    }

    /// Adds every id of a list.
    pub fn extend(&mut self, ids: Vec<Id>)
        requires
            old(self).wf(),
        ensures
            final(self).wf(),
            final(self)@ == old(self)@.union(id_texts(ids@)),
            final(self).order() == with_added(old(self).order(), ids@),
    {
        let mut i: usize = 0;
        proof {
            assert(id_texts(ids@.take(0)) =~= Set::empty());
            assert(old(self)@.union(id_texts(ids@.take(0))) =~= old(self)@);
        }
        while i < ids.len()
            invariant
                i <= ids.len(),
                self.wf(),
                self@ == old(self)@.union(id_texts(ids@.take(i as int))),
                self.order() == with_added(old(self).order(), ids@.take(i as int)),
            decreases ids.len() - i,
        {
            proof {
                self.lemma_order();
                assert(ids@.take(i + 1).drop_last() =~= ids@.take(i as int));
                lemma_id_texts_push(ids@.take(i as int), ids@[i as int]);
                assert(ids@.take(i as int).push(ids@[i as int]) =~= ids@.take(i + 1));
                assert(old(self)@.union(id_texts(ids@.take(i + 1))) =~= old(self)@.union(
                    id_texts(ids@.take(i as int)),
                ).insert(ids@[i as int]@));
            }
            self.insert(ids[i].clone());
            i = i + 1;
        }
        proof {
            assert(ids@.take(ids@.len() as int) =~= ids@);
        }
    }

    /// The set of the ids in a list.
    pub fn collect(ids: Vec<Id>) -> (set: Self)
        ensures
            set.wf(),
            set@ == id_texts(ids@),
            set.order() == with_added(Seq::empty(), ids@),
    {
        let mut set = IdSet::new();
        set.extend(ids);
        proof {
            assert(Set::<Seq<char>>::empty().union(id_texts(ids@)) =~= id_texts(ids@));
        }
        set
    }

    /// Tells whether an id is in the set.
    pub fn contains(&self, id: &Id) -> (answer: bool)
        ensures
            answer == self@.contains(id@),
    {
        self.members.contains(id.0.as_str())
    }

    /// The number of ids.
    pub fn len(&self) -> (len: usize)
        ensures
            len == self.order().len(),
    {
        self.ids.len()
    }

    /// The ids in their order.
    pub fn as_list(&self) -> (ids: &Vec<Id>)
        ensures
            ids@ == self.order(),
    {
        &self.ids
    }
}

/// The ids of a list are the texts that occur in it, and no others.
pub proof fn ids_of_a_list_are_those_in_it(ids: Seq<Id>, text: Seq<char>)
    ensures
        id_texts(ids).contains(text) <==> exists|i: int|
            0 <= i < ids.len() && (#[trigger] ids[i]).0@ == text,
{
    if exists|i: int| 0 <= i < ids.len() && (#[trigger] ids[i]).0@ == text {
        let i = choose|i: int| 0 <= i < ids.len() && (#[trigger] ids[i]).0@ == text;
        assert(ids[i]@ == text);
    }
}

/// A list is distinct exactly where no two of its places hold the same text.
pub proof fn distinct_lists_repeat_no_text(ids: Seq<Id>)
    ensures
        distinct(ids) <==> forall|i: int, j: int|
            0 <= i < j < ids.len() ==> (#[trigger] ids[i]).0@ != (#[trigger] ids[j]).0@,
{
    if forall|i: int, j: int|
        0 <= i < j < ids.len() ==> (#[trigger] ids[i]).0@ != (#[trigger] ids[j]).0@ {
        assert forall|i: int, j: int| 0 <= i < j < ids.len() implies (#[trigger] ids[i])@ != (
        #[trigger] ids[j])@ by {
            assert(ids[i].0@ != ids[j].0@);
        }
    }
    if distinct(ids) {
        assert forall|i: int, j: int| 0 <= i < j < ids.len() implies (#[trigger] ids[i]).0@ != (
        #[trigger] ids[j]).0@ by {
            assert(ids[i]@ != ids[j]@);
        }
    }
}

/// Ids come in at the end of the order, in their own order, and an id that is already there stays
/// where it is.
pub proof fn ids_are_added_at_the_end(order: Seq<Id>, ids: Seq<Id>, id: Id)
    ensures
        with_added(order, Seq::empty()) == order,
        with_added(order, ids.push(id)) == (if exists|i: int|
            0 <= i < with_added(order, ids).len() && (#[trigger] with_added(order, ids)[i]).0@
                == id.0@ {
            with_added(order, ids)
        } else {
            with_added(order, ids).push(id)
        }),
{
    assert(ids.push(id).drop_last() =~= ids);
    ids_of_a_list_are_those_in_it(with_added(order, ids), id.0@);
}

} // verus!
