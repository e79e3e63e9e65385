//! A set of logical processors.
use vstd::prelude::*;

use super::model::LogicalProcessorId;
use crate::seqs::{contains_u16, lemma_push_contains};

verus! {

/// A set of logical processors.
pub struct ProcessorSet {
    items: Vec<LogicalProcessorId>,
}

impl View for ProcessorSet {
    type V = Set<LogicalProcessorId>;

    closed spec fn view(&self) -> Set<LogicalProcessorId> {
        self.items@.to_set()
    }
}

impl ProcessorSet {
    pub fn new() -> (set: Self)
        ensures
            set@ == Set::<LogicalProcessorId>::empty(),
    {
        let set = ProcessorSet { items: Vec::new() };
        assert(set@ =~= Set::<LogicalProcessorId>::empty());
        set
    }

    pub fn contains(&self, id: LogicalProcessorId) -> (found: bool)
        ensures
            found == self@.contains(id),
    {
        for index in 0..self.items.len()
            invariant
                forall|i: int| 0 <= i < index ==> self.items@[i] != id,
        {
            if self.items[index] == id {
                assert(self.items@.contains(id));
                return true;
            }
        }
        false
    }

    /// Adds `id`, and tells whether it was not there before.
    pub fn insert(&mut self, id: LogicalProcessorId) -> (added: bool)
        ensures
            added == !old(self)@.contains(id),
            final(self)@ == old(self)@.insert(id),
    {
        let ghost before = self.items@;
        if self.contains(id) {
            assert(self@ =~= old(self)@.insert(id));
            return false;
        }
        self.items.push(id);
        proof {
            assert forall|other: LogicalProcessorId|
                self@.contains(other) == old(self)@.insert(id).contains(other) by {
                if before.contains(other) {
                    let i = choose|i: int| 0 <= i < before.len() && before[i] == other;
                    assert(self.items@[i] == other);
                }
                assert(self.items@[before.len() as int] == id);
            }
            assert(self@ =~= old(self)@.insert(id));
        }
        true
    }

    pub fn is_empty(&self) -> (empty: bool)
        ensures
            empty == (self@ == Set::<LogicalProcessorId>::empty()),
    {
        if self.items.len() == 0 {
            assert(self@ =~= Set::<LogicalProcessorId>::empty());
            true
        } else {
            assert(self.items@.contains(self.items@[0]));
            assert(self@.contains(self.items@[0]));
            false
        }
    }

    pub fn is_subset(&self, other: &ProcessorSet) -> (subset: bool)
        ensures
            subset == self@.subset_of(other@),
    {
        for index in 0..self.items.len()
            invariant
                forall|i: int| 0 <= i < index ==> other@.contains(#[trigger] self.items@[i]),
        {
            if !other.contains(self.items[index]) {
                assert(self.items@.contains(self.items@[index as int]));
                assert(self@.contains(self.items@[index as int]));
                return false;
            }
        }
        true
    }

    pub fn same_members(&self, other: &ProcessorSet) -> (same: bool)
        ensures
            same == (self@ == other@),
    {
        let same = self.is_subset(other) && other.is_subset(self);
        assert(same ==> self@ =~= other@);
        same
    }

    /// Adds every member of `members`, or stops and reports that one was there already.
    pub fn insert_all(&mut self, members: &ProcessorSet) -> (disjoint: bool)
        ensures
            disjoint == old(self)@.disjoint(members@),
            disjoint ==> final(self)@ == old(self)@.union(members@),
    {
        for index in 0..members.items.len()
            invariant
                forall|i: int|
                    0 <= i < index ==> !old(self)@.contains(#[trigger] members.items@[i]),
        {
            if self.contains(members.items[index]) {
                proof {
                    assert(members.items@.contains(members.items@[index as int]));
                    assert(members@.contains(members.items@[index as int]));
                }
                return false;
            }
        }
        let ghost before = self@;
        for index in 0..members.items.len()
            invariant
                forall|id: LogicalProcessorId|
                    #![trigger self@.contains(id)]
                    self@.contains(id) == (before.contains(id) || members.items@.take(
                        index as int,
                    ).contains(id)),
        {
            self.insert(members.items[index]);
            proof {
                let earlier = members.items@.take(index as int);
                let upto = members.items@.take(index + 1);
                assert(upto =~= earlier.push(members.items@[index as int]));
                assert forall|id: LogicalProcessorId|
                    upto.contains(id) == (earlier.contains(id) || id
                        == members.items@[index as int]) by {
                    if earlier.contains(id) {
                        let i = choose|i: int| 0 <= i < earlier.len() && earlier[i] == id;
                        assert(upto[i] == id);
                    }
                    assert(upto[index as int] == members.items@[index as int]);
                }
            }
        }
        assert(members.items@.take(members.items.len() as int) =~= members.items@);
        assert(self@ =~= before.union(members@));
        true
    }

    /// How many different groups the members lie in.
    pub fn group_count(&self) -> (count: usize)
        ensures
            count == self@.map(|id: LogicalProcessorId| id.group).len(),
    {
        let mut groups: Vec<u16> = Vec::new();
        let ghost group_of = |id: LogicalProcessorId| id.group;
        for index in 0..self.items.len()
            invariant
                groups@.no_duplicates(),
                group_of == (|id: LogicalProcessorId| id.group),
                forall|g: u16|
                    groups@.contains(g) <==> exists|i: int|
                        0 <= i < index && (#[trigger] self.items@[i]).group == g,
        {
            let group: u16 = self.items[index].group;
            let ghost earlier = groups@;
            if !contains_u16(&groups, group) {
                groups.push(group);
            }
            proof {
                lemma_push_contains(earlier, group);
                assert forall|g: u16|
                    groups@.contains(g) <==> exists|i: int|
                        0 <= i < index + 1 && (#[trigger] self.items@[i]).group == g by {
                    if groups@.contains(g) {
                        if g == group {
                            assert(self.items@[index as int].group == g);
                        } else {
                            assert(earlier.contains(g));
                        }
                    }
                }
            }
        }
        proof {
            groups@.unique_seq_to_set();
            let mapped = self@.map(group_of);
            assert forall|g: u16| groups@.to_set().contains(g) == mapped.contains(g) by {
                if groups@.contains(g) {
                    let i = choose|i: int|
                        0 <= i < self.items@.len() && (#[trigger] self.items@[i]).group == g;
                    assert(self.items@.contains(self.items@[i]));
                    assert(self@.contains(self.items@[i]));
                }
                if mapped.contains(g) {
                    let id = choose|id: LogicalProcessorId|
                        self@.contains(id) && g == group_of(id);
                    let i = choose|i: int| 0 <= i < self.items@.len() && self.items@[i] == id;
                    assert(self.items@[i].group == g);
                }
            }
            assert(groups@.to_set() =~= mapped);
        }
        groups.len()
    }
}

} // verus!
