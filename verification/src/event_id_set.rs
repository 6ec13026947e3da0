//! A set of event ids.
use vstd::prelude::*;

use crate::text::comes_before;

#[allow(unused_imports)]
use crate::text::{
    is_increasing, lemma_increasing_no_duplicates, lemma_insert_increasing, lemma_precedes_total,
    precedes,
};

verus! {

/// A set of event ids, kept in ascending order.
#[derive(Debug)]
pub struct EventIdSet {
    ids: Vec<String>,
}

impl View for EventIdSet {
    type V = Set<Seq<char>>;

    /// The ids that the set holds.
    open spec fn view(&self) -> Set<Seq<char>> {
        self.in_order().to_set()
    }
}

impl EventIdSet {
    /// The ids in ascending order.
    pub closed spec fn in_order(&self) -> Seq<Seq<char>> {
        self.ids@.map_values(|id: String| id@)
    }

    /// The ids are in ascending order; so none occurs twice.
    #[verifier::type_invariant]
    spec fn is_ordered(self) -> bool {
        is_increasing(self.in_order())
    }

    /// Creates an empty set.
    pub fn new() -> (set: Self)
        ensures
            set@ == Set::<Seq<char>>::empty(),
    {
        let set = EventIdSet { ids: Vec::new() };
        assert(set.in_order() =~= Seq::empty());
        assert(set@ =~= Set::empty());
        set
    }

    /// The number of ids in the set.
    pub fn len(&self) -> (len: usize)
        ensures
            len == self@.len(),
            len == self.in_order().len(),
            self@.finite(),
    {
        proof {
            use_type_invariant(self);
            lemma_increasing_no_duplicates(self.in_order());
            self.in_order().unique_seq_to_set();
        }
        self.ids.len()
    }

    /// Whether the set holds no id.
    pub fn is_empty(&self) -> (empty: bool)
        ensures
            empty == (self@ == Set::<Seq<char>>::empty()),
    {
        proof {
            if self.in_order().len() == 0 {
                assert(self@ =~= Set::empty());
            } else {
                assert(self@.contains(self.in_order()[0]));
            }
        }
        self.ids.len() == 0
    }

    /// The id at position `i` of the ascending order, counted from zero.
    pub fn get(&self, i: usize) -> (id: &String)
        requires
            i < self.in_order().len(),
        ensures
            id@ == self.in_order()[i as int],
            self@.contains(id@),
            is_increasing(self.in_order()),
    {
        proof {
            use_type_invariant(self);
        }
        assert(self.in_order()[i as int] == self.ids@[i as int]@);
        &self.ids[i]
    }

    /// Whether the set holds `id`.
    pub fn contains(&self, id: &str) -> (found: bool)
        ensures
            found == self@.contains(id@),
    {
        let mut i: usize = 0;
        while i < self.ids.len()
            invariant
                i <= self.ids.len(),
                forall|j: int| 0 <= j < i ==> self.in_order()[j] != id@,
            decreases self.ids.len() - i,
        {
            assert(self.in_order()[i as int] == self.ids@[i as int]@);
            if *self.ids[i].as_str() == *id {
                assert(self@.contains(self.in_order()[i as int]));
                return true;
            }
            i += 1;
        }
        false
    }

    /// Adds `id`, unless the set holds it already. Returns whether it was added.
    pub fn insert(&mut self, id: String) -> (added: bool)
        ensures
            added == !old(self)@.contains(id@),
            final(self)@ == old(self)@.insert(id@),
            is_increasing(final(self).in_order()),
    {
        proof {
            use_type_invariant(&*self);
        }
        let ghost before = self.in_order();
        let mut i: usize = 0;
        while i < self.ids.len() && comes_before(self.ids[i].as_str(), id.as_str())
            invariant
                i <= self.ids@.len(),
                before == self.in_order(),
                forall|j: int| 0 <= j < i ==> precedes(#[trigger] before[j], id@),
            decreases self.ids@.len() - i,
        {
            assert(before[i as int] == self.ids@[i as int]@);
            i += 1;
        }
        if i < self.ids.len() && *self.ids[i].as_str() == *id.as_str() {
            proof {
                assert(before[i as int] == id@);
                assert(self@.insert(id@) =~= self@);
            }
            return false;
        }
        proof {
            if i < before.len() {
                assert(before[i as int] == self.ids@[i as int]@);
                lemma_precedes_total(id@, before[i as int]);
            }
            lemma_insert_increasing(before, i as int, id@);
        }
        let mut ids: Vec<String> = Vec::new();
        std::mem::swap(&mut ids, &mut self.ids);
        ids.insert(i, id);
        proof {
            assert(ids@.map_values(|id: String| id@) =~= before.insert(i as int, id@));
        }
        self.ids = ids;
        proof {
            let after = self.in_order();
            assert forall|x: Seq<char>| after.to_set().contains(x) == before.to_set().insert(
                id@,
            ).contains(x) by {
                if before.contains(x) {
                    let k = choose|k: int| 0 <= k < before.len() && before[k] == x;
                    assert(after[if k < i {
                        k
                    } else {
                        k + 1
                    }] == x);
                }
                assert(after[i as int] == id@);
                if after.contains(x) && x != id@ {
                    let k = choose|k: int| 0 <= k < after.len() && after[k] == x;
                    assert(before[if k < i {
                        k
                    } else {
                        k - 1
                    }] == x);
                }
            }
            assert(self@ =~= before.to_set().insert(id@));
        }
        true
    }

    /// Removes the id at position `i` of the ascending order, counted from zero.
    pub fn remove_at(&mut self, i: usize)
        requires
            i < old(self).in_order().len(),
        ensures
            final(self).in_order() == old(self).in_order().remove(i as int),
            final(self)@ == old(self)@.remove(old(self).in_order()[i as int]),
    {
        proof {
            use_type_invariant(&*self);
            lemma_increasing_no_duplicates(self.in_order());
        }
        let ghost before = self.in_order();
        let mut ids: Vec<String> = Vec::new();
        std::mem::swap(&mut ids, &mut self.ids);
        let _removed: String = ids.remove(i);
        proof {
            let after = ids@.map_values(|id: String| id@);
            assert(after =~= before.remove(i as int));
            assert forall|a: int, b: int| 0 <= a < b < after.len() implies precedes(
                #[trigger] after[a],
                #[trigger] after[b],
            ) by {
                assert(after[a] == before[if a < i {
                    a
                } else {
                    a + 1
                }]);
                assert(after[b] == before[if b < i {
                    b
                } else {
                    b + 1
                }]);
            }
        }
        self.ids = ids;
        proof {
            let after = self.in_order();
            assert forall|x: Seq<char>| after.to_set().contains(x) == before.to_set().remove(
                before[i as int],
            ).contains(x) by {
                if before.contains(x) && x != before[i as int] {
                    let k = choose|k: int| 0 <= k < before.len() && before[k] == x;
                    if k < i {
                        assert(after[k] == x);
                    } else {
                        assert(after[k - 1] == x);
                    }
                }
                if after.contains(x) {
                    let k = choose|k: int| 0 <= k < after.len() && after[k] == x;
                    if k < i {
                        assert(before[k] == x);
                    } else {
                        assert(before[k + 1] == x);
                    }
                }
            }
            assert(self@ =~= before.to_set().remove(before[i as int]));
        }
    }
}

impl Clone for EventIdSet {
    fn clone(&self) -> (set: Self)
        ensures
            set@ == self@,
            set.in_order() == self.in_order(),
    {
        proof {
            use_type_invariant(self);
        }
        let ids: Vec<String> = self.ids.clone();
        assert(ids@.map_values(|id: String| id@) =~= self.in_order());
        EventIdSet { ids }
    }
}

impl Default for EventIdSet {
    fn default() -> (set: Self)
        ensures
            set@ == Set::<Seq<char>>::empty(),
    {
        EventIdSet::new()
    }
}

} // verus!
