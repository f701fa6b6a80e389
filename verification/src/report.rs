use crate::notes::{sum, Notes};
use crate::repairman::{count_of, Id};
use std::collections::BTreeMap;
use vstd::prelude::*;
use vstd::std_specs::btree::{axiom_increasing_seq_meaning, increasing_seq, spec_btree_map_iter};
use vstd::std_specs::cmp::OrdSpec;
use vstd::std_specs::iter::IteratorSpec;

verus! {

broadcast use vstd::std_specs::btree::group_btree_axioms;

/// The notebook that each repairman handed over when it was done, by the number of
/// its id.
#[derive(Debug)]
pub struct List(BTreeMap<usize, Notes>);

/// For each repairman of `notebooks`, how many houses its own notebook says it has
/// repaired.
pub open spec fn own_counts(notebooks: Map<usize, Map<usize, usize>>) -> Map<usize, usize> {
    Map::new(
        |id: usize| notebooks.contains_key(id),
        |id: usize| count_of(notebooks[id], id) as usize,
    )
}

impl View for List {
    type V = Map<usize, Map<usize, usize>>;

    closed spec fn view(&self) -> Map<usize, Map<usize, usize>> {
        Map::new(|id: usize| self.0@.contains_key(id), |id: usize| self.0@[id]@)
    }
}

impl List {
    /// A list without a notebook.
    pub fn new() -> (list: Self)
        ensures
            list@ == Map::<usize, Map<usize, usize>>::empty(),
    {
        let list = List(BTreeMap::new());
        assert(list@ =~= Map::<usize, Map<usize, usize>>::empty());
        list
    }

    /// Files the notebook of the repairman `id`, in place of one filed for it before.
    pub fn insert(&mut self, id: Id, notes: Notes)
        ensures
            final(self)@ == old(self)@.insert(id.0, notes@),
    {
        self.0.insert(id.0, notes);
        assert(self@ =~= old(self)@.insert(id.0, notes@));
    }

    /// The notebook filed for the repairman `id`, if there is one.
    pub fn get(&self, id: Id) -> (notes: Option<&Notes>)
        ensures
            notes is Some <==> self@.contains_key(id.0),
            notes matches Some(found) ==> found@ == self@[id.0],
    {
        self.0.get(&id.0)
    }

    /// The ids of the repairmen whose notebooks are filed, in rising order.
    pub fn ids(&self) -> (ids: Vec<Id>)
        ensures
            forall|i: int, j: int| 0 <= i < j < ids.len() ==> ids[i].0 < ids[j].0,
            forall|i: int| 0 <= i < ids.len() ==> self@.contains_key((#[trigger] ids[i]).0),
            forall|id: usize|
                self@.contains_key(id) ==> exists|i: int|
                    0 <= i < ids.len() && (#[trigger] ids[i]).0 == id,
    {
        let mut ids: Vec<Id> = Vec::new();
        for pair in it: self.0.iter()
            invariant
                ids.len() == it.index(),
                forall|i: int| 0 <= i < ids.len() ==> (#[trigger] ids[i]).0 == *it.seq()[i].0,
                it.seq() == spec_btree_map_iter(&self.0).remaining(),
                increasing_seq(it.seq().map_values(|kv: (&usize, &Notes)| *kv.0)),
        {
            ids.push(Id(*pair.0));
        }
        proof {
            broadcast use vstd::laws_cmp::group_laws_cmp;

            let walked = spec_btree_map_iter(&self.0).remaining();
            let keys = walked.map_values(|kv: (&usize, &Notes)| *kv.0);
            axiom_increasing_seq_meaning(keys);
            assert forall|i: int, j: int| 0 <= i < j < ids.len() implies ids[i].0 < ids[j].0 by {
                assert(keys[i] == ids[i].0 && keys[j] == ids[j].0);
                assert(keys[i].cmp_spec(&keys[j]) is Less);
            }
            assert forall|id: usize| self@.contains_key(id) implies exists|i: int|
                0 <= i < ids.len() && (#[trigger] ids[i]).0 == id by {
                let pair = (&id, &self.0@[id]);
                assert(walked.contains(pair));
                let i = choose|i: int| 0 <= i < walked.len() && walked[i] == pair;
                assert(ids[i].0 == id);
            }
        }
        ids
    }

    /// How many houses the repairman `id` has repaired by its own notebook; zero where
    /// no notebook is filed for it or the notebook does not say.
    pub fn repaired_by(&self, id: Id) -> (count: usize)
        ensures
            count == if self@.contains_key(id.0) {
                count_of(self@[id.0], id.0)
            } else {
                0
            },
    {
        match self.0.get(&id.0) {
            Some(notes) => match notes.get(id) {
                Some(count) => count,
                None => 0,
            },
            None => 0,
        }
    }

    /// The houses repaired in all: what each repairman's own notebook says of itself,
    /// added up; `usize::MAX` where the sum is greater than that.
    pub fn total_repaired(&self) -> (total: usize)
        ensures
            total == if sum(own_counts(self@)) <= usize::MAX {
                sum(own_counts(self@))
            } else {
                usize::MAX as nat
            },
    {
        let ids = self.ids();
        let mut own = Notes::new();
        let mut i: usize = 0;
        while i < ids.len()
            invariant
                i <= ids.len(),
                forall|a: int, b: int| 0 <= a < b < ids.len() ==> ids[a].0 < ids[b].0,
                forall|a: int| 0 <= a < ids.len() ==> self@.contains_key((#[trigger] ids[a]).0),
                forall|id: usize|
                    own@.contains_key(id) <==> exists|a: int|
                        0 <= a < i && (#[trigger] ids[a]).0 == id,
                forall|id: usize|
                    own@.contains_key(id) ==> own@[id] == #[trigger] own_counts(self@)[id],
            decreases ids.len() - i,
        {
            let ghost before = own@;
            let count = self.repaired_by(ids[i]);
            own.insert(ids[i], count);
            i += 1;
            proof {
                let added = ids[i - 1].0;
                assert forall|id: usize|
                    own@.contains_key(id) <==> exists|a: int|
                        0 <= a < i && (#[trigger] ids[a]).0 == id by {
                    if id == added {
                        assert(ids[i - 1].0 == id);
                    } else if exists|a: int| 0 <= a < i && (#[trigger] ids[a]).0 == id {
                        let a = choose|a: int| 0 <= a < i && (#[trigger] ids[a]).0 == id;
                        assert(0 <= a < i - 1 && ids[a].0 == id);
                    } else if before.contains_key(id) {
                        let a = choose|a: int| 0 <= a < i - 1 && (#[trigger] ids[a]).0 == id;
                        assert(0 <= a < i && ids[a].0 == id);
                    }
                }
            }
        }
        proof {
            assert forall|id: usize| own@.contains_key(id) <==> own_counts(self@).contains_key(
                id,
            ) by {
                if own@.contains_key(id) {
                    let a = choose|a: int| 0 <= a < i && (#[trigger] ids[a]).0 == id;
                    assert(self@.contains_key(ids[a].0));
                }
            }
            assert(own@ =~= own_counts(self@));
        }
        own.total()
    }
}

impl Default for List {
    fn default() -> (list: Self)
        ensures
            list@ == Map::<usize, Map<usize, usize>>::empty(),
    {
        List::new()
    }
}

} // verus!
