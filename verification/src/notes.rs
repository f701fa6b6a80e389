use crate::repairman::Id;
use std::collections::BTreeMap;
use vstd::std_specs::btree::{axiom_increasing_seq_meaning, increasing_seq, spec_btree_map_iter};
use vstd::std_specs::cmp::OrdSpec;
use vstd::std_specs::iter::IteratorSpec;
use vstd::prelude::*;

verus! {

broadcast use vstd::std_specs::btree::group_btree_axioms;

/// What is known of the work done: for each repairman heard of, by the number of
/// its id, how many houses it has repaired.
#[derive(Debug)]
pub struct Notes(BTreeMap<usize, usize>);

impl View for Notes {
    type V = Map<usize, usize>;

    closed spec fn view(&self) -> Map<usize, usize> {
        self.0@
    }
}

/// True when `entries` lists the pairs of `m`, each once, by rising key.
pub open spec fn lists(entries: Seq<(usize, usize)>, m: Map<usize, usize>) -> bool {
    &&& forall|i: int, j: int| 0 <= i < j < entries.len() ==> entries[i].0 < entries[j].0
    &&& forall|i: int|
        0 <= i < entries.len() ==> m.contains_key(#[trigger] entries[i].0) && m[entries[i].0]
            == entries[i].1
    &&& forall|k: usize|
        m.contains_key(k) ==> exists|i: int| 0 <= i < entries.len() && #[trigger] entries[i].0 == k
}

/// The counts of `m` for the ids below `bound`, added up.
pub open spec fn sum_below(m: Map<usize, usize>, bound: nat) -> nat
    decreases bound,
{
    if bound == 0 {
        0
    } else {
        let k = (bound - 1) as usize;
        sum_below(m, (bound - 1) as nat) + if m.contains_key(k) {
            m[k] as nat
        } else {
            0
        }
    }
}

/// All the counts of `m`, added up.
pub open spec fn sum(m: Map<usize, usize>) -> nat {
    sum_below(m, usize::MAX as nat + 1)
}

/// What a reader knows after reading `theirs`: every id of either, and for an id of
/// `theirs` the greater of the two counts, a count that is missing taken as zero.
pub open spec fn merged(mine: Map<usize, usize>, theirs: Map<usize, usize>) -> Map<usize, usize> {
    Map::new(
        |k: usize| mine.contains_key(k) || theirs.contains_key(k),
        |k: usize|
            if theirs.contains_key(k) && !(mine.contains_key(k) && mine[k] >= theirs[k]) {
                theirs[k]
            } else {
                mine[k]
            },
    )
}

/// True when `a` holds every id of `b` with a count that is at most as great.
pub open spec fn at_most(b: Map<usize, usize>, a: Map<usize, usize>) -> bool {
    forall|k: usize| #[trigger] b.contains_key(k) ==> a.contains_key(k) && b[k] <= a[k]
}

impl Notes {
    /// Notes that say nothing yet.
    pub fn new() -> (notes: Self)
        ensures
            notes@ == Map::<usize, usize>::empty(),
    {
        Notes(BTreeMap::new())
    }

    /// The count noted for `id`, if there is one.
    pub fn get(&self, id: Id) -> (count: Option<usize>)
        ensures
            count == if self@.contains_key(id.0) {
                Some(self@[id.0])
            } else {
                None
            },
    {
        match self.0.get(&id.0) {
            Some(n) => Some(*n),
            None => None,
        }
    }

    /// Notes `count` for `id`, in place of what was noted for it before.
    pub fn insert(&mut self, id: Id, count: usize)
        ensures
            final(self)@ == old(self)@.insert(id.0, count),
    {
        self.0.insert(id.0, count);
    }

    /// All the counts added up; `usize::MAX` where the sum is greater than that.
    pub fn total(&self) -> (total: usize)
        ensures
            total == if sum(self@) <= usize::MAX {
                sum(self@)
            } else {
                usize::MAX as nat
            },
    {
        let entries = self.entries();
        let mut total: usize = 0;
        let ghost mut exact: nat = 0;
        let ghost mut floor: nat = 0;
        let mut i: usize = 0;
        while i < entries.len()
            invariant
                i <= entries.len(),
                lists(entries@, self@),
                exact == sum_below(self@, floor),
                floor <= usize::MAX as nat + 1,
                i > 0 ==> floor == entries[i - 1].0 + 1,
                i == 0 ==> floor == 0,
                total == if exact <= usize::MAX {
                    exact
                } else {
                    usize::MAX as nat
                },
            decreases entries.len() - i,
        {
            let (k, n) = entries[i];
            proof {
                assert forall|j: usize| floor <= j < k implies !self@.contains_key(j) by {
                    if self@.contains_key(j) {
                        let at = choose|at: int| 0 <= at < entries.len() && entries[at].0 == j;
                        if at < i {
                            assert(entries[at].0 <= entries[i - 1].0);
                        }
                    }
                }
                lemma_sum_below_gap(self@, floor, k as nat);
                assert(self@.contains_key(entries[i as int].0));
                floor = k as nat + 1;
                exact = exact + n as nat;
            }
            total = total.saturating_add(n);
            i += 1;
        }
        proof {
            assert forall|j: usize| floor <= j < usize::MAX as nat + 1 implies !self@.contains_key(
                j,
            ) by {
                if self@.contains_key(j) {
                    let at = choose|at: int| 0 <= at < entries.len() && entries[at].0 == j;
                    if at < i {
                        assert(entries[at].0 <= entries[i - 1].0);
                    }
                }
            }
            lemma_sum_below_gap(self@, floor, usize::MAX as nat + 1);
        }
        total
    }

    /// Reads `other` into these notes: an id of `other` is noted with the greater of
    /// the two counts, and no count is lowered.
    pub fn merge_max(&mut self, other: &Notes)
        ensures
            final(self)@ == merged(old(self)@, other@),
    {
        let entries = other.entries();
        let mut i: usize = 0;
        while i < entries.len()
            invariant
                i <= entries.len(),
                lists(entries@, other@),
                forall|k: usize|
                    self@.contains_key(k) <==> old(self)@.contains_key(k) || exists|j: int|
                        0 <= j < i && #[trigger] entries[j].0 == k,
                forall|k: usize|
                    (exists|j: int| 0 <= j < i && #[trigger] entries[j].0 == k) ==> self@[k]
                        == merged(old(self)@, other@)[k],
                forall|k: usize|
                    old(self)@.contains_key(k) && !(exists|j: int|
                        0 <= j < i && #[trigger] entries[j].0 == k) ==> self@[k] == old(self)@[k],
            decreases entries.len() - i,
        {
            let (k, n) = entries[i];
            let ghost before = self@;
            assert(other@.contains_key(entries[i as int].0));
            assert(!(exists|j: int| 0 <= j < i && #[trigger] entries[j].0 == k));
            let raise = match self.0.get(&k) {
                Some(mine) => *mine < n,
                None => true,
            };
            if raise {
                self.0.insert(k, n);
            }
            i += 1;
            proof {
                assert forall|q: usize|
                    self@.contains_key(q) <==> old(self)@.contains_key(q) || exists|j: int|
                        0 <= j < i && #[trigger] entries[j].0 == q by {
                    if q == k {
                        assert(entries[i - 1].0 == q);
                    } else {
                        if exists|j: int| 0 <= j < i && #[trigger] entries[j].0 == q {
                            let j = choose|j: int| 0 <= j < i && #[trigger] entries[j].0 == q;
                            assert(0 <= j < i - 1 && entries[j].0 == q);
                        }
                    }
                }
                assert forall|q: usize|
                    (exists|j: int| 0 <= j < i && #[trigger] entries[j].0 == q) implies self@[q]
                    == merged(old(self)@, other@)[q] by {
                    let j = choose|j: int| 0 <= j < i && #[trigger] entries[j].0 == q;
                    if q != k {
                        assert(0 <= j < i - 1 && entries[j].0 == q);
                    }
                }
                assert forall|q: usize|
                    old(self)@.contains_key(q) && !(exists|j: int|
                        0 <= j < i && #[trigger] entries[j].0 == q) implies self@[q] == old(
                    self,
                )@[q] by {
                    if q == k {
                        assert(entries[i - 1].0 == q);
                    } else {
                        if exists|j: int| 0 <= j < i - 1 && #[trigger] entries[j].0 == q {
                            let j = choose|j: int| 0 <= j < i - 1 && #[trigger] entries[j].0 == q;
                            assert(0 <= j < i && entries[j].0 == q);
                        }
                    }
                }
            }
        }
        proof {
            assert forall|k: usize| other@.contains_key(k) <==> (exists|j: int|
                0 <= j < i && #[trigger] entries[j].0 == k) by {
                if exists|j: int| 0 <= j < i && #[trigger] entries[j].0 == k {
                    let j = choose|j: int| 0 <= j < i && #[trigger] entries[j].0 == k;
                    assert(other@.contains_key(entries[j].0));
                }
            }
            assert(self@ =~= merged(old(self)@, other@));
        }
    }

    /// The pairs of id number and count, by rising id.
    pub fn entries(&self) -> (entries: Vec<(usize, usize)>)
        ensures
            lists(entries@, self@),
    {
        let mut entries: Vec<(usize, usize)> = Vec::new();
        for pair in it: self.0.iter()
            invariant
                entries.len() == it.index(),
                forall|i: int|
                    0 <= i < entries.len() ==> entries[i] == (*it.seq()[i].0, *it.seq()[i].1),
                it.seq() == spec_btree_map_iter(&self.0).remaining(),
                increasing_seq(
                    it.seq().map_values(|kv: (&usize, &usize)| *kv.0),
                ),
        {
            entries.push((*pair.0, *pair.1));
        }
        proof {
            broadcast use vstd::laws_cmp::group_laws_cmp;

            let walked = spec_btree_map_iter(&self.0).remaining();
            let keys = walked.map_values(|kv: (&usize, &usize)| *kv.0);
            axiom_increasing_seq_meaning(keys);
            assert forall|i: int, j: int| 0 <= i < j < entries.len() implies entries[i].0
                < entries[j].0 by {
                assert(keys[i] == entries[i].0 && keys[j] == entries[j].0);
                assert(keys[i].cmp_spec(&keys[j]) is Less);
            }
            assert forall|k: usize| self@.contains_key(k) implies exists|i: int|
                0 <= i < entries.len() && #[trigger] entries[i].0 == k by {
                let pair = (&k, &self@[k]);
                assert(walked.contains(pair));
                let i = choose|i: int| 0 <= i < walked.len() && walked[i] == pair;
                assert(entries[i].0 == k);
            }
        }
        entries
    }
}

impl Clone for Notes {
    fn clone(&self) -> (notes: Self)
        ensures
            notes@ == self@,
    {
        Notes(self.0.clone())
    }
}

impl Default for Notes {
    fn default() -> (notes: Self)
        ensures
            notes@ == Map::<usize, usize>::empty(),
    {
        Notes(BTreeMap::new())
    }
}

/// Where no id from `low` up to `high` is noted, the sums below the two agree.
pub proof fn lemma_sum_below_gap(m: Map<usize, usize>, low: nat, high: nat)
    requires
        low <= high <= usize::MAX as nat + 1,
        forall|k: usize| low <= k < high ==> !m.contains_key(k),
    ensures
        sum_below(m, high) == sum_below(m, low),
    decreases high,
{
    if low < high {
        lemma_sum_below_gap(m, low, (high - 1) as nat);
        assert(!m.contains_key((high - 1) as usize));
    }
}

/// Notes without a count add up to nothing.
pub proof fn lemma_sum_of_empty()
    ensures
        sum(Map::<usize, usize>::empty()) == 0,
{
    lemma_sum_below_gap(Map::<usize, usize>::empty(), 0, usize::MAX as nat + 1);
}

/// Noting `count` for `k` changes the sum by as much as the count of `k` changes, a
/// count that was missing taken as zero.
pub proof fn lemma_sum_after_insert(m: Map<usize, usize>, k: usize, count: usize)
    ensures
        sum(m.insert(k, count)) + (if m.contains_key(k) {
            m[k] as nat
        } else {
            0
        }) == sum(m) + count,
{
    lemma_sum_below_after_insert(m, k, count, usize::MAX as nat + 1);
}

proof fn lemma_sum_below_after_insert(m: Map<usize, usize>, k: usize, count: usize, bound: nat)
    requires
        bound <= usize::MAX as nat + 1,
    ensures
        sum_below(m.insert(k, count), bound) + (if m.contains_key(k) && k < bound {
            m[k] as nat
        } else {
            0
        }) == sum_below(m, bound) + (if k < bound {
            count as nat
        } else {
            0
        }),
    decreases bound,
{
    if bound > 0 {
        lemma_sum_below_after_insert(m, k, count, (bound - 1) as nat);
    }
}

/// No count is greater than the sum of all counts.
pub proof fn lemma_sum_covers_each(m: Map<usize, usize>, k: usize)
    requires
        m.contains_key(k),
    ensures
        m[k] <= sum(m),
{
    lemma_sum_below_covers(m, k, usize::MAX as nat + 1);
}

proof fn lemma_sum_below_covers(m: Map<usize, usize>, k: usize, bound: nat)
    requires
        m.contains_key(k),
        k < bound <= usize::MAX as nat + 1,
    ensures
        m[k] <= sum_below(m, bound),
    decreases bound,
{
    if k + 1 < bound {
        lemma_sum_below_covers(m, k, (bound - 1) as nat);
    }
}

/// Reading never lowers what is known: the reader keeps every id it had, with a
/// count at least as great, and learns every id it read, with a count at least as
/// great as the one read.
pub proof fn lemma_merged_never_lowers(mine: Map<usize, usize>, theirs: Map<usize, usize>)
    ensures
        at_most(mine, merged(mine, theirs)),
        at_most(theirs, merged(mine, theirs)),
{
}

/// Reading notes that say nothing new changes nothing: where the reader holds every
/// id of the notes read with a count at least as great, it knows afterwards what it
/// knew before.
pub proof fn lemma_merged_with_less(mine: Map<usize, usize>, theirs: Map<usize, usize>)
    requires
        at_most(theirs, mine),
    ensures
        merged(mine, theirs) == mine,
{
    assert(merged(mine, theirs) =~= mine);
}

/// Reading claims nothing new: where the reader's notes and the notes read both stay
/// at or below the counts of `truth`, so does what the reader knows afterwards.
pub proof fn lemma_merged_stays_below(
    mine: Map<usize, usize>,
    theirs: Map<usize, usize>,
    truth: Map<usize, usize>,
)
    requires
        at_most(mine, truth),
        at_most(theirs, truth),
    ensures
        at_most(merged(mine, theirs), truth),
{
    let both = merged(mine, theirs);
    assert forall|k: usize| #[trigger] both.contains_key(k) implies truth.contains_key(k)
        && both[k] <= truth[k] by {
        assert(theirs.contains_key(k) ==> theirs[k] <= truth[k]);
        assert(mine.contains_key(k) ==> mine[k] <= truth[k]);
    }
}

/// Reading the same notes a second time changes nothing.
pub proof fn lemma_merged_twice(mine: Map<usize, usize>, theirs: Map<usize, usize>)
    ensures
        merged(merged(mine, theirs), theirs) == merged(mine, theirs),
{
    assert(merged(merged(mine, theirs), theirs) =~= merged(mine, theirs));
}

} // verus!
