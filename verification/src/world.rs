use crate::error::CdnResult;
use crate::grid::{house_cells, house_mut, house_ref, houses_new, is_table, shape_fits, Grid};
use crate::notes::Notes;
use crate::position::{cell_count, in_bounds, target, views, MoveDirection, Position};
use crate::repairman::Id;
use vstd::prelude::*;
use vstd::seq_lib::seq_to_set_is_finite;

verus! {

/// The size of a world and what it holds, fixed at compile time so that
/// worlds and positions of different sizes are different types.
pub trait WorldConfig {
    const MAX_LEN_X: usize = 7;
    const MAX_LEN_Y: usize = 7;
    const REPAIRMEN: usize = 4;
    const HOUSES_NEEDING_REPAIR: usize = 6;
}

/// The state of a house: repaired, or still in need of repair.
#[derive(Clone, Copy, Debug, PartialEq, Eq, Structural)]
pub enum HouseStatus {
    Repaired,
    NeedsRepair,
}

impl Default for HouseStatus {
    fn default() -> (status: Self)
        ensures
            status == HouseStatus::Repaired,
    {
        HouseStatus::Repaired
    }
}

/// One cell of the grid: whether it still needs repair, and what the repairmen who
/// came by have left written in it.
#[derive(Debug)]
pub struct House {
    pub notes: Notes,
    pub status: HouseStatus,
}

impl House {
    /// True of a house as it is first built: repaired and without notes.
    pub open spec fn is_default(&self) -> bool {
        self.status == HouseStatus::Repaired && self.notes@ == Map::<usize, usize>::empty()
    }
}

impl Default for House {
    fn default() -> (house: Self)
        ensures
            house.is_default(),
    {
        House { notes: Notes::new(), status: HouseStatus::Repaired }
    }
}

/// A slot for a value that has one owner: who holds the slot exclusively may change
/// what is in it, and who holds it shared may only look.
#[derive(Debug)]
pub struct SyncCell<T>(T);

impl<T> SyncCell<T> {
    /// What the slot holds.
    pub closed spec fn value(&self) -> T {
        self.0
    }

    /// A slot that holds `value`.
    pub fn new(value: T) -> (cell: Self)
        ensures
            cell.value() == value,
    {
        SyncCell(value)
    }

    /// What the slot holds, to be looked at.
    pub fn get(&self) -> (value: &T)
        ensures
            *value == self.value(),
    {
        &self.0
    }

    /// What the slot holds, to be changed in place.
    pub fn get_mut(&mut self) -> (value: &mut T)
        ensures
            *value == old(self).value(),
            final(self).value() == *final(value),
    {
        &mut self.0
    }
}

impl<T: Default> Default for SyncCell<T> {
    fn default() -> (cell: Self) {
        SyncCell(T::default())
    }
}

/// True when a grid of the size of `C` can be held in memory and, if `C` has
/// repairmen, has a cell to put them on.
pub open spec fn has_room<C: WorldConfig>() -> bool {
    &&& shape_fits(C::MAX_LEN_Y as int, C::MAX_LEN_X as int)
    &&& C::REPAIRMEN > 0 ==> C::MAX_LEN_X > 0 && C::MAX_LEN_Y > 0
}

/// True when a world of `C` can be built: it has room, and no more houses need
/// repair than there are cells.
pub open spec fn valid_config<C: WorldConfig>() -> bool {
    &&& has_room::<C>()
    &&& C::HOUSES_NEEDING_REPAIR <= cell_count::<C>()
}

/// How many of `positions` are `p`.
pub open spec fn count_at(positions: Seq<(int, int)>, p: (int, int)) -> nat
    decreases positions.len(),
{
    if positions.len() == 0 {
        0
    } else {
        count_at(positions.drop_last(), p) + if positions.last() == p {
            1nat
        } else {
            0nat
        }
    }
}

/// No more of `positions` are `p` than there are positions.
pub proof fn lemma_count_at_most_len(positions: Seq<(int, int)>, p: (int, int))
    ensures
        count_at(positions, p) <= positions.len(),
    decreases positions.len(),
{
    if positions.len() > 0 {
        lemma_count_at_most_len(positions.drop_last(), p);
    }
}

/// How many of the positions `seen` are `position`.
pub fn count_standing_at<C: WorldConfig>(
    seen: &Vec<Position<C>>,
    position: &Position<C>,
) -> (count: usize)
    ensures
        count == count_at(views(seen@), position@),
{
    let mut count: usize = 0;
    let mut i: usize = 0;
    while i < seen.len()
        invariant
            i <= seen.len(),
            count <= i,
            count == count_at(views(seen@).take(i as int), position@),
        decreases seen.len() - i,
    {
        assert(views(seen@).take(i + 1).drop_last() =~= views(seen@).take(i as int));
        if seen[i] == *position {
            count += 1;
        }
        i += 1;
    }
    assert(views(seen@).take(i as int) =~= views(seen@));
    count
}

/// The grid of houses and the place of each repairman on it.
#[derive(Debug)]
pub struct World<C: WorldConfig> {
    houses: Grid<House>,
    repairmen: Vec<SyncCell<Position<C>>>,
}

impl<C: WorldConfig> World<C> {
    /// The houses, row by row: `houses()[y][x]` stands at the position `(x, y)`.
    pub closed spec fn houses(&self) -> Seq<Seq<House>> {
        house_cells(self.houses)
    }

    /// Where each repairman stands, by the number of its id.
    pub closed spec fn positions(&self) -> Seq<(int, int)> {
        Seq::new(self.repairmen.len() as nat, |i: int| self.repairmen[i].value()@)
    }

    /// The invariant of a world: the grid has the size of `C`, and each of the
    /// repairmen of `C` stands on a cell of it.
    pub open spec fn wf(&self) -> bool {
        &&& is_table(self.houses(), C::MAX_LEN_Y as int, C::MAX_LEN_X as int)
        &&& self.positions().len() == C::REPAIRMEN
        &&& forall|i: int|
            0 <= i < self.positions().len() ==> in_bounds::<C>(#[trigger] self.positions()[i])
    }

    /// The house at the position `p`.
    pub open spec fn house_at(&self, p: (int, int)) -> House {
        self.houses()[p.1][p.0]
    }

    /// The positions of the houses that need repair.
    pub open spec fn needing_repair(&self) -> Set<(int, int)> {
        Set::new(
            |p: (int, int)|
                in_bounds::<C>(p) && self.house_at(p).status == HouseStatus::NeedsRepair,
        )
    }

    /// A world whose houses that need repair, as many as `C` asks for, lie on cells
    /// drawn at random, no two on the same; all other houses are repaired, no house
    /// has notes, and each repairman stands on a cell drawn at random.
    pub fn new() -> (world: Self)
        requires
            valid_config::<C>(),
        ensures
            world.wf(),
            world.needing_repair().finite(),
            world.needing_repair().len() == C::HOUSES_NEEDING_REPAIR,
            forall|p: (int, int)|
                in_bounds::<C>(p) ==> (#[trigger] world.house_at(p)).notes@ == Map::<
                    usize,
                    usize,
                >::empty(),
    {
        assert(C::MAX_LEN_Y * C::MAX_LEN_X == C::MAX_LEN_X * C::MAX_LEN_Y) by (nonlinear_arith);
        let mut rng = rand::thread_rng();
        let mut houses = houses_new(C::MAX_LEN_Y, C::MAX_LEN_X);
        let damaged = Position::<C>::new_random_set(&mut rng, C::HOUSES_NEEDING_REPAIR);
        let mut i: usize = 0;
        while i < damaged.len()
            invariant
                i <= damaged.len(),
                forall|j: int| 0 <= j < damaged.len() ==> (#[trigger] damaged[j]).wf(),
                is_table(house_cells(houses), C::MAX_LEN_Y as int, C::MAX_LEN_X as int),
                forall|p: (int, int)|
                    in_bounds::<C>(p) ==> (#[trigger] house_cells(houses)[p.1][p.0]).notes@
                        == Map::<usize, usize>::empty(),
                forall|p: (int, int)|
                    in_bounds::<C>(p) ==> ((#[trigger] house_cells(houses)[p.1][p.0]).status
                        == HouseStatus::NeedsRepair <==> exists|j: int|
                        0 <= j < i && (#[trigger] damaged[j])@ == p),
            decreases damaged.len() - i,
        {
            let ghost before = house_cells(houses);
            let x = damaged[i].x();
            let y = damaged[i].y();
            let house = house_mut(&mut houses, y, x);
            house.status = HouseStatus::NeedsRepair;
            i += 1;
            proof {
                let here = damaged[i - 1]@;
                assert forall|p: (int, int)| in_bounds::<C>(p) implies ((#[trigger] house_cells(
                    houses,
                )[p.1][p.0]).status == HouseStatus::NeedsRepair <==> exists|j: int|
                    0 <= j < i && (#[trigger] damaged[j])@ == p) by {
                    if p == here {
                        assert(damaged[i - 1]@ == p);
                    } else {
                        assert(house_cells(houses)[p.1][p.0] == before[p.1][p.0]);
                        if exists|j: int| 0 <= j < i && (#[trigger] damaged[j])@ == p {
                            let j = choose|j: int| 0 <= j < i && (#[trigger] damaged[j])@ == p;
                            assert(0 <= j < i - 1 && damaged[j]@ == p);
                        }
                    }
                }
                assert forall|p: (int, int)| in_bounds::<C>(p) implies (#[trigger] house_cells(
                    houses,
                )[p.1][p.0]).notes@ == Map::<usize, usize>::empty() by {
                    if p != here {
                        assert(house_cells(houses)[p.1][p.0] == before[p.1][p.0]);
                    }
                }
            }
        }
        let mut repairmen: Vec<SyncCell<Position<C>>> = Vec::new();
        let mut id: usize = 0;
        while id < C::REPAIRMEN
            invariant
                id <= C::REPAIRMEN,
                has_room::<C>(),
                repairmen.len() == id,
                forall|j: int| 0 <= j < id ==> (#[trigger] repairmen[j]).value().wf(),
            decreases C::REPAIRMEN - id,
        {
            repairmen.push(SyncCell::new(Position::random(&mut rng)));
            id += 1;
        }
        let world = World { houses, repairmen };
        proof {
            let marked = views(damaged@);
            assert(world.needing_repair() =~= marked.to_set()) by {
                let needing = world.needing_repair();
                assert forall|p: (int, int)| needing.contains(p) implies marked.contains(p) by {
                    let j = choose|j: int| 0 <= j < i && (#[trigger] damaged[j])@ == p;
                    assert(marked[j] == p);
                }
                assert forall|p: (int, int)| marked.contains(p) implies needing.contains(p) by {
                    let j = choose|j: int| 0 <= j < marked.len() && marked[j] == p;
                    assert(damaged[j].wf());
                    assert(damaged[j]@ == p);
                }
            }
            seq_to_set_is_finite(marked);
            marked.unique_seq_to_set();
        }
        world
    }

    /// A world as `new` builds it, where `C` describes a world that can be built, and
    /// nothing where it does not.
    pub fn try_new() -> (world: Option<Self>)
        ensures
            world is Some <==> valid_config::<C>(),
            world matches Some(built) ==> {
                &&& built.wf()
                &&& built.needing_repair().finite()
                &&& built.needing_repair().len() == C::HOUSES_NEEDING_REPAIR
                &&& forall|p: (int, int)|
                    in_bounds::<C>(p) ==> (#[trigger] built.house_at(p)).notes@ == Map::<
                        usize,
                        usize,
                    >::empty()
            },
    {
        if Self::config_is_valid() {
            Some(Self::new())
        } else {
            None
        }
    }

    /// A world in which every house is repaired and without notes, and every
    /// repairman stands at `(0, 0)`.
    pub fn default() -> (world: Self)
        requires
            has_room::<C>(),
        ensures
            world.wf(),
            world.needing_repair() == Set::<(int, int)>::empty(),
            forall|p: (int, int)| in_bounds::<C>(p) ==> (#[trigger] world.house_at(p)).is_default(),
            forall|i: int|
                0 <= i < C::REPAIRMEN ==> #[trigger] world.positions()[i] == (0int, 0int),
    {
        let houses = houses_new(C::MAX_LEN_Y, C::MAX_LEN_X);
        let mut repairmen: Vec<SyncCell<Position<C>>> = Vec::new();
        let mut id: usize = 0;
        while id < C::REPAIRMEN
            invariant
                id <= C::REPAIRMEN,
                has_room::<C>(),
                repairmen.len() == id,
                forall|j: int| 0 <= j < id ==> (#[trigger] repairmen[j]).value()@ == (0int, 0int),
            decreases C::REPAIRMEN - id,
        {
            repairmen.push(SyncCell::new(Position::new(0, 0)));
            id += 1;
        }
        let world = World { houses, repairmen };
        assert(world.needing_repair() =~= Set::<(int, int)>::empty());
        world
    }

    /// The ids of the repairmen of this world: `0`, `1`, and so on, one for each.
    pub fn get_repairmen_ids(&self) -> (ids: Vec<Id>)
        ensures
            ids.len() == self.positions().len(),
            forall|i: int| 0 <= i < ids.len() ==> (#[trigger] ids[i]).0 == i,
    {
        let mut ids: Vec<Id> = Vec::new();
        let mut i: usize = 0;
        while i < self.repairmen.len()
            invariant
                i <= self.repairmen.len(),
                ids.len() == i,
                forall|j: int| 0 <= j < i ==> (#[trigger] ids[j]).0 == j,
            decreases self.repairmen.len() - i,
        {
            ids.push(Id(i));
            i += 1;
        }
        ids
    }

    /// Where the repairman `id` stands.
    pub fn get_repairman_position(&self, id: Id) -> (position: &Position<C>)
        requires
            self.wf(),
            id.0 < C::REPAIRMEN,
        ensures
            position@ == self.positions()[id.0 as int],
            position.wf(),
    {
        self.repairmen[id.0].get()
    }

    /// The house at `position`.
    pub fn get_house(&self, position: &Position<C>) -> (house: &House)
        requires
            self.wf(),
            position.wf(),
        ensures
            *house == self.house_at(position@),
    {
        house_ref(&self.houses, position.y(), position.x())
    }

    /// The house at `position`, to be changed in place; nothing else of the world
    /// changes.
    pub fn get_house_mut(&mut self, position: &Position<C>) -> (house: &mut House)
        requires
            old(self).wf(),
            position.wf(),
        ensures
            *house == old(self).house_at(position@),
            final(self).wf(),
            final(self).positions() == old(self).positions(),
            final(self).house_at(position@) == *final(house),
            forall|p: (int, int)|
                in_bounds::<C>(p) && p != position@ ==> #[trigger] final(self).house_at(p)
                    == old(self).house_at(p),
    {
        house_mut(&mut self.houses, position.y(), position.x())
    }

    /// Takes the house at `position` out of the world and leaves a house as it is
    /// first built in its place; nothing else of the world changes.
    pub fn take_house(&mut self, position: &Position<C>) -> (house: House)
        requires
            old(self).wf(),
            position.wf(),
        ensures
            house == old(self).house_at(position@),
            final(self).wf(),
            final(self).positions() == old(self).positions(),
            final(self).house_at(position@).is_default(),
            forall|p: (int, int)|
                in_bounds::<C>(p) && p != position@ ==> #[trigger] final(self).house_at(p)
                    == old(self).house_at(p),
    {
        let mut house = House::default();
        std::mem::swap(&mut house, house_mut(&mut self.houses, position.y(), position.x()));
        house
    }

    /// The house on which the repairman `id` stands.
    pub fn get_repairman_house(&self, id: Id) -> (house: &House)
        requires
            self.wf(),
            id.0 < C::REPAIRMEN,
        ensures
            *house == self.house_at(self.positions()[id.0 as int]),
    {
        let position = self.repairmen[id.0].get();
        house_ref(&self.houses, position.y(), position.x())
    }

    /// Moves the repairman `id` one step and returns the house it then stands on; a
    /// step that would leave the grid fails and changes nothing.
    pub fn move_repairman(&mut self, id: Id, direction: MoveDirection) -> (r: CdnResult<&House>)
        requires
            old(self).wf(),
            id.0 < C::REPAIRMEN,
        ensures
            final(self).wf(),
            final(self).houses() == old(self).houses(),
            forall|i: int|
                0 <= i < C::REPAIRMEN && i != id.0 ==> #[trigger] final(self).positions()[i]
                    == old(self).positions()[i],
            in_bounds::<C>(target(old(self).positions()[id.0 as int], direction)) ==> r is Ok
                && final(self).positions()[id.0 as int] == target(
                old(self).positions()[id.0 as int],
                direction,
            ) && *r->Ok_0 == final(self).house_at(final(self).positions()[id.0 as int]),
            !in_bounds::<C>(target(old(self).positions()[id.0 as int], direction)) ==> r is Err
                && *r->Err_0.0 is InvalidMoveDirection
                && final(self).positions() == old(self).positions(),
    {
        let ghost before = self.positions();
        assert(in_bounds::<C>(before[id.0 as int]));
        let position = self.repairmen[id.0].get_mut();
        let moved = position.move_by(direction);
        proof {
            assert forall|i: int| 0 <= i < C::REPAIRMEN && i != id.0 implies #[trigger]
                self.positions()[i] == before[i] by {}
            if moved is Err {
                assert(self.positions() =~= before);
            }
        }
        match moved {
            Ok(()) => {
                let position = self.repairmen[id.0].get();
                Ok(house_ref(&self.houses, position.y(), position.x()))
            },
            Err(e) => Err(e),
        }
    }

    /// How many repairmen stand at `position`.
    pub fn repairmen_at(&self, position: &Position<C>) -> (count: usize)
        ensures
            count == count_at(self.positions(), position@),
    {
        let mut count: usize = 0;
        let mut i: usize = 0;
        while i < self.repairmen.len()
            invariant
                i <= self.repairmen.len(),
                count <= i,
                count == count_at(self.positions().take(i as int), position@),
            decreases self.repairmen.len() - i,
        {
            assert(self.positions().take(i + 1).drop_last() =~= self.positions().take(i as int));
            if *self.repairmen[i].get() == *position {
                count += 1;
            }
            i += 1;
        }
        assert(self.positions().take(i as int) =~= self.positions());
        count
    }

    /// True when `C` describes a world that can be built.
    pub fn config_is_valid() -> (valid: bool)
        ensures
            valid == valid_config::<C>(),
    {
        let limit: usize = isize::MAX as usize;
        if C::MAX_LEN_X > limit || C::MAX_LEN_Y > limit {
            return false;
        }
        if C::REPAIRMEN > 0 && (C::MAX_LEN_X == 0 || C::MAX_LEN_Y == 0) {
            return false;
        }
        assert(C::MAX_LEN_Y * C::MAX_LEN_X == C::MAX_LEN_X * C::MAX_LEN_Y) by (nonlinear_arith);
        match C::MAX_LEN_X.checked_mul(C::MAX_LEN_Y) {
            Some(cells) => cells <= limit && C::HOUSES_NEEDING_REPAIR <= cells,
            None => false,
        }
    }
}

} // verus!
