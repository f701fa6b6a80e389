use crate::error::{CdnError, CdnErrorKind, CdnResult};
use crate::grid::{is_table, lock_cells, lock_ref, locks_new, Grid};
use crate::position::{views, Position};
use crate::repairman::Id;
use crate::sync::{guarded, lock, unpoisoned};
use crate::world::{
    count_standing_at, has_room, lemma_count_at_most_len, House, HouseStatus, World, WorldConfig,
};
use std::sync::Mutex;
use vstd::prelude::*;

verus! {

/// A world that the threads of a run share. Each house stands behind a lock of its
/// own, so that repairmen in different houses never wait for each other. For each
/// repairman the world keeps the position that it last made known: a repairman owns
/// its position, and what stands here is a copy for those who watch.
#[verifier::reject_recursive_types(C)]
#[derive(Debug)]
pub struct SharedWorld<C: WorldConfig> {
    houses: Grid<Mutex<House>>,
    repairmen: Vec<Mutex<Position<C>>>,
}

impl<C: WorldConfig> SharedWorld<C> {
    /// The locks of the houses, row by row: `cells()[y][x]` guards the house at the
    /// position `(x, y)`.
    pub closed spec fn cells(&self) -> Seq<Seq<Mutex<House>>> {
        lock_cells(self.houses)
    }

    /// The locks of the positions, by the number of the repairman's id.
    pub closed spec fn slots(&self) -> Seq<Mutex<Position<C>>> {
        self.repairmen@
    }

    /// The invariant of a shared world: the grid has the size of `C`, and there is a
    /// slot for each of the repairmen of `C`.
    pub open spec fn wf(&self) -> bool {
        &&& is_table(self.cells(), C::MAX_LEN_Y as int, C::MAX_LEN_X as int)
        &&& self.slots().len() == C::REPAIRMEN
    }

    /// Puts each house of `world` behind a lock of its own, and the position of each
    /// repairman into its slot.
    pub fn share(world: World<C>) -> (shared: Self)
        requires
            has_room::<C>(),
            world.wf(),
        ensures
            shared.wf(),
    {
        let mut world = world;
        let houses = locks_new(C::MAX_LEN_Y, C::MAX_LEN_X);
        let mut y: usize = 0;
        while y < C::MAX_LEN_Y
            invariant
                y <= C::MAX_LEN_Y,
                world.wf(),
                is_table(lock_cells(houses), C::MAX_LEN_Y as int, C::MAX_LEN_X as int),
            decreases C::MAX_LEN_Y - y,
        {
            let mut x: usize = 0;
            while x < C::MAX_LEN_X
                invariant
                    y < C::MAX_LEN_Y,
                    x <= C::MAX_LEN_X,
                    world.wf(),
                    is_table(lock_cells(houses), C::MAX_LEN_Y as int, C::MAX_LEN_X as int),
                decreases C::MAX_LEN_X - x,
            {
                let house = world.take_house(&Position::new(x, y));
                let (mut guard, _) = lock(lock_ref(&houses, y, x));
                *guarded(&mut guard) = house;
                x += 1;
            }
            y += 1;
        }
        let mut repairmen: Vec<Mutex<Position<C>>> = Vec::new();
        let mut id: usize = 0;
        while id < C::REPAIRMEN
            invariant
                id <= C::REPAIRMEN,
                world.wf(),
                repairmen.len() == id,
            decreases C::REPAIRMEN - id,
        {
            repairmen.push(Mutex::new(world.get_repairman_position(Id(id)).clone()));
            id += 1;
        }
        SharedWorld { houses, repairmen }
    }

    /// The lock of the house at `position`.
    pub fn house_at(&self, position: &Position<C>) -> (cell: &Mutex<House>)
        requires
            self.wf(),
            position.wf(),
        ensures
            *cell == self.cells()[position@.1][position@.0],
    {
        lock_ref(&self.houses, position.y(), position.x())
    }

    /// Makes known where the repairman `id` stands. It fails where the lock of the
    /// slot is poisoned.
    pub fn publish(&self, id: Id, position: &Position<C>) -> (r: CdnResult<()>)
        requires
            self.wf(),
            id.0 < C::REPAIRMEN,
        ensures
            r is Err ==> *r->Err_0.0 is PoisonError,
    {
        match unpoisoned(lock(&self.repairmen[id.0])) {
            Ok(guard) => {
                let mut guard = guard;
                *guarded(&mut guard) = position.clone();
                Ok(())
            },
            Err(e) => Err(e),
        }
    }

    /// Where the repairman `id` was when it last made its position known: a cell of
    /// the grid, whichever it is. It fails where the lock of the slot is poisoned.
    pub fn get_repairman_position(&self, id: Id) -> (r: CdnResult<Position<C>>)
        requires
            self.wf(),
            id.0 < C::REPAIRMEN,
        ensures
            r is Ok ==> r->Ok_0.wf(),
            r is Err ==> *r->Err_0.0 is PoisonError,
    {
        match unpoisoned(lock(&self.repairmen[id.0])) {
            Ok(guard) => {
                let mut guard = guard;
                let position = guarded(&mut guard).clone();
                proof {
                    use_type_invariant(&position);
                }
                Ok(position)
            },
            Err(e) => Err(e),
        }
    }

    /// What one who watches sees of the cell at `position`: whether the house needs
    /// repair, and how many repairmen have last made known that they stand there. It
    /// fails where a lock is poisoned.
    pub fn observe(&self, position: &Position<C>) -> (r: CdnResult<(HouseStatus, usize)>)
        requires
            self.wf(),
            position.wf(),
        ensures
            r is Err ==> *r->Err_0.0 is PoisonError,
            r is Ok ==> r->Ok_0.1 <= C::REPAIRMEN,
    {
        let mut seen: Vec<Position<C>> = Vec::new();
        let mut i: usize = 0;
        while i < self.repairmen.len()
            invariant
                i <= self.repairmen.len(),
                seen.len() == i,
            decreases self.repairmen.len() - i,
        {
            match unpoisoned(lock(&self.repairmen[i])) {
                Ok(guard) => {
                    let mut guard = guard;
                    seen.push(guarded(&mut guard).clone());
                },
                Err(e) => {
                    return Err(e);
                },
            }
            i += 1;
        }
        let cell = lock_ref(&self.houses, position.y(), position.x());
        match unpoisoned(lock(cell)) {
            Ok(guard) => {
                let mut guard = guard;
                let status = guarded(&mut guard).status;
                proof {
                    lemma_count_at_most_len(views(seen@), position@);
                }
                Ok((status, count_standing_at(&seen, position)))
            },
            Err(e) => Err(e),
        }
    }
}

} // verus!
