use crate::barrier::Barrier;
use crate::error::{CdnError, CdnErrorKind, CdnResult};
use crate::grid::{chart_cells, chart_new, chart_set, is_table, Grid};
use crate::notes::{
    at_most, lemma_merged_with_less, lemma_sum_after_insert, lemma_sum_covers_each,
    lemma_sum_of_empty, merged, sum, Notes,
};
use crate::position::{in_bounds, target, MoveDirection, Position};
use crate::search::{
    distance, explored_at, find_way, lemma_marking_counts, nearest_unexplored, shows_the_way,
    unexplored, unexplored_count,
};
use crate::sync::{guarded, try_lock, Attempt};
use crate::world::{has_room, House, HouseStatus, World, WorldConfig};
use std::sync::Mutex;
use vstd::prelude::*;
use vstd::std_specs::convert::FromSpecImpl;

verus! {

/// The number by which a repairman is told apart from the others.
#[derive(Default, Debug, Clone, Copy, PartialEq, Eq, Structural, Hash, PartialOrd, Ord)]
pub struct Id(pub usize);

/// What a repairman knows of a cell: whether it has been there.
#[derive(Clone, Copy, Debug, PartialEq, Eq, Structural)]
pub enum MapStatus {
    Unexplored,
    Explored,
}

impl Default for MapStatus {
    fn default() -> (mark: Self)
        ensures
            mark == MapStatus::Unexplored,
    {
        MapStatus::Unexplored
    }
}

impl Id {
    /// The number behind this id.
    pub fn number(&self) -> (n: usize)
        ensures
            n == self.0,
    {
        self.0
    }
}

impl AsRef<usize> for Id {
    fn as_ref(&self) -> (n: &usize)
        ensures
            *n == self.0,
    {
        &self.0
    }
}

impl From<usize> for Id {
    fn from(value: usize) -> (id: Self) {
        Id(value)
    }
}

impl FromSpecImpl<usize> for Id {
    open spec fn obeys_from_spec() -> bool {
        true
    }

    open spec fn from_spec(value: usize) -> Self {
        Id(value)
    }
}

/// What a search of the chart says of the way to go.
#[derive(Clone, Copy, Debug, PartialEq, Eq, Structural)]
pub enum PathFindingResult {
    CurrentHouseIsUnexplored,
    NoUnexploredHouseFound,
    UnexploredHouseFound(MoveDirection),
}

/// What one visit to a house came to, and where to go from there.
#[derive(Clone, Copy, Debug, PartialEq, Eq, Structural)]
pub struct Turn {
    /// True when the repairman repaired the house on this visit.
    pub repaired: bool,
    /// What the search of the chart said after the visit.
    pub next: PathFindingResult,
}

/// The count that `notebook` has for `id`, a missing one taken as zero.
pub open spec fn count_of(notebook: Map<usize, usize>, id: usize) -> nat {
    if notebook.contains_key(id) {
        notebook[id] as nat
    } else {
        0
    }
}

/// The notes of a house after the repairman `id` has written there what its notebook
/// says of itself: nothing, where the notebook says nothing.
pub open spec fn published(notes: Map<usize, usize>, notebook: Map<usize, usize>, id: usize) -> Map<
    usize,
    usize,
> {
    if notebook.contains_key(id) {
        notes.insert(id, notebook[id])
    } else {
        notes
    }
}

/// The notebook of a repairman that knows of `count` repairs of its own and of
/// nothing else: empty where `count` is zero.
pub open spec fn tally(id: usize, count: nat) -> Map<usize, usize> {
    if count == 0 {
        Map::empty()
    } else {
        Map::empty().insert(id, count as usize)
    }
}

/// Word gets round. Once a repairman has written what it knows of itself onto a
/// house, whoever reads the house afterwards knows at least as much of it, whatever
/// the house and the reader held before.
pub proof fn lemma_gossip_reaches_the_reader(
    writer: Map<usize, usize>,
    id: usize,
    house: Map<usize, usize>,
    reader: Map<usize, usize>,
)
    requires
        writer.contains_key(id),
    ensures
        merged(reader, published(house, writer, id)).contains_key(id),
        merged(reader, published(house, writer, id))[id] >= writer[id],
{
}

/// Word settles. Once a repairman has written its own count onto a house, and that
/// count is its true count, whoever reads the house afterwards and never knew of
/// more than the truth knows that count exactly.
pub proof fn lemma_gossip_settles(
    writer: Map<usize, usize>,
    id: usize,
    house: Map<usize, usize>,
    reader: Map<usize, usize>,
    truth: Map<usize, usize>,
)
    requires
        writer.contains_key(id),
        truth.contains_key(id),
        truth[id] == writer[id],
        at_most(house, truth),
        at_most(reader, truth),
    ensures
        merged(reader, published(house, writer, id))[id] == truth[id],
{
    assert(reader.contains_key(id) ==> reader[id] <= truth[id]);
}

/// Nobody ever knows of more repairs than were made. Let `truth` hold, for each
/// repairman, the repairs it has made, and let the visitor know its own count
/// exactly, while its notebook and the house claim no more than the truth. Then
/// after the visit, with one repair more to the visitor's name if it repaired the
/// house, the notebook and the house still claim no more than the truth, and the
/// visitor still knows its own count exactly.
pub proof fn lemma_visit_keeps_the_truth(
    notebook: Map<usize, usize>,
    house: Map<usize, usize>,
    truth: Map<usize, usize>,
    id: usize,
    repaired: bool,
)
    requires
        at_most(notebook, truth),
        at_most(house, truth),
        count_of(truth, id) == count_of(notebook, id),
        count_of(notebook, id) < usize::MAX,
    ensures
        ({
            let count = (count_of(notebook, id) + 1) as usize;
            let truth_after = if repaired {
                truth.insert(id, count)
            } else {
                truth
            };
            let house_after = if repaired {
                house.insert(id, count)
            } else {
                published(house, notebook, id)
            };
            let notebook_after = if repaired {
                merged(notebook.insert(id, count), house_after)
            } else {
                merged(notebook, house_after)
            };
            &&& at_most(truth, truth_after)
            &&& at_most(house_after, truth_after)
            &&& at_most(notebook_after, truth_after)
            &&& count_of(truth_after, id) == count_of(notebook_after, id)
        }),
{
    let count = (count_of(notebook, id) + 1) as usize;
    let truth_after = if repaired {
        truth.insert(id, count)
    } else {
        truth
    };
    let house_after = if repaired {
        house.insert(id, count)
    } else {
        published(house, notebook, id)
    };
    let notebook_after = if repaired {
        merged(notebook.insert(id, count), house_after)
    } else {
        merged(notebook, house_after)
    };
    assert forall|k: usize| #[trigger]
        house_after.contains_key(k) implies truth_after.contains_key(k) && house_after[k]
        <= truth_after[k] by {
        if k != id {
            assert(house.contains_key(k));
        } else if !repaired && !notebook.contains_key(id) {
            assert(house.contains_key(k));
        }
    }
    assert forall|k: usize| #[trigger]
        notebook_after.contains_key(k) implies truth_after.contains_key(k) && notebook_after[k]
        <= truth_after[k] by {
        assert(house_after.contains_key(k) ==> house_after[k] <= truth_after[k]);
        assert(k != id && notebook.contains_key(k) ==> notebook[k] <= truth[k]);
    }
    assert(house.contains_key(id) ==> house[id] <= truth[id]);
}

/// A repairman: its id, what it has seen of the grid, what it knows of the work
/// done, where it stands, and its handle to the barrier at which all meet.
#[derive(Debug)]
pub struct Repairman<C: WorldConfig> {
    id: Id,
    world_map: Grid<MapStatus>,
    notebook: Notes,
    position: Position<C>,
    barrier: Barrier,
}

impl<C: WorldConfig> Repairman<C> {
    /// The id of this repairman.
    pub closed spec fn id(&self) -> Id {
        self.id
    }

    /// What this repairman knows of the work done.
    pub closed spec fn notebook(&self) -> Map<usize, usize> {
        self.notebook@
    }

    /// Where this repairman stands.
    pub closed spec fn position(&self) -> (int, int) {
        self.position@
    }

    /// What this repairman has seen of the grid, row by row.
    pub closed spec fn chart(&self) -> Seq<Seq<MapStatus>> {
        chart_cells(self.world_map)
    }

    /// True when the repairman and the world are as they are first built: the
    /// repairman knows of no repair and has been nowhere, no house has notes, and as
    /// many houses need repair as `C` says.
    pub open spec fn starts_afresh(&self, world: World<C>) -> bool {
        &&& self.notebook() == Map::<usize, usize>::empty()
        &&& forall|p: (int, int)| in_bounds::<C>(p) ==> #[trigger] unexplored::<C>(self.chart(), p)
        &&& forall|p: (int, int)|
            in_bounds::<C>(p) ==> (#[trigger] world.house_at(p)).notes@ == Map::<
                usize,
                usize,
            >::empty()
        &&& world.needing_repair().finite()
        &&& world.needing_repair().len() == C::HOUSES_NEEDING_REPAIR
    }

    /// The invariant of a repairman: its chart has the size of the grid, and it stands
    /// on a cell of the grid.
    pub open spec fn wf(&self) -> bool {
        &&& is_table(self.chart(), C::MAX_LEN_Y as int, C::MAX_LEN_X as int)
        &&& in_bounds::<C>(self.position())
    }

    /// A repairman who stands where `world` has the repairman `id`, has seen nothing
    /// of the grid and knows of no repair.
    pub fn new(id: Id, barrier: Barrier, world: &World<C>) -> (man: Self)
        requires
            has_room::<C>(),
            world.wf(),
            id.0 < C::REPAIRMEN,
        ensures
            man.wf(),
            man.id() == id,
            man.position() == world.positions()[id.0 as int],
            man.notebook() == Map::<usize, usize>::empty(),
            forall|p: (int, int)| in_bounds::<C>(p) ==> #[trigger] unexplored::<C>(man.chart(), p),
    {
        Repairman {
            id,
            barrier,
            world_map: chart_new(C::MAX_LEN_Y, C::MAX_LEN_X),
            notebook: Notes::new(),
            position: world.get_repairman_position(id).clone(),
        }
    }

    /// The id of this repairman.
    pub fn get_id(&self) -> (id: Id)
        ensures
            id == self.id(),
    {
        self.id
    }

    /// Where this repairman stands.
    pub fn get_position(&self) -> (position: &Position<C>)
        ensures
            position@ == self.position(),
    {
        &self.position
    }

    /// What this repairman knows of the work done.
    pub fn get_notebook(&self) -> (notebook: &Notes)
        ensures
            notebook@ == self.notebook(),
    {
        &self.notebook
    }

    /// What this repairman knows of the work done, to be changed in place; nothing
    /// else of the repairman changes.
    pub fn get_notebook_mut(&mut self) -> (notebook: &mut Notes)
        ensures
            notebook@ == old(self).notebook(),
            final(self).notebook() == final(notebook)@,
            final(self).id() == old(self).id(),
            final(self).position() == old(self).position(),
            final(self).chart() == old(self).chart(),
    {
        &mut self.notebook
    }

    /// The repairs that this repairman knows of, its own and the others', added up;
    /// `usize::MAX` where the sum is greater than that.
    pub fn get_total_num_repaired(&self) -> (total: usize)
        ensures
            total == if sum(self.notebook()) <= usize::MAX {
                sum(self.notebook())
            } else {
                usize::MAX as nat
            },
    {
        self.notebook.total()
    }

    /// True while there is work left as far as this repairman knows: while it knows
    /// of fewer repairs than there were houses that needed one.
    pub fn keeps_working(&self) -> (working: bool)
        ensures
            working == (sum(self.notebook()) < C::HOUSES_NEEDING_REPAIR),
    {
        self.notebook.total() < C::HOUSES_NEEDING_REPAIR
    }

    /// Writes onto the house how many houses this repairman has repaired, where its
    /// notebook says so; what the house says of the others stays as it is.
    pub fn write_note(&self, house: &mut House)
        ensures
            final(house).status == old(house).status,
            final(house).notes@ == published(old(house).notes@, self.notebook(), self.id().0),
    {
        match self.notebook.get(self.id) {
            Some(num_repaired) => {
                house.notes.insert(self.id, num_repaired);
            },
            None => {},
        }
    }

    /// Reads the notes of the house into the notebook: each count that the house has
    /// and that is greater than the one known is taken over, and none is lowered.
    pub fn read_notes(&mut self, house: &House)
        ensures
            final(self).notebook() == merged(old(self).notebook(), house.notes@),
            at_most(old(self).notebook(), final(self).notebook()),
            at_most(house.notes@, final(self).notebook()),
            final(self).id() == old(self).id(),
            final(self).position() == old(self).position(),
            final(self).chart() == old(self).chart(),
    {
        self.notebook.merge_max(&house.notes);
    }

    /// Repairs the house if it needs repair: the repairman counts one repair more for
    /// itself, writes that count onto the house and marks the house as repaired. A
    /// house that is repaired already only gets the repairman's count written onto it.
    pub fn repair_and_write_note(&mut self, house: &mut House)
        requires
            count_of(old(self).notebook(), old(self).id().0) < usize::MAX,
        ensures
            final(self).id() == old(self).id(),
            final(self).position() == old(self).position(),
            final(self).chart() == old(self).chart(),
            final(house).status == HouseStatus::Repaired,
            at_most(old(self).notebook(), final(self).notebook()),
            old(house).status == HouseStatus::NeedsRepair ==> {
                let count = (count_of(old(self).notebook(), old(self).id().0) + 1) as usize;
                &&& final(self).notebook() == old(self).notebook().insert(old(self).id().0, count)
                &&& final(house).notes@ == old(house).notes@.insert(old(self).id().0, count)
            },
            old(house).status == HouseStatus::Repaired ==> {
                &&& final(self).notebook() == old(self).notebook()
                &&& final(house).notes@ == published(
                    old(house).notes@,
                    old(self).notebook(),
                    old(self).id().0,
                )
            },
    {
        match house.status {
            HouseStatus::NeedsRepair => {
                let num_repaired = match self.notebook.get(self.id) {
                    Some(known) => known + 1,
                    None => 1,
                };
                self.notebook.insert(self.id, num_repaired);
                house.notes.insert(self.id, num_repaired);
                house.status = HouseStatus::Repaired;
            },
            HouseStatus::Repaired => {
                self.write_note(house);
            },
        }
    }

    /// Marks the cell on which the repairman stands as visited.
    pub fn mark_explored(&mut self)
        requires
            old(self).wf(),
        ensures
            final(self).wf(),
            final(self).chart() == explored_at(old(self).chart(), old(self).position()),
            final(self).id() == old(self).id(),
            final(self).position() == old(self).position(),
            final(self).notebook() == old(self).notebook(),
    {
        chart_set(&mut self.world_map, self.position.y(), self.position.x(), MapStatus::Explored);
    }

    /// Looks on the chart for a nearest cell that is not yet visited and says which
    /// step leads towards it; where several steps do, one of them is drawn at random.
    pub fn find_path(&self) -> (found: PathFindingResult)
        requires
            self.wf(),
        ensures
            shows_the_way::<C>(self.chart(), self.position(), found),
    {
        find_way(&self.world_map, &self.position)
    }

    /// Lets one round go by without doing anything: the repairman waits at the
    /// barrier until all have arrived.
    pub fn idle(&self) {
        self.barrier.wait();
    }

    /// Takes one step, after waiting at the barrier until all have arrived. A step that
    /// would leave the grid fails and leaves the repairman where it stands.
    pub fn move_by(&mut self, direction: MoveDirection) -> (r: CdnResult<()>)
        requires
            old(self).wf(),
        ensures
            final(self).wf(),
            final(self).id() == old(self).id(),
            final(self).notebook() == old(self).notebook(),
            final(self).chart() == old(self).chart(),
            in_bounds::<C>(target(old(self).position(), direction)) ==> r is Ok
                && final(self).position() == target(old(self).position(), direction),
            !in_bounds::<C>(target(old(self).position(), direction)) ==> r is Err
                && *r->Err_0.0 is InvalidMoveDirection
                && final(self).position() == old(self).position(),
    {
        self.barrier.wait();
        self.position.move_by(direction)
    }

    /// What the repairman does in a house once it has the house to itself: it repairs
    /// the house or, where that is done, writes its own count there; it reads the notes
    /// of the house; it marks the cell as visited; and it looks for the way to the
    /// nearest cell that it has not visited. That cell is never the one it stands on.
    pub fn visit(&mut self, house: &mut House) -> (turn: Turn)
        requires
            old(self).wf(),
            count_of(old(self).notebook(), old(self).id().0) < usize::MAX,
        ensures
            final(self).wf(),
            final(self).id() == old(self).id(),
            final(self).position() == old(self).position(),
            final(self).chart() == explored_at(old(self).chart(), old(self).position()),
            turn.repaired == (old(house).status == HouseStatus::NeedsRepair),
            final(house).status == HouseStatus::Repaired,
            turn.repaired ==> final(house).notes@ == old(house).notes@.insert(
                old(self).id().0,
                (count_of(old(self).notebook(), old(self).id().0) + 1) as usize,
            ) && final(self).notebook() == merged(
                old(self).notebook().insert(
                    old(self).id().0,
                    (count_of(old(self).notebook(), old(self).id().0) + 1) as usize,
                ),
                final(house).notes@,
            ),
            !turn.repaired ==> final(house).notes@ == published(
                old(house).notes@,
                old(self).notebook(),
                old(self).id().0,
            ) && final(self).notebook() == merged(old(self).notebook(), final(house).notes@),
            at_most(old(self).notebook(), final(self).notebook()),
            at_most(final(house).notes@, final(self).notebook()),
            shows_the_way::<C>(final(self).chart(), final(self).position(), turn.next),
            !(turn.next is CurrentHouseIsUnexplored),
    {
        let repaired = match house.status {
            HouseStatus::NeedsRepair => true,
            HouseStatus::Repaired => false,
        };
        self.repair_and_write_note(house);
        self.read_notes(house);
        self.mark_explored();
        let next = self.find_path();
        Turn { repaired, next }
    }

    /// Ends a turn: after a repair the repairman waits one round at the barrier, and
    /// then it takes the step that the search has found, which costs one round more.
    /// It says whether there is anything left to do: there is not, where the search
    /// has found no cell that is not yet visited.
    pub fn finish_turn(&mut self, turn: Turn) -> (r: CdnResult<bool>)
        requires
            old(self).wf(),
            !(turn.next is CurrentHouseIsUnexplored),
        ensures
            final(self).wf(),
            final(self).id() == old(self).id(),
            final(self).notebook() == old(self).notebook(),
            final(self).chart() == old(self).chart(),
            turn.next is NoUnexploredHouseFound ==> r == Ok::<bool, crate::error::CdnError>(false)
                && final(self).position() == old(self).position(),
            turn.next matches PathFindingResult::UnexploredHouseFound(direction) ==> {
                &&& in_bounds::<C>(target(old(self).position(), direction)) ==> r == Ok::<
                    bool,
                    crate::error::CdnError,
                >(true) && final(self).position() == target(old(self).position(), direction)
                &&& !in_bounds::<C>(target(old(self).position(), direction)) ==> r is Err
                    && *r->Err_0.0 is InvalidMoveDirection
                    && final(self).position() == old(self).position()
            },
    {
        if turn.repaired {
            self.barrier.wait();
        }
        match turn.next {
            PathFindingResult::UnexploredHouseFound(direction) => {
                match self.move_by(direction) {
                    Ok(()) => Ok(true),
                    Err(e) => Err(e),
                }
            },
            _ => Ok(false),
        }
    }

    /// One turn of a repairman among others, at the house `cell` on which it stands.
    /// It asks for the house without waiting. Where another repairman is in the house,
    /// it lets one round go by and nothing changes. Where the house is free, it
    /// visits the house, gives the house up, and steps towards the nearest cell that
    /// it has not visited; if there is none, it stays and says that its work is done.
    /// The only failure is a house whose lock is poisoned, and then nothing changes.
    pub fn take_turn(&mut self, cell: &Mutex<House>) -> (r: CdnResult<bool>)
        requires
            old(self).wf(),
            count_of(old(self).notebook(), old(self).id().0) < usize::MAX,
        ensures
            final(self).wf(),
            final(self).id() == old(self).id(),
            at_most(old(self).notebook(), final(self).notebook()),
            r is Err ==> *r->Err_0.0 is PoisonError
                && final(self).position() == old(self).position()
                && final(self).chart() == old(self).chart()
                && final(self).notebook() == old(self).notebook(),
            r == Ok::<bool, CdnError>(false) ==> final(self).position() == old(self).position()
                && final(self).chart() == explored_at(old(self).chart(), old(self).position())
                && forall|q: (int, int)| !#[trigger] unexplored::<C>(final(self).chart(), q),
            r == Ok::<bool, CdnError>(true) ==> {
                ||| final(self).position() == old(self).position()
                    && final(self).chart() == old(self).chart()
                    && final(self).notebook() == old(self).notebook()
                ||| final(self).chart() == explored_at(old(self).chart(), old(self).position())
                    && in_bounds::<C>(final(self).position()) && exists|q: (int, int)| #[trigger]
                    nearest_unexplored::<C>(final(self).chart(), old(self).position(), q)
                        && distance(final(self).position(), q) == distance(
                        old(self).position(),
                        q,
                    ) - 1
            },
    {
        self.turn_on(try_lock(cell))
    }

    /// What a repairman makes of its attempt to get the house on which it stands.
    /// Where the house is busy, it lets one round go by, and nothing changes. Where
    /// the lock of the house is poisoned, it fails, and nothing changes. Where it
    /// holds the house, it visits the house and gives the house up; then it steps
    /// towards the nearest cell that it has not visited and says that it goes on, or,
    /// where it has been everywhere, stays and says that its work is done.
    pub fn turn_on(&mut self, attempt: Attempt<'_, House>) -> (r: CdnResult<bool>)
        requires
            old(self).wf(),
            count_of(old(self).notebook(), old(self).id().0) < usize::MAX,
        ensures
            final(self).wf(),
            final(self).id() == old(self).id(),
            at_most(old(self).notebook(), final(self).notebook()),
            attempt is Busy ==> r == Ok::<bool, CdnError>(true),
            attempt is Poisoned ==> r is Err && *r->Err_0.0 is PoisonError,
            attempt is Busy || attempt is Poisoned ==> {
                &&& final(self).position() == old(self).position()
                &&& final(self).chart() == old(self).chart()
                &&& final(self).notebook() == old(self).notebook()
            },
            attempt is Held ==> {
                &&& r is Ok
                &&& final(self).chart() == explored_at(old(self).chart(), old(self).position())
                &&& r->Ok_0 <==> exists|q: (int, int)| #[trigger]
                    unexplored::<C>(final(self).chart(), q)
                &&& !r->Ok_0 ==> final(self).position() == old(self).position()
                &&& r->Ok_0 ==> in_bounds::<C>(final(self).position()) && exists|q: (int, int)|
                    #[trigger] nearest_unexplored::<C>(
                        final(self).chart(),
                        old(self).position(),
                        q,
                    ) && distance(final(self).position(), q) == distance(old(self).position(), q)
                        - 1
            },
    {
        match attempt {
            Attempt::Held(guard) => {
                let turn = {
                    let mut guard = guard;
                    self.visit(guarded(&mut guard))
                };
                self.finish_turn(turn)
            },
            Attempt::Busy => {
                self.idle();
                Ok(true)
            },
            Attempt::Poisoned => Err(CdnError::from(CdnErrorKind::PoisonError)),
        }
    }

    /// The work of a repairman that has the world to itself. Turn after turn it
    /// visits the house it stands on and steps towards the nearest cell that it has
    /// not visited, until it knows of as many repairs as there were houses in need
    /// or has been everywhere. It always comes to an end and never fails: no count
    /// in its notebook is lowered on the way, no house is left in a worse state, and
    /// where it stops for want of cells to visit, every house is repaired. With no
    /// house in need of repair it stops at once and changes nothing. Where it starts
    /// afresh in a world as first built, it leaves no house in need of repair and
    /// knows in the end of exactly as many repairs, all its own, as `C` says there
    /// were houses in need.
    pub fn work(self, world: &mut World<C>) -> (r: CdnResult<(Id, Notes)>)
        requires
            self.wf(),
            old(world).wf(),
            self.id().0 < C::REPAIRMEN,
            old(world).positions()[self.id().0 as int] == self.position(),
            forall|p: (int, int)|
                in_bounds::<C>(p) && !#[trigger] unexplored::<C>(self.chart(), p)
                    ==> old(world).house_at(p).status == HouseStatus::Repaired,
        ensures
            final(world).wf(),
            r is Ok,
            r->Ok_0.0 == self.id(),
            at_most(self.notebook(), r->Ok_0.1@),
            forall|p: (int, int)|
                in_bounds::<C>(p) && old(world).house_at(p).status == HouseStatus::Repaired
                    ==> (#[trigger] final(world).house_at(p)).status == HouseStatus::Repaired,
            sum(r->Ok_0.1@) >= C::HOUSES_NEEDING_REPAIR || forall|p: (int, int)|
                in_bounds::<C>(p) ==> (#[trigger] final(world).house_at(p)).status
                    == HouseStatus::Repaired,
            C::HOUSES_NEEDING_REPAIR == 0 ==> r->Ok_0.1@ == self.notebook()
                && final(world).houses() == old(world).houses()
                && final(world).positions() == old(world).positions(),
            self.starts_afresh(*old(world)) ==> final(world).needing_repair() == Set::<
                (int, int),
            >::empty() && r->Ok_0.1@ == tally(self.id().0, C::HOUSES_NEEDING_REPAIR as nat),
    {
        let ghost start = self;
        let ghost fresh = self.starts_afresh(*world);
        let ghost mut done: nat = 0;
        let mut man = self;
        let ghost reach: int = C::MAX_LEN_X + C::MAX_LEN_Y;
        let ghost mut bound: int = reach;
        let mut exhausted = false;
        while !exhausted && man.keeps_working()
            invariant
                man.wf(),
                world.wf(),
                man.id() == start.id(),
                man.id().0 < C::REPAIRMEN,
                world.positions()[man.id().0 as int] == man.position(),
                at_most(start.notebook(), man.notebook()),
                forall|p: (int, int)|
                    in_bounds::<C>(p) && !#[trigger] unexplored::<C>(man.chart(), p)
                        ==> world.house_at(p).status == HouseStatus::Repaired,
                forall|p: (int, int)|
                    in_bounds::<C>(p) && old(world).house_at(p).status == HouseStatus::Repaired
                        ==> (#[trigger] world.house_at(p)).status == HouseStatus::Repaired,
                exhausted ==> forall|q: (int, int)| !#[trigger] unexplored::<C>(man.chart(), q),
                0 <= bound,
                reach == C::MAX_LEN_X + C::MAX_LEN_Y,
                forall|q: (int, int)| #[trigger]
                    unexplored::<C>(man.chart(), q) ==> exists|near: (int, int)| #[trigger]
                        unexplored::<C>(man.chart(), near) && distance(man.position(), near)
                            <= bound,
                C::HOUSES_NEEDING_REPAIR == 0 ==> man.notebook() == start.notebook()
                    && world.houses() == old(world).houses()
                    && world.positions() == old(world).positions(),
                fresh ==> man.notebook() == tally(man.id().0, done),
                fresh ==> forall|p: (int, int)|
                    in_bounds::<C>(p) ==> at_most(
                        (#[trigger] world.house_at(p)).notes@,
                        man.notebook(),
                    ),
                fresh ==> world.needing_repair().finite() && done + world.needing_repair().len()
                    == C::HOUSES_NEEDING_REPAIR,
            decreases
                    unexplored_count::<C>(man.chart()),
                    bound,
                    (if exhausted {
                        0nat
                    } else {
                        1nat
                    }),
        {
            let ghost before = man;
            let ghost houses_before = *world;
            proof {
                if man.notebook().contains_key(man.id().0) {
                    lemma_sum_covers_each(man.notebook(), man.id().0);
                }
            }
            let here = man.position.clone();
            let turn = man.visit(world.get_house_mut(&here));
            proof {
                if fresh {
                    let id = man.id().0;
                    let known = before.notebook();
                    let written = world.house_at(here@).notes@;
                    let needing = houses_before.needing_repair();
                    assert(at_most(houses_before.house_at(here@).notes@, known));
                    if turn.repaired {
                        let raised = known.insert(id, (done + 1) as usize);
                        assert(at_most(written, raised));
                        lemma_merged_with_less(raised, written);
                        assert(raised =~= tally(id, done + 1));
                        assert(world.needing_repair() =~= needing.remove(here@)) by {
                            assert forall|p: (int, int)|
                                world.needing_repair().contains(p) == needing.remove(
                                    here@,
                                ).contains(p) by {
                                if in_bounds::<C>(p) && p != here@ {
                                    assert(world.house_at(p) == houses_before.house_at(p));
                                }
                            }
                        }
                        vstd::set::axiom_set_remove_len(needing, here@);
                        vstd::set::axiom_set_remove_finite(needing, here@);
                        done = done + 1;
                    } else {
                        assert(at_most(written, known));
                        lemma_merged_with_less(known, written);
                        assert(world.needing_repair() =~= needing) by {
                            assert forall|p: (int, int)|
                                world.needing_repair().contains(p) == needing.contains(p) by {
                                if in_bounds::<C>(p) && p != here@ {
                                    assert(world.house_at(p) == houses_before.house_at(p));
                                }
                            }
                        }
                    }
                    assert forall|p: (int, int)| in_bounds::<C>(p) implies at_most(
                        (#[trigger] world.house_at(p)).notes@,
                        man.notebook(),
                    ) by {
                        if p != here@ {
                            assert(world.house_at(p) == houses_before.house_at(p));
                            assert(at_most(houses_before.house_at(p).notes@, known));
                        }
                    }
                }
                lemma_marking_counts::<C>(before.chart(), here@);
                assert forall|p: (int, int)|
                    in_bounds::<C>(p) && !#[trigger] unexplored::<C>(
                        man.chart(),
                        p,
                    ) implies world.house_at(p).status == HouseStatus::Repaired by {
                    if p != here@ {
                        assert(unexplored::<C>(man.chart(), p) == unexplored::<C>(
                            before.chart(),
                            p,
                        ));
                    }
                }
                assert forall|p: (int, int)|
                    in_bounds::<C>(p) && old(world).house_at(p).status
                        == HouseStatus::Repaired implies (#[trigger] world.house_at(
                    p,
                )).status == HouseStatus::Repaired by {
                    if p != here@ {
                        assert(world.house_at(p) == houses_before.house_at(p));
                    }
                }
            }
            match turn.next {
                PathFindingResult::UnexploredHouseFound(direction) => {
                    let ghost goal = choose|q: (int, int)| #[trigger]
                        nearest_unexplored::<C>(man.chart(), here@, q) && distance(
                            target(here@, direction),
                            q,
                        ) == distance(here@, q) - 1;
                    let ghost visited = *world;
                    match man.finish_turn(turn) {
                        Ok(_) => {},
                        Err(e) => {
                            return Err(e);
                        },
                    }
                    match world.move_repairman(man.id, direction) {
                        Ok(_) => {},
                        Err(e) => {
                            return Err(e);
                        },
                    }
                    proof {
                        assert forall|p: (int, int)| in_bounds::<C>(p) implies #[trigger]
                            world.house_at(p) == visited.house_at(p) by {}
                        assert(world.needing_repair() =~= visited.needing_repair());
                        if unexplored::<C>(before.chart(), here@) {
                            bound = reach;
                            assert forall|q: (int, int)| #[trigger]
                                unexplored::<C>(man.chart(), q) implies exists|
                                near: (int, int),
                            | #[trigger]
                                unexplored::<C>(man.chart(), near) && distance(
                                    man.position(),
                                    near,
                                ) <= bound by {
                                assert(distance(man.position(), q) <= reach);
                            }
                        } else {
                            assert(explored_at(before.chart(), here@) =~= before.chart()) by {
                                assert(before.chart()[here@.1].update(
                                    here@.0,
                                    MapStatus::Explored,
                                ) =~= before.chart()[here@.1]);
                            }
                            assert(unexplored::<C>(before.chart(), goal));
                            let known = choose|near: (int, int)| #[trigger]
                                unexplored::<C>(before.chart(), near) && distance(
                                    before.position(),
                                    near,
                                ) <= bound;
                            assert(distance(here@, goal) <= distance(here@, known));
                            bound = bound - 1;
                            assert(unexplored::<C>(man.chart(), goal) && distance(
                                man.position(),
                                goal,
                            ) <= bound);
                        }
                    }
                },
                _ => {
                    exhausted = true;
                },
            }
        }
        proof {
            if exhausted {
                assert forall|p: (int, int)| in_bounds::<C>(p) implies (#[trigger] world.house_at(
                    p,
                )).status == HouseStatus::Repaired by {
                    assert(!unexplored::<C>(man.chart(), p));
                }
            }
            if fresh {
                let id = man.id().0;
                lemma_sum_of_empty();
                lemma_sum_after_insert(Map::<usize, usize>::empty(), id, done as usize);
                if exhausted {
                    assert(world.needing_repair() =~= Set::<(int, int)>::empty());
                }
                world.needing_repair().lemma_len0_is_empty();
            }
        }
        Ok(man.into_report())
    }

    /// Ends the work: the repairman leaves the barrier, so that nobody waits for it
    /// any more, and hands over its id and its notebook.
    pub fn into_report(self) -> (report: (Id, Notes))
        ensures
            report.0 == self.id(),
            report.1@ == self.notebook(),
    {
        let Repairman { id, notebook, barrier, .. } = self;
        barrier.leave();
        (id, notebook)
    }
}

} // verus!
