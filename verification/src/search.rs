use crate::grid::{chart_cells, chart_get, is_table, Grid};
use crate::position::{
    adjacent, cell_at, cell_count, cell_number, in_bounds, lemma_cell_at_in_bounds,
    lemma_cell_number_inverts, target, views, MoveDirection, Position,
};
use crate::repairman::{MapStatus, PathFindingResult};
use crate::world::WorldConfig;
use pathfinding::directed::bfs::bfs;
use vstd::prelude::*;

verus! {

/// True when `p` is a cell of the grid that the chart marks as not yet visited.
pub open spec fn unexplored<C: WorldConfig>(chart: Seq<Seq<MapStatus>>, p: (int, int)) -> bool {
    in_bounds::<C>(p) && chart[p.1][p.0] == MapStatus::Unexplored
}

/// True when `walk` is a walk on the grid: cells of the grid, at least one, each one
/// step away from the one before.
pub open spec fn is_walk<C: WorldConfig>(walk: Seq<(int, int)>) -> bool {
    &&& walk.len() > 0
    &&& forall|i: int| 0 <= i < walk.len() ==> in_bounds::<C>(#[trigger] walk[i])
    &&& forall|i: int| 0 <= i < walk.len() - 1 ==> adjacent(#[trigger] walk[i], walk[i + 1])
}

/// True when `walk` is a walk from `start` to a cell that is not yet visited.
pub open spec fn finds_unexplored<C: WorldConfig>(
    chart: Seq<Seq<MapStatus>>,
    start: (int, int),
    walk: Seq<(int, int)>,
) -> bool {
    is_walk::<C>(walk) && walk[0] == start && unexplored::<C>(chart, walk.last())
}

/// The number of steps between two cells of a grid without walls.
pub open spec fn distance(p: (int, int), q: (int, int)) -> int {
    (if p.0 <= q.0 {
        q.0 - p.0
    } else {
        p.0 - q.0
    }) + (if p.1 <= q.1 {
        q.1 - p.1
    } else {
        p.1 - q.1
    })
}

/// True when `q` is not yet visited and no cell that is not yet visited is nearer to
/// `p`.
pub open spec fn nearest_unexplored<C: WorldConfig>(
    chart: Seq<Seq<MapStatus>>,
    p: (int, int),
    q: (int, int),
) -> bool {
    &&& unexplored::<C>(chart, q)
    &&& forall|other: (int, int)| #[trigger]
        unexplored::<C>(chart, other) ==> distance(p, q) <= distance(p, other)
}

/// What a search from `p` has to say: that `p` itself is not yet visited; or that no
/// cell is; or, where `p` is visited and some cell is not, a step on the grid that
/// brings the repairman one step nearer to a nearest such cell.
pub open spec fn shows_the_way<C: WorldConfig>(
    chart: Seq<Seq<MapStatus>>,
    p: (int, int),
    found: PathFindingResult,
) -> bool {
    match found {
        PathFindingResult::CurrentHouseIsUnexplored => unexplored::<C>(chart, p),
        PathFindingResult::NoUnexploredHouseFound => forall|q: (int, int)|
            !#[trigger] unexplored::<C>(chart, q),
        PathFindingResult::UnexploredHouseFound(direction) => {
            &&& !unexplored::<C>(chart, p)
            &&& in_bounds::<C>(target(p, direction))
            &&& exists|q: (int, int)| #[trigger]
                nearest_unexplored::<C>(chart, p, q) && distance(target(p, direction), q)
                    == distance(p, q) - 1
        },
    }
}

/// True when the chart has `cell` as not yet visited.
fn is_unexplored<C: WorldConfig>(chart: &Grid<MapStatus>, cell: &Position<C>) -> (open: bool)
    requires
        is_table(chart_cells(*chart), C::MAX_LEN_Y as int, C::MAX_LEN_X as int),
        cell.wf(),
    ensures
        open == unexplored::<C>(chart_cells(*chart), cell@),
{
    match chart_get(chart, cell.y(), cell.x()) {
        MapStatus::Unexplored => true,
        MapStatus::Explored => false,
    }
}

/// `pathfinding::directed::bfs::bfs` from `start`, over the cells of the grid with
/// the steps that `Position::neighbors` allows, to a cell that `is_unexplored` accepts.
/// It returns a shortest walk from `start` to such a cell, both ends included, and
/// `None` where no walk leads to one.
#[verifier::external_body]
pub(crate) fn shortest_walk<C: WorldConfig>(
    chart: &Grid<MapStatus>,
    start: &Position<C>,
) -> (found: Option<Vec<Position<C>>>)
    requires
        is_table(chart_cells(*chart), C::MAX_LEN_Y as int, C::MAX_LEN_X as int),
        start.wf(),
    ensures
        match found {
            Some(path) => {
                &&& forall|i: int| 0 <= i < path.len() ==> (#[trigger] path[i]).wf()
                &&& finds_unexplored::<C>(chart_cells(*chart), start@, views(path@))
                &&& forall|walk: Seq<(int, int)>| #[trigger]
                    finds_unexplored::<C>(chart_cells(*chart), start@, walk) ==> path.len()
                        <= walk.len()
            },
            None => forall|walk: Seq<(int, int)>|
                !#[trigger] finds_unexplored::<C>(chart_cells(*chart), start@, walk),
        },
{
    bfs(start, |cell| cell.neighbors(), |cell| is_unexplored(chart, cell))
}

/// A walk has at least as many steps as its ends are apart.
pub proof fn lemma_walk_spans_distance<C: WorldConfig>(walk: Seq<(int, int)>)
    requires
        is_walk::<C>(walk),
    ensures
        distance(walk[0], walk.last()) <= walk.len() - 1,
    decreases walk.len(),
{
    if walk.len() > 1 {
        let shorter = walk.drop_last();
        assert(is_walk::<C>(shorter)) by {
            assert forall|i: int| 0 <= i < shorter.len() - 1 implies adjacent(
                #[trigger] shorter[i],
                shorter[i + 1],
            ) by {
                assert(adjacent(walk[i], walk[i + 1]));
            }
        }
        lemma_walk_spans_distance::<C>(shorter);
        let i = walk.len() - 2;
        assert(adjacent(walk[i], walk[i + 1]));
        let d = choose|d: MoveDirection| target(walk[i], d) == walk[i + 1];
        assert(target(walk[i], d) == walk.last());
    }
}

/// Between any two cells of the grid there is a walk with exactly as many steps as
/// they are apart.
pub proof fn lemma_straight_walk<C: WorldConfig>(p: (int, int), q: (int, int)) -> (walk: Seq<
    (int, int),
>)
    requires
        in_bounds::<C>(p),
        in_bounds::<C>(q),
    ensures
        is_walk::<C>(walk),
        walk[0] == p,
        walk.last() == q,
        walk.len() == distance(p, q) + 1,
    decreases distance(p, q),
{
    if p == q {
        seq![p]
    } else {
        let direction = if p.0 < q.0 {
            MoveDirection::Right
        } else if p.0 > q.0 {
            MoveDirection::Left
        } else if p.1 < q.1 {
            MoveDirection::Up
        } else {
            MoveDirection::Down
        };
        let next = target(p, direction);
        let rest = lemma_straight_walk::<C>(next, q);
        let walk = seq![p] + rest;
        assert(is_walk::<C>(walk)) by {
            assert forall|i: int| 0 <= i < walk.len() implies in_bounds::<C>(
                #[trigger] walk[i],
            ) by {
                if i > 0 {
                    assert(walk[i] == rest[i - 1]);
                }
            }
            assert forall|i: int| 0 <= i < walk.len() - 1 implies adjacent(
                #[trigger] walk[i],
                walk[i + 1],
            ) by {
                if i == 0 {
                    assert(walk[1] == rest[0]);
                    assert(target(walk[0], direction) == walk[1]);
                } else {
                    assert(walk[i] == rest[i - 1] && walk[i + 1] == rest[i]);
                    assert(adjacent(rest[i - 1], rest[i - 1 + 1]));
                }
            }
        }
        assert(walk.last() == rest.last());
        walk
    }
}

/// Looks on the chart for a nearest cell that is not yet visited, starting from
/// `start`, and says which step leads towards it; where several steps do, one of
/// them is drawn at random.
pub(crate) fn find_way<C: WorldConfig>(
    map: &Grid<MapStatus>,
    start: &Position<C>,
) -> (found: PathFindingResult)
    requires
        is_table(chart_cells(*map), C::MAX_LEN_Y as int, C::MAX_LEN_X as int),
        start.wf(),
    ensures
        shows_the_way::<C>(chart_cells(*map), start@, found),
{
    let ghost chart = chart_cells(*map);
    let ghost here = start@;
    match shortest_walk(map, start) {
        None => {
            proof {
                assert forall|q: (int, int)| !#[trigger] unexplored::<C>(chart, q) by {
                    if unexplored::<C>(chart, q) {
                        let walk = lemma_straight_walk::<C>(here, q);
                        assert(finds_unexplored::<C>(chart, here, walk));
                    }
                }
            }
            PathFindingResult::NoUnexploredHouseFound
        },
        Some(path) => {
            let ghost walk = views(path@);
            if path.len() < 2 {
                assert(walk.last() == walk[0]);
                PathFindingResult::CurrentHouseIsUnexplored
            } else {
                proof {
                    assert(adjacent(walk[0int], walk[0int + 1]));
                    assert(walk[1] == path[1]@);
                }
                let direction = start.direction_to(&path[1]);
                proof {
                    let goal = walk.last();
                    if unexplored::<C>(chart, here) {
                        assert(finds_unexplored::<C>(chart, here, seq![here]));
                    }
                    lemma_walk_spans_distance::<C>(walk);
                    assert forall|other: (int, int)| #[trigger]
                        unexplored::<C>(chart, other) implies distance(here, goal)
                        <= distance(here, other) by {
                        let straight = lemma_straight_walk::<C>(here, other);
                        assert(finds_unexplored::<C>(chart, here, straight));
                    }
                    let straight = lemma_straight_walk::<C>(here, goal);
                    assert(finds_unexplored::<C>(chart, here, straight));
                    let rest = walk.subrange(1, walk.len() as int);
                    assert(is_walk::<C>(rest)) by {
                        assert forall|i: int| 0 <= i < rest.len() implies in_bounds::<C>(
                            #[trigger] rest[i],
                        ) by {
                            assert(rest[i] == walk[i + 1]);
                        }
                        assert forall|i: int| 0 <= i < rest.len() - 1 implies adjacent(
                            #[trigger] rest[i],
                            rest[i + 1],
                        ) by {
                            assert(rest[i] == walk[i + 1] && rest[i + 1] == walk[i + 1 + 1]);
                            assert(adjacent(walk[i + 1], walk[i + 1 + 1]));
                        }
                    }
                    lemma_walk_spans_distance::<C>(rest);
                    assert(rest[0] == target(here, direction));
                    assert(rest.last() == goal);
                    assert(nearest_unexplored::<C>(chart, here, goal));
                }
                PathFindingResult::UnexploredHouseFound(direction)
            }
        },
    }
}

/// The chart with the cell `p` marked as visited.
pub open spec fn explored_at(chart: Seq<Seq<MapStatus>>, p: (int, int)) -> Seq<Seq<MapStatus>> {
    chart.update(p.1, chart[p.1].update(p.0, MapStatus::Explored))
}

/// How many of the first `n` cells of the grid, read row by row, are not yet visited.
pub open spec fn unexplored_below<C: WorldConfig>(chart: Seq<Seq<MapStatus>>, n: nat) -> nat
    decreases n,
{
    if n == 0 {
        0
    } else {
        unexplored_below::<C>(chart, (n - 1) as nat) + if unexplored::<C>(
            chart,
            cell_at::<C>(n - 1),
        ) {
            1nat
        } else {
            0nat
        }
    }
}

/// How many cells of the grid are not yet visited.
pub open spec fn unexplored_count<C: WorldConfig>(chart: Seq<Seq<MapStatus>>) -> nat {
    unexplored_below::<C>(chart, cell_count::<C>() as nat)
}

/// Marking a cell as visited takes it out of the count of those that are not, if it
/// was among them, and leaves the count as it is otherwise.
pub proof fn lemma_marking_counts<C: WorldConfig>(chart: Seq<Seq<MapStatus>>, p: (int, int))
    requires
        is_table(chart, C::MAX_LEN_Y as int, C::MAX_LEN_X as int),
        in_bounds::<C>(p),
    ensures
        unexplored_count::<C>(explored_at(chart, p)) + (if unexplored::<C>(chart, p) {
            1nat
        } else {
            0nat
        }) == unexplored_count::<C>(chart),
{
    lemma_cell_number_inverts::<C>(p);
    lemma_marking_counts_below::<C>(chart, p, cell_count::<C>() as nat);
}

proof fn lemma_marking_counts_below<C: WorldConfig>(
    chart: Seq<Seq<MapStatus>>,
    p: (int, int),
    n: nat,
)
    requires
        is_table(chart, C::MAX_LEN_Y as int, C::MAX_LEN_X as int),
        in_bounds::<C>(p),
        n <= cell_count::<C>(),
    ensures
        unexplored_below::<C>(explored_at(chart, p), n) + (if unexplored::<C>(chart, p)
            && cell_number::<C>(p) < n {
            1nat
        } else {
            0nat
        }) == unexplored_below::<C>(chart, n),
    decreases n,
{
    if n > 0 {
        lemma_marking_counts_below::<C>(chart, p, (n - 1) as nat);
        let q = cell_at::<C>(n - 1);
        lemma_cell_at_in_bounds::<C>(n - 1);
        lemma_cell_number_inverts::<C>(p);
        if q == p {
            assert(cell_number::<C>(p) == n - 1);
            assert(!unexplored::<C>(explored_at(chart, p), q));
        } else {
            assert(cell_number::<C>(p) != n - 1);
            assert(unexplored::<C>(explored_at(chart, p), q) == unexplored::<C>(chart, q));
        }
    }
}

} // verus!
