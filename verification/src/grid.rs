use crate::repairman::MapStatus;
use crate::world::House;
use ndarray::Array2;
use std::sync::Mutex;
use vstd::prelude::*;

verus! {

/// A table of rows and columns, held in an `ndarray::Array2`. Verus is not shown
/// what is inside: the functions below say what the array's own operations do to it.
#[verifier::external_body]
#[verifier::reject_recursive_types(T)]
#[derive(Debug)]
pub struct Grid<T> {
    cells: Array2<T>,
}

/// The houses that a table holds, row by row: `house_cells(a)[y][x]` is the element
/// at index `[y, x]`.
pub uninterp spec fn house_cells(a: Grid<House>) -> Seq<Seq<House>>;

/// The marks that a table holds, row by row: `chart_cells(a)[y][x]` is the element at
/// index `[y, x]`.
pub uninterp spec fn chart_cells(a: Grid<MapStatus>) -> Seq<Seq<MapStatus>>;

/// The locks that a table holds, row by row: `lock_cells(a)[y][x]` is the element at
/// index `[y, x]`. It says which lock stands where, not what the lock guards.
pub uninterp spec fn lock_cells(a: Grid<Mutex<House>>) -> Seq<Seq<Mutex<House>>>;

/// True when `cells` is a table of `rows` rows with `cols` elements each.
pub open spec fn is_table<T>(cells: Seq<Seq<T>>, rows: int, cols: int) -> bool {
    &&& cells.len() == rows
    &&& forall|y: int| 0 <= y < rows ==> (#[trigger] cells[y]).len() == cols
}

/// True when an array of `rows` by `cols` elements can be made: `ndarray` panics
/// where the product of the axis lengths that are not zero is greater than
/// `isize::MAX`.
pub open spec fn shape_fits(rows: int, cols: int) -> bool {
    &&& 0 <= rows <= isize::MAX
    &&& 0 <= cols <= isize::MAX
    &&& rows * cols <= isize::MAX
}

/// `Array2::default` on the shape `(rows, cols)`: a table of that shape in which
/// every house is what `House::default` returns, repaired and without notes.
#[verifier::external_body]
pub(crate) fn houses_new(rows: usize, cols: usize) -> (a: Grid<House>)
    requires
        shape_fits(rows as int, cols as int),
    ensures
        is_table(house_cells(a), rows as int, cols as int),
        forall|y: int, x: int|
            0 <= y < rows && 0 <= x < cols ==> (#[trigger] house_cells(a)[y][x]).is_default(),
{
    Grid { cells: Array2::default((rows, cols)) }
}

/// Indexing an `Array2` by `[y, x]`: the element of row `y` and column `x`. It panics
/// outside the array, so both must be inside.
#[verifier::external_body]
pub(crate) fn house_ref(a: &Grid<House>, y: usize, x: usize) -> (house: &House)
    requires
        y < house_cells(*a).len(),
        x < house_cells(*a)[y as int].len(),
    ensures
        *house == house_cells(*a)[y as int][x as int],
{
    &a.cells[[y, x]]
}

/// Indexing an `Array2` by `[y, x]` for writing: the element of row `y` and column
/// `x`, and what is left in it is the only change to the array.
#[verifier::external_body]
pub(crate) fn house_mut(a: &mut Grid<House>, y: usize, x: usize) -> (house: &mut House)
    requires
        y < house_cells(*old(a)).len(),
        x < house_cells(*old(a))[y as int].len(),
    ensures
        *house == house_cells(*old(a))[y as int][x as int],
        house_cells(*final(a)) == house_cells(*old(a)).update(
            y as int,
            house_cells(*old(a))[y as int].update(x as int, *final(house)),
        ),
{
    &mut a.cells[[y, x]]
}

/// `Array2::default` on the shape `(rows, cols)`: a table of that shape in which
/// every mark is what `MapStatus::default` returns, unexplored.
#[verifier::external_body]
pub(crate) fn chart_new(rows: usize, cols: usize) -> (a: Grid<MapStatus>)
    requires
        shape_fits(rows as int, cols as int),
    ensures
        is_table(chart_cells(a), rows as int, cols as int),
        forall|y: int, x: int|
            0 <= y < rows && 0 <= x < cols ==> #[trigger] chart_cells(a)[y][x]
                == MapStatus::Unexplored,
{
    Grid { cells: Array2::default((rows, cols)) }
}

/// Indexing an `Array2` by `[y, x]`: the mark of row `y` and column `x`. It panics
/// outside the array, so both must be inside.
#[verifier::external_body]
pub(crate) fn chart_get(a: &Grid<MapStatus>, y: usize, x: usize) -> (mark: MapStatus)
    requires
        y < chart_cells(*a).len(),
        x < chart_cells(*a)[y as int].len(),
    ensures
        mark == chart_cells(*a)[y as int][x as int],
{
    a.cells[[y, x]]
}

/// Assigning to an `Array2` at `[y, x]`: the mark of row `y` and column `x` becomes
/// `mark`, and nothing else changes.
#[verifier::external_body]
pub(crate) fn chart_set(a: &mut Grid<MapStatus>, y: usize, x: usize, mark: MapStatus)
    requires
        y < chart_cells(*old(a)).len(),
        x < chart_cells(*old(a))[y as int].len(),
    ensures
        chart_cells(*final(a)) == chart_cells(*old(a)).update(
            y as int,
            chart_cells(*old(a))[y as int].update(x as int, mark),
        ),
{
    a.cells[[y, x]] = mark;
}

/// `Array2::default` on the shape `(rows, cols)`: a table of that shape of locks,
/// each around a house of its own.
#[verifier::external_body]
pub(crate) fn locks_new(rows: usize, cols: usize) -> (a: Grid<Mutex<House>>)
    requires
        shape_fits(rows as int, cols as int),
    ensures
        is_table(lock_cells(a), rows as int, cols as int),
{
    Grid { cells: Array2::default((rows, cols)) }
}

/// Indexing an `Array2` by `[y, x]`: the lock of row `y` and column `x`. It panics
/// outside the array, so both must be inside.
#[verifier::external_body]
pub(crate) fn lock_ref(a: &Grid<Mutex<House>>, y: usize, x: usize) -> (cell: &Mutex<House>)
    requires
        y < lock_cells(*a).len(),
        x < lock_cells(*a)[y as int].len(),
    ensures
        *cell == lock_cells(*a)[y as int][x as int],
{
    &a.cells[[y, x]]
}

} // verus!
