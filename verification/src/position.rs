use crate::error::{CdnError, CdnErrorKind, CdnResult};
use crate::rng::{random_below, shuffle};
use crate::world::WorldConfig;
use rand::rngs::ThreadRng;
use std::hash::{Hash, Hasher};
use std::marker::PhantomData;
use vstd::arithmetic::div_mod::{lemma_fundamental_div_mod, lemma_fundamental_div_mod_converse};
use vstd::arithmetic::mul::lemma_mul_is_commutative;
use vstd::prelude::*;
use vstd::std_specs::cmp::PartialEqSpecImpl;

verus! {

/// The four ways to step from a cell to the next: `Right` and `Left` along a row,
/// `Up` to the row with the next greater number and `Down` to the one before.
#[derive(Clone, Copy, Debug, PartialEq, Eq, Structural)]
pub enum MoveDirection {
    Right,
    Left,
    Up,
    Down,
}

impl MoveDirection {
    /// The direction that stands at place `n`: right, left and up at `0`, `1` and `2`,
    /// down at every other.
    pub fn from_index(n: usize) -> (direction: Self)
        ensures
            direction == match n {
                0 => MoveDirection::Right,
                1 => MoveDirection::Left,
                2 => MoveDirection::Up,
                _ => MoveDirection::Down,
            },
    {
        match n {
            0 => MoveDirection::Right,
            1 => MoveDirection::Left,
            2 => MoveDirection::Up,
            _ => MoveDirection::Down,
        }
    }

    /// A direction drawn at random.
    pub fn random(rng: &mut ThreadRng) -> (direction: Self) {
        MoveDirection::from_index(random_below(rng, 4))
    }
}

/// A cell of the grid of `C`, as the pair `(x, y)`.
#[derive(Debug)]
pub struct Position<C: WorldConfig> {
    x: usize,
    y: usize,
    phantom: PhantomData<C>,
}

/// True when `(x, y)` names a cell of the grid of `C`.
pub open spec fn in_bounds<C: WorldConfig>(p: (int, int)) -> bool {
    0 <= p.0 < C::MAX_LEN_X && 0 <= p.1 < C::MAX_LEN_Y
}

/// The pair one unit step away from `p` in the given direction, on the unbounded plane.
pub open spec fn target(p: (int, int), direction: MoveDirection) -> (int, int) {
    match direction {
        MoveDirection::Right => (p.0 + 1, p.1),
        MoveDirection::Left => (p.0 - 1, p.1),
        MoveDirection::Up => (p.0, p.1 + 1),
        MoveDirection::Down => (p.0, p.1 - 1),
    }
}

/// True when `q` is exactly one unit step away from `p`, along one axis.
pub open spec fn adjacent(p: (int, int), q: (int, int)) -> bool {
    exists|direction: MoveDirection| target(p, direction) == q
}

/// The direction of the unit step from `p` to `q`; meaningful when they are adjacent.
pub open spec fn direction_between(p: (int, int), q: (int, int)) -> MoveDirection {
    if q == (p.0 + 1, p.1) {
        MoveDirection::Right
    } else if q == (p.0 - 1, p.1) {
        MoveDirection::Left
    } else if q == (p.0, p.1 + 1) {
        MoveDirection::Up
    } else {
        MoveDirection::Down
    }
}

/// The number of cells of the grid of `C`.
pub open spec fn cell_count<C: WorldConfig>() -> int {
    C::MAX_LEN_X * C::MAX_LEN_Y
}

/// The place of a cell when the grid is read row by row.
pub open spec fn cell_number<C: WorldConfig>(p: (int, int)) -> int {
    p.1 * C::MAX_LEN_X + p.0
}

/// The cell that stands at place `n` when the grid is read row by row.
pub open spec fn cell_at<C: WorldConfig>(n: int) -> (int, int) {
    (n % (C::MAX_LEN_X as int), n / (C::MAX_LEN_X as int))
}

/// The numbers `0, 1, .., n - 1` in rising order.
pub open spec fn counting(n: nat) -> Seq<usize> {
    Seq::new(n, |i: int| i as usize)
}

/// The views of a sequence of positions.
pub open spec fn views<C: WorldConfig>(positions: Seq<Position<C>>) -> Seq<(int, int)> {
    Seq::new(positions.len(), |i: int| positions[i]@)
}

impl<C: WorldConfig> View for Position<C> {
    type V = (int, int);

    closed spec fn view(&self) -> (int, int) {
        (self.x as int, self.y as int)
    }
}

impl<C: WorldConfig> Position<C> {
    /// The invariant of a position: it names a cell of the grid. It holds of every
    /// position that the program has at hand: none can be made, or changed into one,
    /// that lies off the grid.
    #[verifier::type_invariant]
    pub open spec fn wf(&self) -> bool {
        in_bounds::<C>(self@)
    }

    /// The position of the cell in column `x` and row `y`, which must lie on the grid.
    pub fn new(x: usize, y: usize) -> (p: Self)
        requires
            x < C::MAX_LEN_X,
            y < C::MAX_LEN_Y,
        ensures
            p@ == (x as int, y as int),
            p.wf(),
    {
        Position { x, y, phantom: PhantomData }
    }

    /// `len` cells of the grid, no two the same, drawn at random; the whole grid, each
    /// cell once, where `len` is the number of cells or more.
    pub fn new_random_set(rng: &mut ThreadRng, len: usize) -> (set: Vec<Self>)
        requires
            cell_count::<C>() <= usize::MAX,
        ensures
            set.len() == if len <= cell_count::<C>() {
                len as int
            } else {
                cell_count::<C>()
            },
            forall|i: int| 0 <= i < set.len() ==> (#[trigger] set[i]).wf(),
            views(set@).no_duplicates(),
            len >= cell_count::<C>() ==> forall|p: (int, int)|
                in_bounds::<C>(p) ==> #[trigger] views(set@).contains(p),
    {
        let total: usize = C::MAX_LEN_X * C::MAX_LEN_Y;
        let mut numbers: Vec<usize> = Vec::new();
        let mut k: usize = 0;
        while k < total
            invariant
                k <= total,
                numbers@ == counting(k as nat),
            decreases total - k,
        {
            numbers.push(k);
            k += 1;
            assert(numbers@ =~= counting(k as nat));
        }
        shuffle(&mut numbers, rng);
        proof {
            lemma_rearranged_counting(numbers@, total as nat);
        }
        let ghost shuffled = numbers@;
        numbers.truncate(len);
        let mut set: Vec<Self> = Vec::new();
        let mut i: usize = 0;
        while i < numbers.len()
            invariant
                i <= numbers.len(),
                total == cell_count::<C>(),
                numbers@.len() <= total,
                forall|j: int| 0 <= j < numbers.len() ==> 0 <= #[trigger] numbers[j] < total,
                set.len() == i,
                forall|j: int| 0 <= j < i ==> (#[trigger] set[j]).wf(),
                forall|j: int|
                    0 <= j < i ==> (#[trigger] set[j])@ == cell_at::<C>(numbers[j] as int),
            decreases numbers.len() - i,
        {
            let n = numbers[i];
            proof {
                lemma_cell_at_in_bounds::<C>(n as int);
            }
            set.push(Position::new(n % C::MAX_LEN_X, n / C::MAX_LEN_X));
            i += 1;
        }
        proof {
            assert forall|a: int, b: int|
                0 <= a < set.len() && 0 <= b < set.len() && a != b implies views(set@)[a] != views(
                set@,
            )[b] by {
                assert(numbers@[a] == shuffled[a] && numbers@[b] == shuffled[b]);
                lemma_cell_at_injective::<C>(numbers[a] as int, numbers[b] as int);
            }
            if len >= cell_count::<C>() {
                assert(numbers@ =~= shuffled);
                assert forall|p: (int, int)| in_bounds::<C>(p) implies #[trigger] views(
                    set@,
                ).contains(p) by {
                    lemma_cell_number_inverts::<C>(p);
                    let n = cell_number::<C>(p) as usize;
                    assert(shuffled.contains(n));
                    let j = choose|j: int| 0 <= j < shuffled.len() && shuffled[j] == n;
                    assert(views(set@)[j] == p);
                }
            }
        }
        set
    }

    /// The cells one step away from this one that lie on the grid, in an order drawn
    /// at random.
    pub fn neighbors(&self) -> (cells: Vec<Self>)
        requires
            self.wf(),
        ensures
            forall|i: int|
                0 <= i < cells.len() ==> (#[trigger] cells[i]).wf() && adjacent(self@, cells[i]@),
            forall|q: (int, int)|
                in_bounds::<C>(q) && adjacent(self@, q) ==> #[trigger] views(cells@).contains(q),
            views(cells@).no_duplicates(),
    {
        let mut directions = vec![
            MoveDirection::Right,
            MoveDirection::Left,
            MoveDirection::Up,
            MoveDirection::Down,
        ];
        let ghost ordered = directions@;
        let mut rng = rand::thread_rng();
        shuffle(&mut directions, &mut rng);
        proof {
            ordered.to_multiset_ensures();
            directions@.to_multiset_ensures();
            assert(ordered.no_duplicates());
            ordered.lemma_multiset_has_no_duplicates();
            directions@.lemma_multiset_has_no_duplicates_conv();
            assert forall|d: MoveDirection| #[trigger] directions@.contains(d) by {
                assert(ordered[0] == MoveDirection::Right && ordered[1] == MoveDirection::Left
                    && ordered[2] == MoveDirection::Up && ordered[3] == MoveDirection::Down);
                assert(ordered.contains(d));
                assert(ordered.to_multiset().count(d) > 0);
                assert(directions@.to_multiset().count(d) > 0);
            }
        }
        let mut cells: Vec<Self> = Vec::new();
        let ghost mut taken: Seq<int> = Seq::empty();
        let mut i: usize = 0;
        while i < directions.len()
            invariant
                i <= directions.len(),
                self.wf(),
                directions@.no_duplicates(),
                taken.len() == cells.len(),
                forall|j: int|
                    0 <= j < taken.len() ==> 0 <= #[trigger] taken[j] < i && cells[j]@ == target(
                        self@,
                        directions[taken[j]],
                    ),
                forall|j: int, k: int| 0 <= j < k < taken.len() ==> taken[j] != taken[k],
                forall|j: int|
                    0 <= j < cells.len() ==> (#[trigger] cells[j]).wf() && adjacent(
                        self@,
                        cells[j]@,
                    ),
                forall|j: int|
                    0 <= j < i && in_bounds::<C>(target(self@, directions[j])) ==> views(
                        cells@,
                    ).contains(#[trigger] target(self@, directions[j])),
            decreases directions.len() - i,
        {
            let ghost before = views(cells@);
            let mut cell = self.clone();
            if cell.move_by(directions[i]).is_ok() {
                cells.push(cell);
                proof {
                    taken = taken.push(i as int);
                    let last = cells.len() - 1;
                    assert(views(cells@)[last] == target(self@, directions[i as int]));
                    assert forall|j: int|
                        0 <= j < i && in_bounds::<C>(target(self@, directions[j])) implies views(
                        cells@,
                    ).contains(#[trigger] target(self@, directions[j])) by {
                        let q = target(self@, directions[j]);
                        let at = choose|at: int| 0 <= at < before.len() && before[at] == q;
                        assert(views(cells@)[at] == q);
                    }
                }
            }
            i += 1;
        }
        proof {
            assert forall|j: int, k: int|
                0 <= j < cells.len() && 0 <= k < cells.len() && j != k implies views(cells@)[j]
                != views(cells@)[k] by {
                assert(taken[j] != taken[k]);
                assert(directions[taken[j]] != directions[taken[k]]);
            }
            let found = views(cells@);
            assert forall|q: (int, int)| in_bounds::<C>(q) && adjacent(self@, q) implies #[trigger]
                found.contains(q) by {
                let d = choose|d: MoveDirection| target(self@, d) == q;
                assert(directions@.contains(d));
                let j = choose|j: int| 0 <= j < directions.len() && directions[j] == d;
                assert(views(cells@).contains(target(self@, directions[j])));
            }
        }
        cells
    }

    /// A cell of the grid drawn at random.
    pub fn random(rng: &mut ThreadRng) -> (p: Self)
        requires
            C::MAX_LEN_X > 0,
            C::MAX_LEN_Y > 0,
        ensures
            p.wf(),
    {
        let x = random_below(rng, C::MAX_LEN_X);
        let y = random_below(rng, C::MAX_LEN_Y);
        Position::new(x, y)
    }

    /// The column of this position.
    pub fn x(&self) -> (x: usize)
        ensures
            x == self@.0,
    {
        self.x
    }

    /// The row of this position.
    pub fn y(&self) -> (y: usize)
        ensures
            y == self@.1,
    {
        self.y
    }

    /// The index of this position in a row-major array: row first, column second.
    pub fn to_index(&self) -> (idx: [usize; 2])
        ensures
            idx[0] == self@.1,
            idx[1] == self@.0,
    {
        [self.y, self.x]
    }

    /// Takes one unit step in place if that stays on the grid, and fails without
    /// touching the position if it does not.
    pub fn move_by(&mut self, direction: MoveDirection) -> (r: CdnResult<()>)
        requires
            old(self).wf(),
        ensures
            final(self).wf(),
            in_bounds::<C>(target(old(self)@, direction)) ==> r is Ok && final(self)@ == target(
                old(self)@,
                direction,
            ),
            !in_bounds::<C>(target(old(self)@, direction)) ==> r is Err
                && *r->Err_0.0 is InvalidMoveDirection && final(self)@ == old(self)@,
    {
        match direction {
            MoveDirection::Right => {
                if self.x + 1 < C::MAX_LEN_X {
                    self.x += 1;
                    return Ok(());
                }
            },
            MoveDirection::Left => {
                if self.x > 0 {
                    self.x -= 1;
                    return Ok(());
                }
            },
            MoveDirection::Up => {
                if self.y + 1 < C::MAX_LEN_Y {
                    self.y += 1;
                    return Ok(());
                }
            },
            MoveDirection::Down => {
                if self.y > 0 {
                    self.y -= 1;
                    return Ok(());
                }
            },
        }
        Err(CdnError::from(CdnErrorKind::InvalidMoveDirection))
    }

    /// The direction of the single unit step that leads from `self` to `other`.
    pub fn direction_to(&self, other: &Self) -> (direction: MoveDirection)
        requires
            adjacent(self@, other@),
        ensures
            direction == direction_between(self@, other@),
            target(self@, direction) == other@,
    {
        if self.x < other.x {
            MoveDirection::Right
        } else if self.x > other.x {
            MoveDirection::Left
        } else if self.y < other.y {
            MoveDirection::Up
        } else {
            MoveDirection::Down
        }
    }
}

impl<C: WorldConfig> Clone for Position<C> {
    fn clone(&self) -> (p: Self)
        ensures
            p@ == self@,
    {
        proof {
            use_type_invariant(self);
        }
        Position { x: self.x, y: self.y, phantom: PhantomData }
    }
}

impl<C: WorldConfig> PartialEq for Position<C> {
    fn eq(&self, other: &Self) -> (b: bool) {
        self.x == other.x && self.y == other.y
    }
}

impl<C: WorldConfig> PartialEqSpecImpl for Position<C> {
    open spec fn obeys_eq_spec() -> bool {
        true
    }

    open spec fn eq_spec(&self, other: &Self) -> bool {
        self@ == other@
    }
}

impl<C: WorldConfig> Eq for Position<C> {

}

/// `Hash::hash` of `usize`: feeds the number to the hasher; nothing is claimed of it.
pub assume_specification<H: Hasher>[ <usize as Hash>::hash ](value: &usize, state: &mut H);

impl<C: WorldConfig> Hash for Position<C> {
    fn hash<H: Hasher>(&self, state: &mut H) {
        self.x.hash(state);
        self.y.hash(state);
    }
}

/// A sequence that holds the same numbers as `0, 1, .., n - 1`, each as often, has
/// length `n`, holds no number twice, holds only numbers below `n`, and all of them.
pub proof fn lemma_rearranged_counting(s: Seq<usize>, n: nat)
    requires
        n <= usize::MAX,
        s.to_multiset() == counting(n).to_multiset(),
    ensures
        s.len() == n,
        s.no_duplicates(),
        forall|i: int| 0 <= i < s.len() ==> 0 <= #[trigger] s[i] < n,
        forall|k: usize| k < n ==> #[trigger] s.contains(k),
{
    let c = counting(n);
    s.to_multiset_ensures();
    c.to_multiset_ensures();
    assert(c.no_duplicates());
    c.lemma_multiset_has_no_duplicates();
    s.lemma_multiset_has_no_duplicates_conv();
    assert forall|i: int| 0 <= i < s.len() implies 0 <= #[trigger] s[i] < n by {
        assert(s.contains(s[i]));
        assert(s.to_multiset().count(s[i]) > 0);
        assert(c.to_multiset().count(s[i]) > 0);
        assert(c.contains(s[i]));
    }
    assert forall|k: usize| k < n implies #[trigger] s.contains(k) by {
        assert(c[k as int] == k);
        assert(c.contains(k));
        assert(c.to_multiset().count(k) > 0);
        assert(s.to_multiset().count(k) > 0);
    }
}

/// Reading the grid row by row, every place below the number of cells holds a cell
/// of the grid.
pub proof fn lemma_cell_at_in_bounds<C: WorldConfig>(n: int)
    requires
        0 <= n < cell_count::<C>(),
    ensures
        in_bounds::<C>(cell_at::<C>(n)),
        cell_number::<C>(cell_at::<C>(n)) == n,
{
    let w = C::MAX_LEN_X as int;
    let h = C::MAX_LEN_Y as int;
    assert(w > 0) by (nonlinear_arith)
        requires
            0 <= n < w * h,
            w >= 0,
    ;
    lemma_fundamental_div_mod(n, w);
    assert(0 <= n / w < h) by (nonlinear_arith)
        requires
            0 <= n < w * h,
            w > 0,
            n == w * (n / w) + n % w,
            0 <= n % w < w,
    ;
    lemma_mul_is_commutative(w, n / w);
}

/// Two different places of the grid hold two different cells.
pub proof fn lemma_cell_at_injective<C: WorldConfig>(a: int, b: int)
    requires
        0 <= a < cell_count::<C>(),
        0 <= b < cell_count::<C>(),
        a != b,
    ensures
        cell_at::<C>(a) != cell_at::<C>(b),
{
    lemma_cell_at_in_bounds::<C>(a);
    lemma_cell_at_in_bounds::<C>(b);
}

/// Every cell of the grid stands at a place below the number of cells, and that
/// place holds the cell.
pub proof fn lemma_cell_number_inverts<C: WorldConfig>(p: (int, int))
    requires
        in_bounds::<C>(p),
    ensures
        0 <= cell_number::<C>(p) < cell_count::<C>(),
        cell_at::<C>(cell_number::<C>(p)) == p,
{
    let w = C::MAX_LEN_X as int;
    let h = C::MAX_LEN_Y as int;
    assert(0 <= p.1 * w + p.0 < w * h) by (nonlinear_arith)
        requires
            0 <= p.0 < w,
            0 <= p.1 < h,
    ;
    lemma_fundamental_div_mod_converse(p.1 * w + p.0, w, p.1, p.0);
}

/// A step that stays on the grid is undone by asking for the way back, and the
/// direction between two adjacent cells is the step that leads from one to the other:
/// `direction_between` and `target` are inverse to each other.
pub proof fn lemma_direction_inverts_move(p: (int, int), q: (int, int), direction: MoveDirection)
    ensures
        direction_between(p, target(p, direction)) == direction,
        adjacent(p, q) ==> target(p, direction_between(p, q)) == q,
        adjacent(p, q) ==> adjacent(q, p),
{
    if adjacent(p, q) {
        let d = choose|d: MoveDirection| target(p, d) == q;
        assert(target(p, d) == q);
        let back = match d {
            MoveDirection::Right => MoveDirection::Left,
            MoveDirection::Left => MoveDirection::Right,
            MoveDirection::Up => MoveDirection::Down,
            MoveDirection::Down => MoveDirection::Up,
        };
        assert(target(q, back) == p);
    }
}

} // verus!
