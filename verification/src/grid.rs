//! Uniform spatial partition: a padded array of buckets that turns the
//! all-pairs neighbour search into a search of nine cells.
//!
//! The partition is rebuilt from scratch from the particle positions of the
//! current step. Its abstract state is the geometry and, for each particle,
//! the cell it was filed under; what each bucket holds follows from that.

use vstd::prelude::*;
use crate::config::ConfigError;

verus! {

/// A position on the plane, in whole length units.
#[derive(Clone, Copy, Debug, PartialEq, Eq, Structural)]
pub struct Point {
    pub x: i64,
    pub y: i64,
}

/// The column and row of one bucket.
#[derive(Clone, Copy, Debug, PartialEq, Eq, Structural)]
pub struct CellIndex {
    pub col: usize,
    pub row: usize,
}

/// The bucket index of coordinate `pos` along an axis of `dim` buckets:
/// the quantized coordinate, shifted past the padding bucket and clamped
/// into the interior `[1, dim - 2]`.
pub open spec fn axis_index(pos: int, cell_size: int, dim: int) -> int {
    let shifted = pos / cell_size + 1;
    if shifted < 1 {
        1
    } else if shifted > dim - 2 {
        dim - 2
    } else {
        shifted
    }
}

/// Two cells touch: they are the same cell or neighbours, diagonals included.
pub open spec fn adjacent(a: CellIndex, b: CellIndex) -> bool {
    &&& a.col <= b.col + 1
    &&& b.col <= a.col + 1
    &&& a.row <= b.row + 1
    &&& b.row <= a.row + 1
}

/// The squared Euclidean distance between two positions.
pub open spec fn distance_squared(a: Point, b: Point) -> int {
    (a.x - b.x) * (a.x - b.x) + (a.y - b.y) * (a.y - b.y)
}

/// The fault, if any, of a domain of `width` by `height` length units cut
/// into square cells of side `cell_size`.
pub open spec fn grid_fault(width: int, height: int, cell_size: int) -> Option<ConfigError> {
    if cell_size <= 0 {
        Some(ConfigError::ZeroCellSize)
    } else if width <= 0 || height <= 0 {
        Some(ConfigError::ZeroExtent)
    } else if width < cell_size || height < cell_size {
        Some(ConfigError::ExtentBelowCellSize)
    } else if width / cell_size + 2 > usize::MAX || height / cell_size + 2 > usize::MAX {
        Some(ConfigError::GridTooLarge)
    } else {
        None
    }
}

/// The abstract state of a partition.
pub struct GridView {
    /// Side of a square cell, in length units.
    pub cell_size: nat,
    /// Number of bucket columns, the two padding columns included.
    pub cols: nat,
    /// Number of bucket rows, the two padding rows included.
    pub rows: nat,
    /// For each particle, by index, the cell it is filed under.
    pub homes: Seq<CellIndex>,
}

impl GridView {
    /// The cell lies inside the padding.
    pub open spec fn interior(self, col: int, row: int) -> bool {
        &&& 1 <= col <= self.cols - 2
        &&& 1 <= row <= self.rows - 2
    }

    /// The geometry admits an interior and every particle is filed in it.
    pub open spec fn wf(self) -> bool {
        &&& self.cell_size >= 1
        &&& 3 <= self.cols <= usize::MAX
        &&& 3 <= self.rows <= usize::MAX
        &&& self.homes.len() <= usize::MAX
        &&& forall|p: int|
            0 <= p < self.homes.len() ==> self.interior(
                (#[trigger] self.homes[p]).col as int,
                self.homes[p].row as int,
            )
    }

    /// The number of particles filed.
    pub open spec fn count(self) -> nat {
        self.homes.len()
    }

    /// The cell under which a particle at `p` is filed.
    pub open spec fn home_of(self, p: Point) -> CellIndex {
        CellIndex {
            col: axis_index(p.x as int, self.cell_size as int, self.cols as int) as usize,
            row: axis_index(p.y as int, self.cell_size as int, self.rows as int) as usize,
        }
    }

    /// The cells under which particles at `positions` are filed.
    pub open spec fn homes_of(self, positions: Seq<Point>) -> Seq<CellIndex> {
        Seq::new(positions.len(), |p: int| self.home_of(positions[p]))
    }

    /// The particles among the first `n` that are filed under a cell, in
    /// ascending order.
    pub open spec fn members_below(self, col: int, row: int, n: nat) -> Seq<usize>
        decreases n,
    {
        if n == 0 {
            Seq::empty()
        } else {
            let rest = self.members_below(col, row, (n - 1) as nat);
            if self.homes[n - 1].col == col && self.homes[n - 1].row == row {
                rest.push((n - 1) as usize)
            } else {
                rest
            }
        }
    }

    /// What the bucket of a cell holds: the particles filed under it, in
    /// ascending order.
    pub open spec fn members(self, col: int, row: int) -> Seq<usize> {
        self.members_below(col, row, self.homes.len())
    }

    /// The nine buckets centred on a cell, one after the other, column by
    /// column.
    pub open spec fn neighborhood(self, col: int, row: int) -> Seq<usize> {
        self.members(col - 1, row - 1) + self.members(col - 1, row) + self.members(
            col - 1,
            row + 1,
        ) + self.members(col, row - 1) + self.members(col, row) + self.members(col, row + 1)
            + self.members(col + 1, row - 1) + self.members(col + 1, row) + self.members(
            col + 1,
            row + 1,
        )
    }
}

impl GridView {
    /// `pairs` names every two distinct particles filed in touching cells
    /// exactly once, the lower index first.
    pub open spec fn lists_touching_pairs(self, pairs: Seq<(usize, usize)>) -> bool {
        &&& pairs.no_duplicates()
        &&& forall|k: int|
            0 <= k < pairs.len() ==> {
                let pair = #[trigger] pairs[k];
                &&& pair.0 < pair.1 < self.count()
                &&& adjacent(self.homes[pair.0 as int], self.homes[pair.1 as int])
            }
        &&& forall|a: usize, b: usize|
            a < b < self.count() && adjacent(self.homes[a as int], self.homes[b as int])
                ==> #[trigger] pairs.contains((a, b))
    }

    /// Among the first `n` particles a bucket holds exactly those filed
    /// under its cell, each once and in ascending order.
    proof fn lemma_members_below(self, col: int, row: int, n: nat)
        requires
            n <= self.homes.len() <= usize::MAX,
        ensures
            forall|k: int|
                0 <= k < self.members_below(col, row, n).len() ==> {
                    let p = #[trigger] self.members_below(col, row, n)[k];
                    p < n && self.homes[p as int].col == col && self.homes[p as int].row == row
                },
            forall|k1: int, k2: int|
                0 <= k1 < k2 < self.members_below(col, row, n).len() ==> self.members_below(
                    col,
                    row,
                    n,
                )[k1] < self.members_below(col, row, n)[k2],
            forall|p: usize|
                p < n && self.homes[p as int].col == col && self.homes[p as int].row == row
                    ==> self.members_below(col, row, n).contains(p),
        decreases n,
    {
        if n > 0 {
            let rest = self.members_below(col, row, (n - 1) as nat);
            self.lemma_members_below(col, row, (n - 1) as nat);
            lemma_push_contains(rest, (n - 1) as usize);
        }
    }

    /// A bucket holds exactly the particles filed under its cell, each once
    /// and in ascending order.
    pub proof fn lemma_members(self, col: int, row: int)
        requires
            self.wf(),
        ensures
            forall|p: usize|
                self.members(col, row).contains(p) <==> p < self.count() && self.homes[p as int].col
                    == col && self.homes[p as int].row == row,
            forall|k1: int, k2: int|
                0 <= k1 < k2 < self.members(col, row).len() ==> self.members(col, row)[k1]
                    < self.members(col, row)[k2],
            self.members(col, row).no_duplicates(),
    {
        self.lemma_members_below(col, row, self.homes.len());
    }

    /// The nine buckets centred on a cell hold exactly the particles filed
    /// in that cell or in a cell next to it, each once.
    pub proof fn lemma_neighborhood(self, col: int, row: int)
        requires
            self.wf(),
        ensures
            forall|p: usize|
                self.neighborhood(col, row).contains(p) <==> {
                    &&& p < self.count()
                    &&& col - 1 <= self.homes[p as int].col <= col + 1
                    &&& row - 1 <= self.homes[p as int].row <= row + 1
                },
            self.neighborhood(col, row).no_duplicates(),
    {
        let b0 = self.members(col - 1, row - 1);
        let b1 = self.members(col - 1, row);
        let b2 = self.members(col - 1, row + 1);
        let b3 = self.members(col, row - 1);
        let b4 = self.members(col, row);
        let b5 = self.members(col, row + 1);
        let b6 = self.members(col + 1, row - 1);
        let b7 = self.members(col + 1, row);
        let b8 = self.members(col + 1, row + 1);
        self.lemma_members(col - 1, row - 1);
        self.lemma_members(col - 1, row);
        self.lemma_members(col - 1, row + 1);
        self.lemma_members(col, row - 1);
        self.lemma_members(col, row);
        self.lemma_members(col, row + 1);
        self.lemma_members(col + 1, row - 1);
        self.lemma_members(col + 1, row);
        self.lemma_members(col + 1, row + 1);
        let s1 = b0 + b1;
        let s2 = s1 + b2;
        let s3 = s2 + b3;
        let s4 = s3 + b4;
        let s5 = s4 + b5;
        let s6 = s5 + b6;
        let s7 = s6 + b7;
        lemma_concat_distinct(b0, b1);
        lemma_concat_distinct(s1, b2);
        lemma_concat_distinct(s2, b3);
        lemma_concat_distinct(s3, b4);
        lemma_concat_distinct(s4, b5);
        lemma_concat_distinct(s5, b6);
        lemma_concat_distinct(s6, b7);
        lemma_concat_distinct(s7, b8);
    }
}

impl GridView {
    /// Two particles whose positions lie within one cell size of each
    /// other along both axes are each among the candidates of the other's
    /// cell.
    pub proof fn lemma_close_particles_are_neighbors(self, positions: Seq<Point>, a: int, b: int)
        requires
            self.wf(),
            self.homes == self.homes_of(positions),
            0 <= a < positions.len(),
            0 <= b < positions.len(),
            -self.cell_size <= positions[a].x - positions[b].x <= self.cell_size,
            -self.cell_size <= positions[a].y - positions[b].y <= self.cell_size,
        ensures
            adjacent(self.homes[a], self.homes[b]),
            self.neighborhood(self.homes[a].col as int, self.homes[a].row as int).contains(
                b as usize,
            ),
            self.neighborhood(self.homes[b].col as int, self.homes[b].row as int).contains(
                a as usize,
            ),
    {
        lemma_axis_index_close(
            positions[a].x as int,
            positions[b].x as int,
            self.cell_size as int,
            self.cols as int,
        );
        lemma_axis_index_close(
            positions[a].y as int,
            positions[b].y as int,
            self.cell_size as int,
            self.rows as int,
        );
        self.lemma_neighborhood(self.homes[a].col as int, self.homes[a].row as int);
        self.lemma_neighborhood(self.homes[b].col as int, self.homes[b].row as int);
    }

    /// Partition completeness: with cells twice the interaction radius
    /// wide, two particles no farther apart than the interaction radius are
    /// each found by the neighbourhood query of the other's cell.
    pub proof fn lemma_partition_complete(
        self,
        positions: Seq<Point>,
        radius: int,
        a: int,
        b: int,
    )
        requires
            self.wf(),
            self.homes == self.homes_of(positions),
            self.cell_size == 2 * radius,
            0 <= a < positions.len(),
            0 <= b < positions.len(),
            distance_squared(positions[a], positions[b]) <= radius * radius,
        ensures
            self.neighborhood(self.homes[a].col as int, self.homes[a].row as int).contains(
                b as usize,
            ),
            self.neighborhood(self.homes[b].col as int, self.homes[b].row as int).contains(
                a as usize,
            ),
    {
        let dx = positions[a].x - positions[b].x;
        let dy = positions[a].y - positions[b].y;
        lemma_leg_within_radius(dx, dy, radius);
        lemma_leg_within_radius(dy, dx, radius);
        self.lemma_close_particles_are_neighbors(positions, a, b);
    }
}

/// A leg of a right triangle is no longer than its hypotenuse.
proof fn lemma_leg_within_radius(leg: int, other: int, radius: int)
    requires
        radius >= 0,
        leg * leg + other * other <= radius * radius,
    ensures
        -radius <= leg <= radius,
{
    assert(other * other >= 0) by (nonlinear_arith);
    if leg > radius {
        assert(leg * leg > radius * radius) by (nonlinear_arith)
            requires
                leg > radius,
                radius >= 0,
        ;
    }
    if leg < -radius {
        assert(leg * leg > radius * radius) by (nonlinear_arith)
            requires
                leg < -radius,
                radius >= 0,
        ;
    }
}

/// Positions within one cell size of each other along an axis land in the
/// same bucket index or in indices one apart.
pub proof fn lemma_axis_index_close(x1: int, x2: int, cell_size: int, dim: int)
    requires
        cell_size >= 1,
        dim >= 3,
        x1 - x2 <= cell_size,
        x2 - x1 <= cell_size,
    ensures
        axis_index(x1, cell_size, dim) <= axis_index(x2, cell_size, dim) + 1,
        axis_index(x2, cell_size, dim) <= axis_index(x1, cell_size, dim) + 1,
        1 <= axis_index(x1, cell_size, dim) <= dim - 2,
        1 <= axis_index(x2, cell_size, dim) <= dim - 2,
{
    lemma_quotient_close(x1, x2, cell_size);
    lemma_quotient_close(x2, x1, cell_size);
}

/// Raising a number by at most the divisor raises its quotient by at most
/// one.
proof fn lemma_quotient_close(x: int, y: int, d: int)
    requires
        d >= 1,
        x <= y + d,
    ensures
        x / d <= y / d + 1,
{
    vstd::arithmetic::div_mod::lemma_div_plus_one(y, d);
    vstd::arithmetic::div_mod::lemma_div_is_ordered(x, y + d, d);
}

/// An item is in a sequence with one more item if it was in it before or
/// is the new item.
proof fn lemma_push_contains<T>(s: Seq<T>, last: T)
    ensures
        forall|item: T| #[trigger] s.push(last).contains(item) <==> s.contains(item) || item == last,
{
    assert forall|item: T| #[trigger] s.push(last).contains(item) <==> s.contains(item) || item
        == last by {
        if s.contains(item) {
            let k = choose|k: int| 0 <= k < s.len() && s[k] == item;
            assert(s.push(last)[k] == item);
        }
        if item == last {
            assert(s.push(last)[s.len() as int] == item);
        }
    }
}

/// Two sequences one after the other hold what either holds, and nothing
/// twice where neither repeats an item and they share none.
proof fn lemma_concat_distinct(s: Seq<usize>, t: Seq<usize>)
    ensures
        forall|item: usize| #[trigger] (s + t).contains(item) <==> s.contains(item) || t.contains(item),
        s.no_duplicates() && t.no_duplicates() && (forall|item: usize|
            !(s.contains(item) && t.contains(item))) ==> (s + t).no_duplicates(),
{
    assert forall|item: usize| #[trigger] (s + t).contains(item) <==> s.contains(item)
        || t.contains(item) by {
        if s.contains(item) {
            let k = choose|k: int| 0 <= k < s.len() && s[k] == item;
            assert((s + t)[k] == item);
        }
        if t.contains(item) {
            let k = choose|k: int| 0 <= k < t.len() && t[k] == item;
            assert((s + t)[s.len() + k] == item);
        }
        if (s + t).contains(item) {
            let k = choose|k: int| 0 <= k < (s + t).len() && (s + t)[k] == item;
            if k < s.len() {
                assert(s[k] == item);
            } else {
                assert(t[k - s.len()] == item);
            }
        }
    }
    if s.no_duplicates() && t.no_duplicates() && (forall|item: usize|
        !(s.contains(item) && t.contains(item))) {
        assert forall|i: int, j: int| 0 <= i < (s + t).len() && 0 <= j < (s + t).len() && i != j implies (s + t)[i] != (s + t)[j] by {
            if i < s.len() && j >= s.len() {
                assert(s.contains(s[i]));
                assert(t.contains(t[j - s.len()]));
            }
            if j < s.len() && i >= s.len() {
                assert(s.contains(s[j]));
                assert(t.contains(t[i - s.len()]));
            }
        }
    }
}

/// A uniform grid of buckets over a rectangular domain, padded by one
/// bucket on every side.
pub struct Grid {
    cell_size: usize,
    cols: usize,
    rows: usize,
    buckets: Vec<Vec<Vec<usize>>>,
    homes: Vec<CellIndex>,
}

impl View for Grid {
    type V = GridView;

    closed spec fn view(&self) -> GridView {
        GridView {
            cell_size: self.cell_size as nat,
            cols: self.cols as nat,
            rows: self.rows as nat,
            homes: self.homes@,
        }
    }
}

impl Grid {
    /// The abstract state is sound and the buckets hold what it says.
    pub open spec fn wf(&self) -> bool {
        &&& self@.wf()
        &&& self.buckets_match()
    }

    /// The buckets have the shape of the geometry and each holds the
    /// particles filed under its cell, in ascending order.
    pub closed spec fn buckets_match(&self) -> bool {
        &&& self.buckets.len() == self.cols
        &&& forall|i: int| 0 <= i < self.cols ==> (#[trigger] self.buckets[i]).len() == self.rows
        &&& forall|i: int, j: int|
            0 <= i < self.cols && 0 <= j < self.rows ==> (#[trigger] self.buckets[i][j])@
                == self@.members(i, j)
    }

    /// Lays out the buckets for a domain of `width` by `height` length units
    /// and cells of side `cell_size`. No particle is filed yet.
    pub fn new(width: usize, height: usize, cell_size: usize) -> (made: Result<Grid, ConfigError>)
        ensures
            match made {
                Ok(grid) => {
                    &&& grid_fault(width as int, height as int, cell_size as int) is None
                    &&& grid.wf()
                    &&& grid@.cell_size == cell_size
                    &&& grid@.cols == width / cell_size + 2
                    &&& grid@.rows == height / cell_size + 2
                    &&& grid@.homes.len() == 0
                },
                Err(fault) => grid_fault(width as int, height as int, cell_size as int) == Some(
                    fault,
                ),
            },
    {
        if cell_size == 0 {
            return Err(ConfigError::ZeroCellSize);
        }
        if width == 0 || height == 0 {
            return Err(ConfigError::ZeroExtent);
        }
        if width < cell_size || height < cell_size {
            return Err(ConfigError::ExtentBelowCellSize);
        }
        let inner_cols: usize = width / cell_size;
        let inner_rows: usize = height / cell_size;
        if inner_cols > usize::MAX - 2 || inner_rows > usize::MAX - 2 {
            return Err(ConfigError::GridTooLarge);
        }
        assert(inner_cols >= 1 && inner_rows >= 1) by (nonlinear_arith)
            requires
                inner_cols == width as int / cell_size as int,
                inner_rows == height as int / cell_size as int,
                width >= cell_size,
                height >= cell_size,
                cell_size >= 1,
        ;
        let cols: usize = inner_cols + 2;
        let rows: usize = inner_rows + 2;
        let mut buckets: Vec<Vec<Vec<usize>>> = Vec::new();
        let mut i: usize = 0;
        while i < cols
            invariant
                i <= cols,
                buckets.len() == i,
                forall|a: int| 0 <= a < i ==> (#[trigger] buckets[a]).len() == rows,
                forall|a: int, b: int|
                    0 <= a < i && 0 <= b < rows ==> (#[trigger] buckets[a][b])@ == Seq::<
                        usize,
                    >::empty(),
            decreases cols - i,
        {
            let mut column: Vec<Vec<usize>> = Vec::new();
            let mut j: usize = 0;
            while j < rows
                invariant
                    j <= rows,
                    column.len() == j,
                    forall|b: int| 0 <= b < j ==> (#[trigger] column[b])@ == Seq::<usize>::empty(),
                decreases rows - j,
            {
                column.push(Vec::new());
                j += 1;
            }
            buckets.push(column);
            i += 1;
        }
        let grid = Grid { cell_size, cols, rows, buckets, homes: Vec::new() };
        Ok(grid)
    }

    /// Side of a square cell, in length units.
    pub fn cell_size(&self) -> (size: usize)
        ensures
            size == self@.cell_size,
    {
        self.cell_size
    }

    /// Number of bucket columns, the two padding columns included.
    pub fn cols(&self) -> (cols: usize)
        ensures
            cols == self@.cols,
    {
        self.cols
    }

    /// Number of bucket rows, the two padding rows included.
    pub fn rows(&self) -> (rows: usize)
        ensures
            rows == self@.rows,
    {
        self.rows
    }

    /// Number of particles filed by the last rebuild.
    pub fn len(&self) -> (count: usize)
        ensures
            count == self@.count(),
    {
        self.homes.len()
    }

    /// The column and row of the bucket for a particle at `(x, y)`. A
    /// position outside the domain lands in the nearest border cell.
    pub fn grid_pos(&self, x: i64, y: i64) -> (cell: (usize, usize))
        requires
            self.wf(),
        ensures
            cell.0 == self@.home_of(Point { x, y }).col,
            cell.1 == self@.home_of(Point { x, y }).row,
            self@.interior(cell.0 as int, cell.1 as int),
    {
        (axis_cell(x, self.cell_size, self.cols), axis_cell(y, self.cell_size, self.rows))
    }

    /// Files anew: empties every bucket, then puts the index of each
    /// particle into the bucket of its position.
    pub fn rebuild(&mut self, positions: &Vec<Point>)
        requires
            old(self).wf(),
        ensures
            final(self).wf(),
            final(self)@.cell_size == old(self)@.cell_size,
            final(self)@.cols == old(self)@.cols,
            final(self)@.rows == old(self)@.rows,
            final(self)@.homes == final(self)@.homes_of(positions@),
    {
        let cols = self.cols;
        let rows = self.rows;
        let cell_size = self.cell_size;
        let count = positions.len();
        let mut i: usize = 0;
        while i < cols
            invariant
                i <= cols,
                cols == self.cols,
                rows == self.rows,
                cell_size == self.cell_size,
                self.buckets.len() == cols,
                forall|a: int| 0 <= a < cols ==> (#[trigger] self.buckets[a]).len() == rows,
                forall|a: int, b: int|
                    0 <= a < i && 0 <= b < rows ==> (#[trigger] self.buckets[a][b])@ == Seq::<
                        usize,
                    >::empty(),
            decreases cols - i,
        {
            let mut j: usize = 0;
            while j < rows
                invariant
                    i < cols,
                    j <= rows,
                    cols == self.cols,
                    rows == self.rows,
                    cell_size == self.cell_size,
                    self.buckets.len() == cols,
                    forall|a: int| 0 <= a < cols ==> (#[trigger] self.buckets[a]).len() == rows,
                    forall|a: int, b: int|
                        0 <= a < i && 0 <= b < rows ==> (#[trigger] self.buckets[a][b])@ == Seq::<
                            usize,
                        >::empty(),
                    forall|b: int|
                        0 <= b < j ==> (#[trigger] self.buckets[i as int][b])@ == Seq::<
                            usize,
                        >::empty(),
                decreases rows - j,
            {
                self.buckets[i][j].clear();
                j += 1;
            }
            i += 1;
        }
        self.homes.clear();
        let mut p: usize = 0;
        while p < count
            invariant
                p <= count,
                count == positions.len(),
                cols == self.cols,
                rows == self.rows,
                cell_size == self.cell_size,
                cell_size >= 1,
                cols >= 3,
                rows >= 3,
                self.homes.len() == p,
                forall|q: int|
                    0 <= q < p ==> (#[trigger] self.homes[q]) == self@.home_of(positions[q]),
                self.buckets.len() == cols,
                forall|a: int| 0 <= a < cols ==> (#[trigger] self.buckets[a]).len() == rows,
                forall|a: int, b: int|
                    0 <= a < cols && 0 <= b < rows ==> (#[trigger] self.buckets[a][b])@ == Seq::<
                        usize,
                    >::empty(),
            decreases count - p,
        {
            let at = positions[p];
            let col = axis_cell(at.x, cell_size, cols);
            let row = axis_cell(at.y, cell_size, rows);
            self.homes.push(CellIndex { col, row });
            p += 1;
        }
        let mut p: usize = 0;
        while p < count
            invariant
                p <= count,
                count == positions.len(),
                cols == self.cols,
                rows == self.rows,
                cell_size == self.cell_size,
                cell_size >= 1,
                cols >= 3,
                rows >= 3,
                self.homes.len() == count,
                forall|q: int|
                    0 <= q < count ==> (#[trigger] self.homes[q]) == self@.home_of(positions[q]),
                self.buckets.len() == cols,
                forall|a: int| 0 <= a < cols ==> (#[trigger] self.buckets[a]).len() == rows,
                forall|a: int, b: int|
                    0 <= a < cols && 0 <= b < rows ==> (#[trigger] self.buckets[a][b])@
                        == self@.members_below(a, b, p as nat),
            decreases count - p,
        {
            let home = self.homes[p];
            self.buckets[home.col][home.row].push(p);
            p += 1;
        }
    }

    /// The cell under which particle `p` is filed.
    pub fn home(&self, p: usize) -> (cell: CellIndex)
        requires
            self.wf(),
            p < self@.count(),
        ensures
            cell == self@.homes[p as int],
            self@.interior(cell.col as int, cell.row as int),
    {
        self.homes[p]
    }

    /// The bucket of a cell: the particles filed under it, in ascending
    /// order.
    pub fn bucket(&self, col: usize, row: usize) -> (held: &Vec<usize>)
        requires
            self.wf(),
            col < self@.cols,
            row < self@.rows,
        ensures
            held@ == self@.members(col as int, row as int),
    {
        &self.buckets[col][row]
    }

    /// The candidates for interaction with a particle in the given interior
    /// cell: what the nine buckets centred on the cell hold.
    pub fn neighbors_of_cell(&self, col: usize, row: usize) -> (found: Vec<usize>)
        requires
            self.wf(),
            self@.interior(col as int, row as int),
        ensures
            found@ == self@.neighborhood(col as int, row as int),
    {
        let mut found: Vec<usize> = Vec::new();
        append_all(&mut found, &self.buckets[col - 1][row - 1]);
        append_all(&mut found, &self.buckets[col - 1][row]);
        append_all(&mut found, &self.buckets[col - 1][row + 1]);
        append_all(&mut found, &self.buckets[col][row - 1]);
        append_all(&mut found, &self.buckets[col][row]);
        append_all(&mut found, &self.buckets[col][row + 1]);
        append_all(&mut found, &self.buckets[col + 1][row - 1]);
        append_all(&mut found, &self.buckets[col + 1][row]);
        append_all(&mut found, &self.buckets[col + 1][row + 1]);
        found
    }

    /// The pairs of particles to test for interaction: every two distinct
    /// particles filed in touching cells, each pair once and no particle
    /// with itself.
    pub fn interaction_pairs(&self) -> (pairs: Vec<(usize, usize)>)
        requires
            self.wf(),
        ensures
            self@.lists_touching_pairs(pairs@),
    {
        let count = self.homes.len();
        let mut pairs: Vec<(usize, usize)> = Vec::new();
        let mut a: usize = 0;
        while a < count
            invariant
                self.wf(),
                a <= count,
                count == self@.count(),
                pairs@.no_duplicates(),
                forall|k: int|
                    0 <= k < pairs.len() ==> {
                        let pair = #[trigger] pairs[k];
                        &&& pair.0 < a
                        &&& pair.0 < pair.1 < count
                        &&& adjacent(self@.homes[pair.0 as int], self@.homes[pair.1 as int])
                    },
                forall|x: usize, y: usize|
                    x < a && x < y < count && adjacent(self@.homes[x as int], self@.homes[y as int])
                        ==> #[trigger] pairs@.contains((x, y)),
            decreases count - a,
        {
            let home = self.home(a);
            let near = self.neighbors_of_cell(home.col, home.row);
            proof {
                self@.lemma_neighborhood(home.col as int, home.row as int);
            }
            let mut t: usize = 0;
            while t < near.len()
                invariant
                    self.wf(),
                    a < count,
                    count == self@.count(),
                    home == self@.homes[a as int],
                    t <= near.len(),
                    near@.no_duplicates(),
                    forall|p: usize|
                        near@.contains(p) <==> {
                            &&& p < count
                            &&& home.col - 1 <= self@.homes[p as int].col <= home.col + 1
                            &&& home.row - 1 <= self@.homes[p as int].row <= home.row + 1
                        },
                    pairs@.no_duplicates(),
                    forall|k: int|
                        0 <= k < pairs.len() ==> {
                            let pair = #[trigger] pairs[k];
                            &&& pair.0 <= a
                            &&& pair.0 < pair.1 < count
                            &&& adjacent(self@.homes[pair.0 as int], self@.homes[pair.1 as int])
                            &&& pair.0 == a ==> exists|s: int|
                                0 <= s < t && #[trigger] near[s] == pair.1
                        },
                    forall|x: usize, y: usize|
                        x < a && x < y < count && adjacent(
                            self@.homes[x as int],
                            self@.homes[y as int],
                        ) ==> #[trigger] pairs@.contains((x, y)),
                    forall|s: int|
                        0 <= s < t && a < (#[trigger] near[s]) ==> pairs@.contains((a, near[s])),
                decreases near.len() - t,
            {
                let b = near[t];
                assert(near@.contains(b));
                if a < b {
                    proof {
                        lemma_push_contains(pairs@, (a, b));
                        assert forall|k: int| 0 <= k < pairs.len() implies #[trigger] pairs[k] != (
                            a,
                            b,
                        ) by {
                            if pairs[k].0 == a {
                                let s = choose|s: int| 0 <= s < t && #[trigger] near[s] == pairs[k].1;
                                assert(near[s] != near[t as int]);
                            }
                        }
                    }
                    pairs.push((a, b));
                }
                t += 1;
            }
            proof {
                assert forall|y: usize|
                    a < y < count && adjacent(
                        self@.homes[a as int],
                        self@.homes[y as int],
                    ) implies #[trigger] pairs@.contains((a, y)) by {
                    assert(near@.contains(y));
                }
            }
            a += 1;
        }
        pairs
    }
}

/// Copies the items of `source` to the end of `target`.
fn append_all(target: &mut Vec<usize>, source: &Vec<usize>)
    ensures
        final(target)@ == old(target)@ + source@,
{
    let mut k: usize = 0;
    while k < source.len()
        invariant
            k <= source.len(),
            target@ == old(target)@ + source@.subrange(0, k as int),
        decreases source.len() - k,
    {
        target.push(source[k]);
        k += 1;
    }
}

/// The bucket index of `pos` along an axis, as `axis_index` defines it.
pub fn axis_cell(pos: i64, cell_size: usize, dim: usize) -> (idx: usize)
    requires
        cell_size >= 1,
        dim >= 3,
    ensures
        idx == axis_index(pos as int, cell_size as int, dim as int),
        1 <= idx <= dim - 2,
{
    let last: usize = dim - 2;
    if pos < 0 {
        assert((pos as int) / (cell_size as int) < 0) by (nonlinear_arith)
            requires
                pos < 0,
                cell_size >= 1,
        ;
        1
    } else {
        let q: u64 = (pos as u64) / (cell_size as u64);
        if q >= last as u64 {
            last
        } else {
            (q as usize) + 1
        }
    }
}

} // verus!
