//! The Game of Life engine: cell state, toroidal neighbor counting, and the
//! generation transition rule.

use vstd::prelude::*;
use vstd::arithmetic::div_mod::{
    lemma_fundamental_div_mod, lemma_mod_bound, lemma_mod_multiples_vanish, lemma_small_mod,
};

verus! {

/// The state of one grid cell.
#[derive(Debug, Clone, Copy, PartialEq, Eq, Structural)]
pub enum Cell {
    Alive,
    Dead,
}

/// Numeric contribution of a cell to a neighbor count: `Alive` counts 1,
/// `Dead` counts 0.
pub open spec fn spec_cell_value(cell: Cell) -> nat {
    match cell {
        Cell::Alive => 1,
        Cell::Dead => 0,
    }
}

impl Cell {
    /// The one named conversion from cell state to its numeric
    /// neighbor-count contribution.
    pub fn value(self) -> (v: u8)
        ensures
            v == spec_cell_value(self),
    {
        match self {
            Cell::Alive => 1,
            Cell::Dead => 0,
        }
    }
}

/// A fixed-size toroidal grid of cells, stored as one flat row-major
/// sequence: the cell at `(row, column)` lives at offset
/// `row * width + column`.
#[derive(Debug)]
pub struct Universe {
    pub width: usize,
    pub height: usize,
    pub cells: Vec<Cell>,
}

impl Universe {
    /// The grid invariant: positive dimensions and a backing sequence of
    /// exactly `width * height` cells.
    pub open spec fn well_formed(self) -> bool {
        &&& 1 <= self.width
        &&& 1 <= self.height
        &&& self.cells@.len() == self.width * self.height
    }

    /// Creates a `width` x `height` universe with every cell `Dead`.
    pub fn new(width: usize, height: usize) -> (u: Universe)
        requires
            1 <= width,
            1 <= height,
            width * height <= usize::MAX,
        ensures
            u.well_formed(),
            u.width == width,
            u.height == height,
            u.cells@.len() == width * height,
            forall|i: int| 0 <= i < u.cells@.len() ==> u.cells@[i] == Cell::Dead,
    {
        let total = width * height;
        let mut cells: Vec<Cell> = Vec::new();
        let mut i: usize = 0;
        while i < total
            invariant
                i <= total,
                cells@.len() == i,
                forall|j: int| 0 <= j < cells@.len() ==> cells@[j] == Cell::Dead,
            decreases total - i,
        {
            cells.push(Cell::Dead);
            i = i + 1;
        }
        Universe { width, height, cells }
    }

    /// Flat row-major offset of a logical coordinate.
    pub open spec fn spec_index_of(self, row: int, column: int) -> int {
        row * self.width + column
    }

    /// Checked indexing: the flat offset of `(row, column)`, or `None` when
    /// that offset falls outside the backing storage.
    pub fn get_index(&self, row: usize, column: usize) -> (index: Option<usize>)
        requires
            self.well_formed(),
        ensures
            self.spec_index_of(row as int, column as int) < self.width * self.height
                ==> index == Some((row * self.width + column) as usize),
            self.spec_index_of(row as int, column as int) >= self.width * self.height
                ==> index is None,
    {
        let limit = self.cells.len();
        proof {
            assert(self.width * self.height == self.height * self.width) by (nonlinear_arith);
        }
        if row >= self.height {
            proof {
                assert(row * self.width >= self.height * self.width) by (nonlinear_arith)
                    requires
                        row >= self.height,
                        self.width >= 0;
            }
            None
        } else {
            proof {
                assert(row * self.width + self.width <= self.height * self.width)
                    by (nonlinear_arith)
                    requires
                        row < self.height,
                        self.width >= 0;
            }
            let base = row * self.width;
            if column < limit - base {
                Some(base + column)
            } else {
                None
            }
        }
    }

    /// Reads the cell at `(row, column)`, or `None` when the coordinate maps
    /// outside the backing storage.
    pub fn get_cell(&self, row: usize, column: usize) -> (cell: Option<Cell>)
        requires
            self.well_formed(),
        ensures
            self.spec_index_of(row as int, column as int) < self.width * self.height
                ==> cell == Some(self.cells@[self.spec_index_of(row as int, column as int)]),
            self.spec_index_of(row as int, column as int) >= self.width * self.height
                ==> cell is None,
    {
        proof {
            assert(row * self.width >= 0) by (nonlinear_arith);
            assert(self.cells.len() == self.cells@.len());
        }
        match self.get_index(row, column) {
            Some(index) => Some(self.cells[index]),
            None => None,
        }
    }

    /// Overwrites the cell at `(row, column)`, bypassing the transition rule
    /// (used to seed patterns or edit interactively). Returns whether the
    /// coordinate was in range and the write happened; an out-of-range
    /// coordinate leaves the universe unchanged.
    pub fn set_cell(&mut self, row: usize, column: usize, cell: Cell) -> (written: bool)
        requires
            old(self).well_formed(),
        ensures
            final(self).well_formed(),
            final(self).width == old(self).width,
            final(self).height == old(self).height,
            old(self).spec_index_of(row as int, column as int)
                < old(self).width * old(self).height ==> {
                &&& written
                &&& final(self).cells@ == old(self).cells@.update(
                    old(self).spec_index_of(row as int, column as int),
                    cell,
                )
            },
            old(self).spec_index_of(row as int, column as int)
                >= old(self).width * old(self).height ==> {
                &&& !written
                &&& *final(self) == *old(self)
            },
    {
        proof {
            assert(row * self.width >= 0) by (nonlinear_arith);
            assert(self.cells.len() == self.cells@.len());
        }
        match self.get_index(row, column) {
            Some(index) => {
                self.cells.set(index, cell);
                true
            },
            None => false,
        }
    }

    /// The cell at toroidal coordinates: row and column are reduced modulo
    /// the grid dimensions before the row-major lookup.
    pub open spec fn wrapped_cell(self, row: int, column: int) -> Cell {
        self.cells@[(row % (self.height as int)) * (self.width as int) + (column % (
        self.width as int))]
    }

    /// What one delta pair adds to a neighbor count: the numeric value of
    /// the cell at `((row + delta_row) mod height, (column + delta_col) mod
    /// width)` — except that a pair whose two delta values are both zero is
    /// the cell itself, not a neighbor, and adds nothing. On a one-row grid
    /// the delta `height - 1` is itself zero (and `width - 1` on a
    /// one-column grid), so such a pair is skipped by its value there too.
    pub open spec fn spec_delta_contribution(
        self,
        row: int,
        column: int,
        delta_row: int,
        delta_col: int,
    ) -> nat {
        if delta_row == 0 && delta_col == 0 {
            0
        } else {
            spec_cell_value(self.wrapped_cell(row + delta_row, column + delta_col))
        }
    }

    /// Number of alive cells among the toroidal neighbors of
    /// `(row, column)`: the contributions of all combinations of row delta
    /// in `{height-1, 0, 1}` and column delta in `{width-1, 0, 1}`, where
    /// any combination whose delta values are both zero — the self-delta —
    /// adds nothing.
    pub open spec fn spec_alive_neighbor_count(self, row: int, column: int) -> nat {
        let up = self.height - 1;
        let left = self.width - 1;
        self.spec_delta_contribution(row, column, up, left) + self.spec_delta_contribution(
            row,
            column,
            up,
            0,
        ) + self.spec_delta_contribution(row, column, up, 1) + self.spec_delta_contribution(
            row,
            column,
            0,
            left,
        ) + self.spec_delta_contribution(row, column, 0, 1) + self.spec_delta_contribution(
            row,
            column,
            1,
            left,
        ) + self.spec_delta_contribution(row, column, 1, 0) + self.spec_delta_contribution(
            row,
            column,
            1,
            1,
        )
    }

    /// What the neighbor reached from `(row, column)` by the given deltas
    /// adds to the count: its numeric value, or nothing when both delta
    /// values are zero.
    fn neighbor_value(&self, row: usize, delta_row: usize, column: usize, delta_col: usize) -> (v:
        u8)
        requires
            self.well_formed(),
            row < self.height,
            column < self.width,
            delta_row <= self.height,
            delta_col <= self.width,
        ensures
            v == self.spec_delta_contribution(
                row as int,
                column as int,
                delta_row as int,
                delta_col as int,
            ),
    {
        if delta_row == 0 && delta_col == 0 {
            return 0;
        }
        let neighbor_row = wrap_coord(row, delta_row, self.height);
        let neighbor_col = wrap_coord(column, delta_col, self.width);
        proof {
            assert(neighbor_row * self.width + neighbor_col < self.width * self.height)
                by (nonlinear_arith)
                requires
                    neighbor_row < self.height,
                    neighbor_col < self.width,
                    self.width >= 1;
            assert(neighbor_row * self.width >= 0) by (nonlinear_arith);
            assert(self.cells.len() == self.cells@.len());
        }
        let index = self.get_index(neighbor_row, neighbor_col).unwrap();
        self.cells[index].value()
    }

    /// Counts the alive cells among the toroidal neighbors of
    /// `(row, column)`. Total for every coordinate: row and column are
    /// themselves reduced modulo the grid dimensions first, which leaves
    /// every neighbor's wrapped position unchanged.
    pub fn alive_neighbor_count(&self, row: usize, column: usize) -> (count: u8)
        requires
            self.well_formed(),
        ensures
            count == self.spec_alive_neighbor_count(row as int, column as int),
            count <= 8,
    {
        let row_w = row % self.height;
        let col_w = column % self.width;
        proof {
            lemma_mod_bound(row as int, self.height as int);
            lemma_mod_bound(column as int, self.width as int);
            lemma_wrap_shift(row as int, self.height - 1, self.height as int);
            lemma_wrap_shift(row as int, 0, self.height as int);
            lemma_wrap_shift(row as int, 1, self.height as int);
            lemma_wrap_shift(column as int, self.width - 1, self.width as int);
            lemma_wrap_shift(column as int, 0, self.width as int);
            lemma_wrap_shift(column as int, 1, self.width as int);
        }
        let up = self.height - 1;
        let left = self.width - 1;
        let count = self.neighbor_value(row_w, up, col_w, left) + self.neighbor_value(
            row_w,
            up,
            col_w,
            0,
        ) + self.neighbor_value(row_w, up, col_w, 1) + self.neighbor_value(row_w, 0, col_w, left)
            + self.neighbor_value(row_w, 0, col_w, 1) + self.neighbor_value(row_w, 1, col_w, left)
            + self.neighbor_value(row_w, 1, col_w, 0) + self.neighbor_value(row_w, 1, col_w, 1);
        count
    }

    /// Advances the grid by exactly one generation: every cell's next state
    /// is the rule table applied to its current state and its alive-neighbor
    /// count, both taken from the grid as it stood before the call. The new
    /// generation is computed into a separate buffer and replaces the grid
    /// only after every cell has been evaluated, so no neighbor count ever
    /// observes a partially updated grid.
    pub fn next_generation(&mut self)
        requires
            old(self).well_formed(),
        ensures
            is_next_generation_of(*final(self), *old(self)),
    {
        let mut next_cells: Vec<Cell> = Vec::new();
        let mut row: usize = 0;
        while row < self.height
            invariant
                *self == *old(self),
                self.well_formed(),
                row <= self.height,
                next_cells@.len() == row * self.width,
                forall|r: int, c: int|
                    0 <= r < self.height && 0 <= c < self.width && self.spec_index_of(r, c)
                        < next_cells@.len() ==> next_cells@[self.spec_index_of(r, c)]
                        == spec_next_cell(
                        self.cells@[self.spec_index_of(r, c)],
                        #[trigger] self.spec_alive_neighbor_count(r, c),
                    ),
            decreases self.height - row,
        {
            let mut column: usize = 0;
            while column < self.width
                invariant
                    *self == *old(self),
                    self.well_formed(),
                    row < self.height,
                    column <= self.width,
                    next_cells@.len() == row * self.width + column,
                    forall|r: int, c: int|
                        0 <= r < self.height && 0 <= c < self.width && self.spec_index_of(r, c)
                            < next_cells@.len() ==> next_cells@[self.spec_index_of(r, c)]
                            == spec_next_cell(
                            self.cells@[self.spec_index_of(r, c)],
                            #[trigger] self.spec_alive_neighbor_count(r, c),
                        ),
                decreases self.width - column,
            {
                proof {
                    assert(row * self.width + column < self.width * self.height)
                        by (nonlinear_arith)
                        requires
                            row < self.height,
                            column < self.width,
                            self.width >= 1;
                    assert(row * self.width >= 0) by (nonlinear_arith);
                    assert(self.cells.len() == self.cells@.len());
                }
                let index = self.get_index(row, column).unwrap();
                let cell = self.cells[index];
                let alive_neighbors = self.alive_neighbor_count(row, column);
                let next_cell = match cell {
                    Cell::Alive => if alive_neighbors < 2 {
                        Cell::Dead
                    } else if alive_neighbors <= 3 {
                        Cell::Alive
                    } else {
                        Cell::Dead
                    },
                    Cell::Dead => if alive_neighbors == 3 {
                        Cell::Alive
                    } else {
                        Cell::Dead
                    },
                };
                let ghost prev = next_cells@;
                next_cells.push(next_cell);
                proof {
                    assert forall|r: int, c: int|
                        0 <= r < self.height && 0 <= c < self.width && self.spec_index_of(r, c)
                            < next_cells@.len() implies next_cells@[self.spec_index_of(r, c)]
                        == spec_next_cell(
                        self.cells@[self.spec_index_of(r, c)],
                        #[trigger] self.spec_alive_neighbor_count(r, c),
                    ) by {
                        if self.spec_index_of(r, c) == prev.len() {
                            lemma_index_of_injective(
                                self.width as int,
                                r,
                                c,
                                row as int,
                                column as int,
                            );
                        }
                    }
                }
                column = column + 1;
            }
            proof {
                assert((row + 1) * self.width == row * self.width + self.width)
                    by (nonlinear_arith);
            }
            row = row + 1;
        }
        proof {
            assert(self.height * self.width == self.width * self.height) by (nonlinear_arith);
            assert forall|r: int, c: int|
                0 <= r < self.height && 0 <= c < self.width implies self.spec_index_of(r, c)
                < next_cells@.len() by {
                assert(r * self.width + c < self.height * self.width) by (nonlinear_arith)
                    requires
                        0 <= r < self.height,
                        0 <= c < self.width,
                        self.width >= 1;
            }
        }
        self.cells = next_cells;
    }
}

/// The Game of Life rule table: the next state of a cell, from its current
/// state and its alive-neighbor count. An alive cell dies of
/// underpopulation below 2 or of overpopulation above 3 and survives on 2
/// or 3; a dead cell is born on exactly 3; every other combination is
/// unchanged.
pub open spec fn spec_next_cell(cell: Cell, alive_neighbors: nat) -> Cell {
    match cell {
        Cell::Alive => if alive_neighbors < 2 {
            Cell::Dead
        } else if alive_neighbors <= 3 {
            Cell::Alive
        } else {
            Cell::Dead
        },
        Cell::Dead => if alive_neighbors == 3 {
            Cell::Alive
        } else {
            Cell::Dead
        },
    }
}

/// `v` is the grid `u` advanced by exactly one generation: the dimensions
/// are unchanged and every cell of `v` is the rule table applied to the
/// corresponding cell of `u` and its alive-neighbor count in `u` — the next
/// grid is a function of the pre-step grid alone.
pub open spec fn is_next_generation_of(v: Universe, u: Universe) -> bool {
    &&& v.well_formed()
    &&& v.width == u.width
    &&& v.height == u.height
    &&& forall|row: int, column: int|
        0 <= row < u.height && 0 <= column < u.width ==> v.cells@[u.spec_index_of(row, column)]
            == spec_next_cell(
            u.cells@[u.spec_index_of(row, column)],
            #[trigger] u.spec_alive_neighbor_count(row, column),
        )
}

/// Indexing invariant: for every in-range coordinate of a well-formed
/// universe, the row-major offset lies in `[0, width * height)`, and so
/// within the backing cell sequence.
pub proof fn lemma_index_of_in_range(u: Universe, row: int, column: int)
    requires
        u.well_formed(),
        0 <= row < u.height,
        0 <= column < u.width,
    ensures
        0 <= u.spec_index_of(row, column) < u.width * u.height,
        u.spec_index_of(row, column) < u.cells@.len(),
{
    assert(0 <= row * u.width + column < u.width * u.height) by (nonlinear_arith)
        requires
            0 <= row < u.height,
            0 <= column < u.width,
            u.width >= 1;
}

/// Reads and writes agree on the offset of a coordinate: when a write of
/// `cell` at an in-range `(row, column)` has turned the cell sequence of `u`
/// into that of `v` (as `set_cell` ensures), a read at the same coordinate
/// (as `get_cell` ensures) finds exactly `cell`.
pub proof fn lemma_get_after_set(u: Universe, v: Universe, row: int, column: int, cell: Cell)
    requires
        u.well_formed(),
        0 <= row < u.height,
        0 <= column < u.width,
        v.width == u.width,
        v.height == u.height,
        v.cells@ == u.cells@.update(u.spec_index_of(row, column), cell),
    ensures
        v.well_formed(),
        v.spec_index_of(row, column) == u.spec_index_of(row, column),
        v.cells@[v.spec_index_of(row, column)] == cell,
{
    lemma_index_of_in_range(u, row, column);
}

/// Underpopulation: an alive cell with fewer than two alive neighbors is
/// dead after one generation.
pub proof fn lemma_underpopulation(u: Universe, v: Universe, row: int, column: int)
    requires
        u.well_formed(),
        is_next_generation_of(v, u),
        0 <= row < u.height,
        0 <= column < u.width,
        u.cells@[u.spec_index_of(row, column)] == Cell::Alive,
        u.spec_alive_neighbor_count(row, column) < 2,
    ensures
        v.cells@[u.spec_index_of(row, column)] == Cell::Dead,
{
}

/// Survival: an alive cell with exactly two or three alive neighbors is
/// still alive after one generation.
pub proof fn lemma_survival(u: Universe, v: Universe, row: int, column: int)
    requires
        u.well_formed(),
        is_next_generation_of(v, u),
        0 <= row < u.height,
        0 <= column < u.width,
        u.cells@[u.spec_index_of(row, column)] == Cell::Alive,
        u.spec_alive_neighbor_count(row, column) == 2 || u.spec_alive_neighbor_count(row, column)
            == 3,
    ensures
        v.cells@[u.spec_index_of(row, column)] == Cell::Alive,
{
}

/// Overpopulation: an alive cell with more than three alive neighbors is
/// dead after one generation.
pub proof fn lemma_overpopulation(u: Universe, v: Universe, row: int, column: int)
    requires
        u.well_formed(),
        is_next_generation_of(v, u),
        0 <= row < u.height,
        0 <= column < u.width,
        u.cells@[u.spec_index_of(row, column)] == Cell::Alive,
        u.spec_alive_neighbor_count(row, column) >= 4,
    ensures
        v.cells@[u.spec_index_of(row, column)] == Cell::Dead,
{
}

/// Reproduction: a dead cell with exactly three alive neighbors is alive
/// after one generation.
pub proof fn lemma_reproduction(u: Universe, v: Universe, row: int, column: int)
    requires
        u.well_formed(),
        is_next_generation_of(v, u),
        0 <= row < u.height,
        0 <= column < u.width,
        u.cells@[u.spec_index_of(row, column)] == Cell::Dead,
        u.spec_alive_neighbor_count(row, column) == 3,
    ensures
        v.cells@[u.spec_index_of(row, column)] == Cell::Alive,
{
}

/// Row-major offsets are injective on in-range coordinates: two coordinate
/// pairs with the same flat offset are the same pair.
proof fn lemma_index_of_injective(width: int, r1: int, c1: int, r2: int, c2: int)
    by (nonlinear_arith)
    requires
        0 <= r1,
        0 <= r2,
        0 <= c1 < width,
        0 <= c2 < width,
        r1 * width + c1 == r2 * width + c2,
    ensures
        r1 == r2,
        c1 == c2,
{
}

/// Reducing a coordinate modulo `m` before adding a delta leaves the
/// wrapped result unchanged: `((x mod m) + d) mod m == (x + d) mod m`.
proof fn lemma_wrap_shift(x: int, d: int, m: int)
    requires
        0 < m,
    ensures
        ((x % m) + d) % m == (x + d) % m,
{
    lemma_fundamental_div_mod(x, m);
    lemma_mod_multiples_vanish(x / m, (x % m) + d, m);
}

/// Wraps `x + delta` modulo `m` without intermediate overflow, for a
/// coordinate `x` already below `m` and a delta no greater than `m`.
fn wrap_coord(x: usize, delta: usize, m: usize) -> (r: usize)
    requires
        0 < m,
        x < m,
        delta <= m,
    ensures
        r == (x + delta) % (m as int),
        r < m,
{
    let threshold = m - delta;
    if x >= threshold {
        let r = x - threshold;
        proof {
            lemma_mod_multiples_vanish(1, x + delta - m, m as int);
            lemma_small_mod((x + delta - m) as nat, m as nat);
        }
        r
    } else {
        proof {
            lemma_small_mod((x + delta) as nat, m as nat);
        }
        x + delta
    }
}

} // verus!
