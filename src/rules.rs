use vstd::prelude::*;
use vstd::arithmetic::div_mod::{lemma_fundamental_div_mod, lemma_mod_add_multiples_vanish, lemma_mod_bound};
use crate::cell::Cell;

verus! {

/// Linear, row-major index of the cell at `(x, y)` on a `width` × `height`
/// torus: both coordinates are taken modulo their dimension first.
pub open spec fn resolve(width: int, height: int, x: int, y: int) -> int {
    x % width + (y % height) * width
}

/// The rule that decides a cell's next state from its current state and its
/// weighted neighbour sum `k`: a live cell survives for `6 <= k <= 10`, a dead
/// cell is born for `7 <= k <= 9`.
pub open spec fn next_state(current: Cell, k: int) -> Cell {
    match current {
        Cell::Alive => if 6 <= k && k <= 10 { Cell::Alive } else { Cell::Dead },
        Cell::Dead => if 7 <= k && k <= 9 { Cell::Alive } else { Cell::Dead },
    }
}

/// The neighbour sum: the first ring weighs three times the second.
pub open spec fn weighted_sum(first_ring: int, second_ring: int) -> int {
    3 * first_ring + second_ring
}

/// One generation of the automaton, as mathematical values.
pub struct Grid {
    pub width: nat,
    pub height: nat,
    pub cells: Seq<Cell>,
}

impl Grid {
    /// Positive dimensions, and exactly one cell per grid position.
    pub open spec fn wf(self) -> bool {
        &&& self.width > 0
        &&& self.height > 0
        &&& self.cells.len() == self.width * self.height
    }

    /// The cell at `(x, y)`, with both coordinates wrapping around.
    pub open spec fn at(self, x: int, y: int) -> Cell {
        self.cells[resolve(self.width as int, self.height as int, x, y)]
    }

    pub open spec fn weight_at(self, x: int, y: int) -> int {
        self.at(x, y).weight() as int
    }

    /// Live cells among `(x, y+1), (x+1, y+1), (x-1, y), (x+1, y), (x, y-1), (x+1, y-1)`.
    pub open spec fn first_ring(self, x: int, y: int) -> int {
        self.weight_at(x, y + 1) + self.weight_at(x + 1, y + 1)
            + self.weight_at(x - 1, y) + self.weight_at(x + 1, y)
            + self.weight_at(x, y - 1) + self.weight_at(x + 1, y - 1)
    }

    /// Live cells among `(x, y+2), (x-1, y+1), (x+2, y+1), (x-1, y-1), (x+2, y-1), (x, y-2)`.
    pub open spec fn second_ring(self, x: int, y: int) -> int {
        self.weight_at(x, y + 2) + self.weight_at(x - 1, y + 1)
            + self.weight_at(x + 2, y + 1) + self.weight_at(x - 1, y - 1)
            + self.weight_at(x + 2, y - 1) + self.weight_at(x, y - 2)
    }

    /// The state that the cell at `(x, y)` takes in the next generation.
    pub open spec fn next_cell(self, x: int, y: int) -> Cell {
        next_state(self.at(x, y), weighted_sum(self.first_ring(x, y), self.second_ring(x, y)))
    }

    /// The next state of the cell stored at linear index `i`.
    pub open spec fn next_at(self, i: int) -> Cell {
        self.next_cell(i % (self.width as int), i / (self.width as int))
    }

    /// The next generation: every cell is computed from this one alone.
    pub open spec fn step(self) -> Grid {
        Grid {
            width: self.width,
            height: self.height,
            cells: Seq::new(self.cells.len(), |i: int| self.next_at(i)),
        }
    }

    /// The generation `n` steps after this one.
    pub open spec fn after(self, n: nat) -> Grid
        decreases n,
    {
        if n == 0 {
            self
        } else {
            self.after((n - 1) as nat).step()
        }
    }
}

/// A resolved index always addresses a cell of the grid.
pub proof fn lemma_resolve_in_bounds(width: int, height: int, x: int, y: int)
    requires
        width > 0,
        height > 0,
    ensures
        0 <= resolve(width, height, x, y) < width * height,
{
    lemma_mod_bound(x, width);
    lemma_mod_bound(y, height);
    lemma_index_bound(x % width, y % height, width, height);
}

/// Row-major indexing stays below `width * height`.
pub proof fn lemma_index_bound(x: int, y: int, width: int, height: int) by (nonlinear_arith)
    requires
        0 <= x < width,
        0 <= y < height,
    ensures
        0 <= x + y * width < width * height,
{
}

/// The row of a linear index below `width * height` is below `height`.
pub proof fn lemma_row_bound(i: int, width: int, height: int)
    requires
        0 <= i < width * height,
        width > 0,
    ensures
        0 <= i / width < height,
{
    lemma_fundamental_div_mod(i, width);
    lemma_mod_bound(i, width);
    assert(0 <= i / width < height) by (nonlinear_arith)
        requires
            i == width * (i / width) + i % width,
            0 <= i % width < width,
            0 <= i < width * height,
            width > 0,
    {
    }
}

/// Adding a full width or height to a coordinate addresses the same cell.
pub proof fn lemma_resolve_shift(width: int, height: int, x: int, y: int)
    requires
        width > 0,
        height > 0,
    ensures
        resolve(width, height, x + width, y) == resolve(width, height, x, y),
        resolve(width, height, x, y + height) == resolve(width, height, x, y),
{
    lemma_mod_add_multiples_vanish(x, width);
    lemma_mod_add_multiples_vanish(y, height);
    assert(x + width == width + x);
    assert(y + height == height + y);
}

/// Computes the next state of a cell from its state and its two ring counts.
pub fn next_cell_state(current: Cell, first_ring: u8, second_ring: u8) -> (r: Cell)
    ensures
        r == next_state(current, weighted_sum(first_ring as int, second_ring as int)),
{
    let k: u32 = 3 * (first_ring as u32) + second_ring as u32;
    match current {
        Cell::Alive => if 6 <= k && k <= 10 { Cell::Alive } else { Cell::Dead },
        Cell::Dead => if 7 <= k && k <= 9 { Cell::Alive } else { Cell::Dead },
    }
}

} // verus!
