use vstd::prelude::*;
use crate::cell::Cell;
use crate::rules::{
    lemma_index_bound, lemma_resolve_in_bounds, lemma_resolve_shift, lemma_row_bound,
    next_cell_state, resolve, Grid,
};

verus! {

/// Width of the default universe.
pub const DEFAULT_WIDTH: u32 = 64;

/// Height of the default universe.
pub const DEFAULT_HEIGHT: u32 = 64;

/// The linear indices that are alive in the default universe.
pub open spec fn in_default_seed(i: int) -> bool {
    i == 1 || i == 2 || i == 66 || i == 130 || i == 194 || i == 257 || i == 258
        || i == 2080 || i == 2081 || i == 2144 || i == 2145
}

/// A `len`-cell buffer whose cells are alive exactly at the indices listed in `seed`.
pub open spec fn seeded(seed: Seq<usize>, len: nat) -> Seq<Cell> {
    Seq::new(len, |i: int| if seed.contains(i as usize) { Cell::Alive } else { Cell::Dead })
}

/// A toroidal grid of cells and its current generation.
pub struct Universe {
    width: u32,
    height: u32,
    cells: Vec<Cell>,
}

impl View for Universe {
    type V = Grid;

    closed spec fn view(&self) -> Grid {
        Grid { width: self.width as nat, height: self.height as nat, cells: self.cells@ }
    }
}

impl Universe {
    /// The universe's dimensions are positive and its buffer holds one cell per position.
    pub open spec fn wf(&self) -> bool {
        self@.wf()
    }

    /// A `width` × `height` universe whose live cells are those at the linear
    /// indices listed in `seed`; indices past the end of the grid are ignored.
    pub fn with_seed(width: u32, height: u32, seed: &[usize]) -> (r: Universe)
        requires
            width > 0,
            height > 0,
            width * height <= usize::MAX,
        ensures
            r.wf(),
            r@.width == width,
            r@.height == height,
            r@.cells == seeded(seed@, (width * height) as nat),
    {
        let n: usize = (width as usize) * (height as usize);
        let mut cells: Vec<Cell> = Vec::new();
        let mut i: usize = 0;
        while i < n
            invariant
                i <= n,
                cells@.len() == i,
                forall|j: int| 0 <= j < i ==> cells@[j] == Cell::Dead,
            decreases n - i,
        {
            cells.push(Cell::Dead);
            i = i + 1;
        }
        let mut s: usize = 0;
        while s < seed.len()
            invariant
                s <= seed@.len(),
                cells@.len() == n,
                forall|j: int|
                    0 <= j < n ==> #[trigger] cells@[j] == if seed@.subrange(0, s as int).contains(
                        j as usize,
                    ) {
                        Cell::Alive
                    } else {
                        Cell::Dead
                    },
            decreases seed@.len() - s,
        {
            let idx = seed[s];
            if idx < n {
                cells.set(idx, Cell::Alive);
            }
            proof {
                assert forall|j: int| 0 <= j < n implies #[trigger] cells@[j] == if seed@.subrange(
                    0,
                    s + 1,
                ).contains(j as usize) {
                    Cell::Alive
                } else {
                    Cell::Dead
                } by {
                    let before = seed@.subrange(0, s as int);
                    let after = seed@.subrange(0, s + 1);
                    assert(after == before.push(idx));
                    if before.contains(j as usize) {
                        let k = choose|k: int| 0 <= k < before.len() && before[k] == j as usize;
                        assert(after[k] == j as usize);
                    }
                    if after.contains(j as usize) && !before.contains(j as usize) {
                        let k = choose|k: int| 0 <= k < after.len() && after[k] == j as usize;
                        if k < before.len() {
                            assert(before[k] == j as usize);
                        }
                    }
                    if j as usize == idx {
                        assert(after[s as int] == idx);
                    }
                }
            }
            s = s + 1;
        }
        assert(seed@.subrange(0, seed@.len() as int) == seed@);
        let r = Universe { width, height, cells };
        assert(r@.cells =~= seeded(seed@, (width * height) as nat));
        r
    }

    pub fn width(&self) -> (r: u32)
        ensures
            r == self@.width,
    {
        self.width
    }

    pub fn height(&self) -> (r: u32)
        ensures
            r == self@.height,
    {
        self.height
    }

    /// A read-only view of the current generation, row-major.
    pub fn cells(&self) -> (r: &[Cell])
        ensures
            r@ == self@.cells,
    {
        self.cells.as_slice()
    }

    /// Linear index of the cell at `(x, y)`, each coordinate taken modulo its
    /// dimension.
    pub fn get_index(&self, x: u64, y: u64) -> (r: usize)
        requires
            self.wf(),
        ensures
            r == resolve(self@.width as int, self@.height as int, x as int, y as int),
            r < self@.cells.len(),
    {
        let w = self.width as u64;
        let h = self.height as u64;
        let xm = x % w;
        let ym = y % h;
        let n: usize = self.cells.len();
        proof {
            lemma_index_bound(xm as int, ym as int, w as int, h as int);
        }
        (xm + ym * w) as usize
    }

    /// The cell at `(x, y)`, with both coordinates wrapping around.
    pub fn get(&self, x: u64, y: u64) -> (r: Cell)
        requires
            self.wf(),
        ensures
            r == self@.at(x as int, y as int),
    {
        self.cells[self.get_index(x, y)]
    }

    /// Number of live cells in the first ring around `(x, y)`.
    pub fn lvl1_neighbour_count(&self, x: u32, y: u32) -> (r: u8)
        requires
            self.wf(),
        ensures
            r == self@.first_ring(x as int, y as int),
    {
        let w = self.width as u64;
        let h = self.height as u64;
        let x = x as u64;
        let y = y as u64;
        let xx = x + w;
        let yy = y + h;
        proof {
            lemma_resolve_shift(w as int, h as int, x - 1, y as int);
            lemma_resolve_shift(w as int, h as int, x as int, y - 1);
            lemma_resolve_shift(w as int, h as int, x + 1, y - 1);
        }
        self.get(x, y + 1).as_u8() + self.get(x + 1, y + 1).as_u8()
            + self.get(xx - 1, y).as_u8() + self.get(x + 1, y).as_u8()
            + self.get(x, yy - 1).as_u8() + self.get(x + 1, yy - 1).as_u8()
    }

    /// Number of live cells in the second ring around `(x, y)`. The row two
    /// above is reached through a bias of twice the height, so that a grid one
    /// row high needs no subtraction below zero.
    pub fn lvl2_neighbour_count(&self, x: u32, y: u32) -> (r: u8)
        requires
            self.wf(),
        ensures
            r == self@.second_ring(x as int, y as int),
    {
        let w = self.width as u64;
        let h = self.height as u64;
        let x = x as u64;
        let y = y as u64;
        let xx = x + w;
        let yy = y + 2 * h;
        proof {
            let (wi, hi) = (w as int, h as int);
            lemma_resolve_shift(wi, hi, x - 1, y + 1);
            lemma_resolve_shift(wi, hi, x - 1, y - 1);
            lemma_resolve_shift(wi, hi, x - 1 + wi, y - 1);
            lemma_resolve_shift(wi, hi, x - 1, y - 1 + hi);
            lemma_resolve_shift(wi, hi, x - 1 + wi, y - 1 + hi);
            lemma_resolve_shift(wi, hi, x + 2, y - 1);
            lemma_resolve_shift(wi, hi, x + 2, y - 1 + hi);
            lemma_resolve_shift(wi, hi, x as int, y - 2);
            lemma_resolve_shift(wi, hi, x as int, y - 2 + hi);
        }
        self.get(x, y + 2).as_u8() + self.get(xx - 1, y + 1).as_u8()
            + self.get(x + 2, y + 1).as_u8() + self.get(xx - 1, yy - 1).as_u8()
            + self.get(x + 2, yy - 1).as_u8() + self.get(x, yy - 2).as_u8()
    }

    /// Advances the universe by one generation. Every new cell is computed
    /// from the previous generation alone, into a separate buffer that then
    /// replaces the old one.
    pub fn tick(&mut self)
        requires
            old(self).wf(),
        ensures
            final(self).wf(),
            final(self)@ == old(self)@.step(),
    {
        let n: usize = self.cells.len();
        let w: usize = self.width as usize;
        let mut next: Vec<Cell> = Vec::new();
        let mut i: usize = 0;
        while i < n
            invariant
                self.wf(),
                n == self@.cells.len(),
                w == self@.width,
                i <= n,
                next@.len() == i,
                forall|j: int| 0 <= j < i ==> #[trigger] next@[j] == self@.next_at(j),
            decreases n - i,
        {
            proof {
                lemma_row_bound(i as int, w as int, self@.height as int);
            }
            let x: u32 = (i % w) as u32;
            let y: u32 = (i / w) as u32;
            let first = self.lvl1_neighbour_count(x, y);
            let second = self.lvl2_neighbour_count(x, y);
            next.push(next_cell_state(self.get(x as u64, y as u64), first, second));
            i = i + 1;
        }
        self.cells = next;
        assert(self@.cells =~= old(self)@.step().cells);
    }

    /// The default universe: 64 × 64, with two small patterns near the origin,
    /// the second 32 rows below the first.
    pub fn new() -> (r: Universe)
        ensures
            r.wf(),
            r@.width == DEFAULT_WIDTH,
            r@.height == DEFAULT_HEIGHT,
            forall|i: int|
                0 <= i < r@.cells.len() ==> #[trigger] r@.cells[i] == if in_default_seed(i) {
                    Cell::Alive
                } else {
                    Cell::Dead
                },
    {
        let seed: Vec<usize> = vec![1, 2, 66, 130, 194, 257, 258, 2080, 2081, 2144, 2145];
        let r = Universe::with_seed(DEFAULT_WIDTH, DEFAULT_HEIGHT, seed.as_slice());
        proof {
            assert forall|i: int| 0 <= i < r@.cells.len() implies #[trigger] r@.cells[i]
                == if in_default_seed(i) {
                Cell::Alive
            } else {
                Cell::Dead
            } by {
                if in_default_seed(i) {
                    let k: int = if i == 1 { 0 } else if i == 2 { 1 } else if i == 66 { 2 }
                        else if i == 130 { 3 } else if i == 194 { 4 } else if i == 257 { 5 }
                        else if i == 258 { 6 } else if i == 2080 { 7 } else if i == 2081 { 8 }
                        else if i == 2144 { 9 } else { 10 };
                    assert(seed@[k] == i as usize);
                }
            }
        }
        r
    }
}

} // verus!
