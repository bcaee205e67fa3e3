use vstd::prelude::*;
use crate::cell::Cell;
use crate::rules::{lemma_resolve_in_bounds, lemma_resolve_shift, next_state, resolve, Grid};
use crate::universe::Universe;

verus! {

/// Writes the next state of each cell listed in `order` into `buf`, one after
/// the other, reading only from the generation `g`.
pub open spec fn fill_in_order(g: Grid, buf: Seq<Cell>, order: Seq<int>) -> Seq<Cell>
    decreases order.len(),
{
    if order.len() == 0 {
        buf
    } else {
        fill_in_order(g, buf.update(order[0], g.next_at(order[0])), order.drop_first())
    }
}

/// Moving a coordinate by a whole width or a whole height addresses the same cell.
pub proof fn law_wraparound(width: int, height: int, x: int, y: int)
    requires
        width > 0,
        height > 0,
        0 <= x < width,
        0 <= y < height,
    ensures
        resolve(width, height, x + width, y) == resolve(width, height, x, y),
        resolve(width, height, x, y + height) == resolve(width, height, x, y),
{
    lemma_resolve_shift(width, height, x, y);
}

/// A neighbour one step left of (or above) the edge, written with a bias of a
/// full dimension, is the last column (or row), and is inside the grid.
pub proof fn law_no_underflow(width: int, height: int, x: int, y: int)
    requires
        width > 0,
        height > 0,
        0 <= x < width,
        0 <= y < height,
    ensures
        x == 0 ==> resolve(width, height, x - 1 + width, y) == resolve(width, height, width - 1, y),
        y == 0 ==> resolve(width, height, x, y - 1 + height) == resolve(width, height, x, height - 1),
        0 <= resolve(width, height, x - 1 + width, y) < width * height,
        0 <= resolve(width, height, x, y - 1 + height) < width * height,
{
    lemma_resolve_in_bounds(width, height, x - 1 + width, y);
    lemma_resolve_in_bounds(width, height, x, y - 1 + height);
}

/// Two universes that start out equal are equal after any number of ticks.
pub proof fn law_determinism(a: Universe, b: Universe, n: nat)
    requires
        a@ == b@,
    ensures
        a@.after(n) == b@.after(n),
{
}

/// Filling in the next generation cell by cell gives the same buffer whatever
/// order the cells are visited in, as long as every cell is visited.
pub proof fn law_order_independence(g: Grid, buf: Seq<Cell>, order: Seq<int>)
    requires
        g.wf(),
        buf.len() == g.cells.len(),
        forall|j: int| 0 <= j < order.len() ==> 0 <= #[trigger] order[j] < g.cells.len(),
        forall|i: int| 0 <= i < g.cells.len() ==> #[trigger] order.contains(i),
    ensures
        fill_in_order(g, buf, order) == g.step().cells,
{
    lemma_fill_in_order(g, buf, order);
    assert(fill_in_order(g, buf, order) =~= g.step().cells);
}

/// Each cell that `order` lists gets its next state; every other keeps its value.
proof fn lemma_fill_in_order(g: Grid, buf: Seq<Cell>, order: Seq<int>)
    requires
        forall|j: int| 0 <= j < order.len() ==> 0 <= #[trigger] order[j] < buf.len(),
    ensures
        fill_in_order(g, buf, order).len() == buf.len(),
        forall|i: int|
            0 <= i < buf.len() ==> #[trigger] fill_in_order(g, buf, order)[i] == if order.contains(
                i,
            ) {
                g.next_at(i)
            } else {
                buf[i]
            },
    decreases order.len(),
{
    if order.len() > 0 {
        let head = order[0];
        let rest = order.drop_first();
        let buf2 = buf.update(head, g.next_at(head));
        assert forall|j: int| 0 <= j < rest.len() implies 0 <= #[trigger] rest[j] < buf2.len() by {
            assert(rest[j] == order[j + 1]);
        }
        lemma_fill_in_order(g, buf2, rest);
        assert forall|i: int| 0 <= i < buf.len() implies #[trigger] fill_in_order(g, buf, order)[i]
            == if order.contains(i) {
            g.next_at(i)
        } else {
            buf[i]
        } by {
            if rest.contains(i) {
                let k = choose|k: int| 0 <= k < rest.len() && rest[k] == i;
                assert(order[k + 1] == i);
            } else if order.contains(i) {
                let k = choose|k: int| 0 <= k < order.len() && order[k] == i;
                if k > 0 {
                    assert(rest[k - 1] == i);
                }
            }
            if i == head {
                assert(order[0] == i);
            }
        }
    }
}

/// Every cell of a grid with no live cell stays dead for one generation.
proof fn lemma_dead_step(g: Grid)
    requires
        g.wf(),
        forall|i: int| 0 <= i < g.cells.len() ==> #[trigger] g.cells[i] == Cell::Dead,
    ensures
        g.step().wf(),
        forall|i: int| 0 <= i < g.step().cells.len() ==> #[trigger] g.step().cells[i] == Cell::Dead,
{
    let (w, h) = (g.width as int, g.height as int);
    assert forall|x: int, y: int| #[trigger] g.at(x, y) == Cell::Dead by {
        lemma_resolve_in_bounds(w, h, x, y);
    }
    assert forall|i: int| 0 <= i < g.step().cells.len() implies #[trigger] g.step().cells[i]
        == Cell::Dead by {
        let (x, y) = (i % w, i / w);
        assert(g.first_ring(x, y) == 0);
        assert(g.second_ring(x, y) == 0);
        assert(next_state(Cell::Dead, 0) == Cell::Dead);
    }
}

/// A grid with no live cell has none after any number of generations.
pub proof fn law_all_dead_stable(g: Grid, n: nat)
    requires
        g.wf(),
        forall|i: int| 0 <= i < g.cells.len() ==> #[trigger] g.cells[i] == Cell::Dead,
    ensures
        g.after(n).wf(),
        forall|i: int| 0 <= i < g.after(n).cells.len() ==> #[trigger] g.after(n).cells[i] == Cell::Dead,
    decreases n,
{
    if n > 0 {
        law_all_dead_stable(g, (n - 1) as nat);
        lemma_dead_step(g.after((n - 1) as nat));
    }
}

} // verus!
