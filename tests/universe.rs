use game_of_life::rules::next_cell_state;
use game_of_life::universe::{DEFAULT_HEIGHT, DEFAULT_WIDTH};
use game_of_life::{Cell, Universe};

const DEFAULT_ALIVE: [usize; 11] = [1, 2, 66, 130, 194, 257, 258, 2080, 2081, 2144, 2145];

fn alive_indices(u: &Universe) -> Vec<usize> {
    u.cells()
        .iter()
        .enumerate()
        .filter(|(_, c)| **c == Cell::Alive)
        .map(|(i, _)| i)
        .collect()
}

#[test]
fn default_dimensions() {
    let u = Universe::new();
    assert_eq!(u.width(), 64);
    assert_eq!(u.height(), 64);
    assert_eq!(DEFAULT_WIDTH, 64);
    assert_eq!(DEFAULT_HEIGHT, 64);
    assert_eq!(u.cells().len(), 64 * 64);
}

#[test]
fn default_seed_fidelity() {
    let u = Universe::new();
    assert_eq!(alive_indices(&u), DEFAULT_ALIVE.to_vec());
}

#[test]
fn with_seed_ignores_indices_past_the_end() {
    let u = Universe::with_seed(3, 2, &[0, 5, 6, 100, 5]);
    assert_eq!(u.width(), 3);
    assert_eq!(u.height(), 2);
    assert_eq!(
        u.cells(),
        &[Cell::Alive, Cell::Dead, Cell::Dead, Cell::Dead, Cell::Dead, Cell::Alive]
    );
}

#[test]
fn cell_weights() {
    assert_eq!(Cell::Dead.as_u8(), 0);
    assert_eq!(Cell::Alive.as_u8(), 1);
}

#[test]
fn index_is_row_major() {
    let u = Universe::with_seed(5, 4, &[]);
    assert_eq!(u.get_index(0, 0), 0);
    assert_eq!(u.get_index(4, 0), 4);
    assert_eq!(u.get_index(0, 1), 5);
    assert_eq!(u.get_index(3, 2), 13);
    assert_eq!(u.get_index(4, 3), 19);
}

#[test]
fn wraparound_correctness() {
    let u = Universe::new();
    let (w, h) = (u.width() as u64, u.height() as u64);
    for x in 0..w {
        for y in 0..h {
            let i = u.get_index(x, y);
            assert_eq!(u.get_index(x + w, y), i);
            assert_eq!(u.get_index(x, y + h), i);
        }
    }
}

#[test]
fn no_underflow_at_edges() {
    let u = Universe::with_seed(7, 5, &[]);
    for y in 0..5u64 {
        assert_eq!(u.get_index(0 + 7 - 1, y), u.get_index(6, y));
        assert_eq!(u.get_index(0 + 7 - 1, y), 6 + 7 * y as usize);
    }
    for x in 0..7u64 {
        assert_eq!(u.get_index(x, 0 + 5 - 1), u.get_index(x, 4));
        assert_eq!(u.get_index(x, 0 + 5 - 1), x as usize + 28);
    }
}

#[test]
fn get_wraps() {
    // alive at (6, 4), the bottom-right corner
    let u = Universe::with_seed(7, 5, &[34]);
    assert_eq!(u.get(6, 4), Cell::Alive);
    assert_eq!(u.get(13, 9), Cell::Alive);
    assert_eq!(u.get(0, 0), Cell::Dead);
}

#[test]
fn boundary_rule_thresholds() {
    assert_eq!(next_cell_state(Cell::Alive, 2, 0), Cell::Alive);
    assert_eq!(next_cell_state(Cell::Dead, 2, 0), Cell::Dead);
    assert_eq!(next_cell_state(Cell::Dead, 2, 1), Cell::Alive);
    assert_eq!(next_cell_state(Cell::Alive, 2, 1), Cell::Alive);
}

#[test]
fn rule_band_edges() {
    // survival band 6..=10
    assert_eq!(next_cell_state(Cell::Alive, 1, 2), Cell::Dead); // k = 5
    assert_eq!(next_cell_state(Cell::Alive, 3, 1), Cell::Alive); // k = 10
    assert_eq!(next_cell_state(Cell::Alive, 3, 2), Cell::Dead); // k = 11
    assert_eq!(next_cell_state(Cell::Alive, 0, 6), Cell::Alive); // k = 6
    // birth band 7..=9
    assert_eq!(next_cell_state(Cell::Dead, 3, 0), Cell::Alive); // k = 9
    assert_eq!(next_cell_state(Cell::Dead, 3, 1), Cell::Dead); // k = 10
    assert_eq!(next_cell_state(Cell::Dead, 1, 4), Cell::Alive); // k = 7
    assert_eq!(next_cell_state(Cell::Dead, 0, 0), Cell::Dead);
    assert_eq!(next_cell_state(Cell::Alive, 6, 6), Cell::Dead); // k = 24
    assert_eq!(next_cell_state(Cell::Dead, 255, 255), Cell::Dead);
}

#[test]
fn first_ring_footprint() {
    // 8 x 8 grid, target (3, 3); the ring is (3,4) (4,4) (2,3) (4,3) (3,2) (4,2)
    let ring = [3 + 4 * 8, 4 + 4 * 8, 2 + 3 * 8, 4 + 3 * 8, 3 + 2 * 8, 4 + 2 * 8];
    for (n, &i) in ring.iter().enumerate() {
        let u = Universe::with_seed(8, 8, &ring[..=n]);
        assert_eq!(u.lvl1_neighbour_count(3, 3), (n + 1) as u8);
        let single = Universe::with_seed(8, 8, &[i]);
        assert_eq!(single.lvl1_neighbour_count(3, 3), 1);
        assert_eq!(single.lvl2_neighbour_count(3, 3), 0);
    }
    // the target itself and the cells left out of the footprint do not count
    let off = [3 + 3 * 8, 2 + 4 * 8, 2 + 2 * 8];
    let u = Universe::with_seed(8, 8, &off);
    assert_eq!(u.lvl1_neighbour_count(3, 3), 0);
}

#[test]
fn second_ring_footprint() {
    // target (3, 3); the ring is (3,5) (2,4) (5,4) (2,2) (5,2) (3,1)
    let ring = [3 + 5 * 8, 2 + 4 * 8, 5 + 4 * 8, 2 + 2 * 8, 5 + 2 * 8, 3 + 8];
    for (n, &i) in ring.iter().enumerate() {
        let u = Universe::with_seed(8, 8, &ring[..=n]);
        assert_eq!(u.lvl2_neighbour_count(3, 3), (n + 1) as u8);
        let single = Universe::with_seed(8, 8, &[i]);
        assert_eq!(single.lvl2_neighbour_count(3, 3), 1);
    }
}

#[test]
fn rings_wrap_at_the_corner() {
    // target (0, 0) on 8 x 8: (x-1, y) is (7, 0), (x, y-1) is (0, 7), (x, y-2) is (0, 6)
    let u = Universe::with_seed(8, 8, &[7, 56, 48]);
    assert_eq!(u.lvl1_neighbour_count(0, 0), 2);
    assert_eq!(u.lvl2_neighbour_count(0, 0), 1);
}

#[test]
fn one_row_grid_counts_without_underflow() {
    // columns 1 and 2 alive; every row wraps to row 0, so (1, *) counts three
    // times in the first ring and (2, *) twice in the second
    let mut u = Universe::with_seed(4, 1, &[1, 2]);
    assert_eq!(u.lvl1_neighbour_count(0, 0), 3);
    assert_eq!(u.lvl2_neighbour_count(0, 0), 2);
    u.tick();
    assert_eq!(u.cells().len(), 4);
}

#[test]
fn birth_at_k_seven() {
    // dead (3, 3) with (3,4) (4,4) in the first ring and (3,5) in the second: k = 7
    let mut u = Universe::with_seed(8, 8, &[3 + 4 * 8, 4 + 4 * 8, 3 + 5 * 8]);
    assert_eq!(u.lvl1_neighbour_count(3, 3), 2);
    assert_eq!(u.lvl2_neighbour_count(3, 3), 1);
    u.tick();
    assert_eq!(u.get(3, 3), Cell::Alive);
}

#[test]
fn no_birth_at_k_six() {
    let mut u = Universe::with_seed(8, 8, &[3 + 4 * 8, 4 + 4 * 8]);
    u.tick();
    assert_eq!(u.get(3, 3), Cell::Dead);
}

#[test]
fn survival_at_k_six() {
    let mut u = Universe::with_seed(8, 8, &[3 + 3 * 8, 3 + 4 * 8, 4 + 4 * 8]);
    u.tick();
    assert_eq!(u.get(3, 3), Cell::Alive);
}

#[test]
fn lone_cell_dies() {
    let mut u = Universe::with_seed(8, 8, &[27]);
    u.tick();
    assert!(alive_indices(&u).is_empty());
}

#[test]
fn all_dead_stability() {
    let mut u = Universe::with_seed(16, 9, &[]);
    for _ in 0..10 {
        u.tick();
        assert!(u.cells().iter().all(|c| *c == Cell::Dead));
        assert_eq!(u.cells().len(), 16 * 9);
    }
}

#[test]
fn determinism() {
    let mut a = Universe::new();
    let mut b = Universe::new();
    for _ in 0..12 {
        a.tick();
        b.tick();
        assert_eq!(a.cells(), b.cells());
    }
}

#[test]
fn order_independence() {
    let mut u = Universe::new();
    for _ in 0..3 {
        u.tick();
    }
    let (w, h) = (u.width(), u.height());
    // fill a buffer in reverse, column by column, from the frozen generation
    let mut expected = vec![Cell::Dead; (w * h) as usize];
    for x in (0..w).rev() {
        for y in (0..h).rev() {
            let k1 = u.lvl1_neighbour_count(x, y);
            let k2 = u.lvl2_neighbour_count(x, y);
            let i = u.get_index(x as u64, y as u64);
            expected[i] = next_cell_state(u.get(x as u64, y as u64), k1, k2);
        }
    }
    u.tick();
    assert_eq!(u.cells(), expected.as_slice());
}

#[test]
fn default_first_tick() {
    let mut u = Universe::new();
    let before = alive_indices(&u);
    u.tick();
    let after = alive_indices(&u);
    assert_ne!(before, after);
    assert_eq!(u.cells().len(), 4096);
}
