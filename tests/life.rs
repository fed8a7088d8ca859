use life_grid::rules::next_cell_state;
use life_grid::GameOfLife;

fn live_cells(g: &GameOfLife) -> Vec<(usize, usize)> {
    let mut out = Vec::new();
    for y in 0..g.height() {
        for x in 0..g.width() {
            if g.is_alive(x, y) {
                out.push((x, y));
            }
        }
    }
    out
}

fn grid_with(width: usize, height: usize, cells: &[(usize, usize)]) -> GameOfLife {
    let mut g = GameOfLife::new(width, height);
    for &(x, y) in cells {
        g.set_cell(x, y, true);
    }
    g
}

#[test]
fn new_grid_is_dead_and_paused() {
    let g = GameOfLife::new(4, 3);
    assert_eq!(g.width(), 4);
    assert_eq!(g.height(), 3);
    assert!(!g.is_running());
    assert!(live_cells(&g).is_empty());
}

#[test]
fn zero_sized_grid_has_no_cells() {
    let mut g = GameOfLife::new(0, 7);
    assert_eq!(g.width(), 0);
    assert!(!g.is_alive(0, 0));
    g.set_cell(0, 0, true);
    assert!(!g.is_alive(0, 0));
    g.advance_generation();
    assert!(live_cells(&g).is_empty());
}

#[test]
fn clear_kills_every_cell() {
    let mut g = grid_with(6, 6, &[(0, 0), (5, 5), (2, 3), (3, 3)]);
    g.set_running(true);
    g.clear();
    assert!(live_cells(&g).is_empty());
    assert!(g.is_running());
}

#[test]
fn randomize_with_zero_chance_kills_every_cell() {
    let mut g = grid_with(8, 5, &[(1, 1), (7, 4)]);
    g.randomize_with_ratio(0, 10);
    assert!(live_cells(&g).is_empty());
}

#[test]
fn randomize_with_certain_chance_fills_every_cell() {
    let mut g = GameOfLife::new(8, 5);
    g.randomize_with_ratio(3, 3);
    assert_eq!(live_cells(&g).len(), 40);
}

#[test]
fn randomize_keeps_dimensions() {
    let mut g = GameOfLife::new(50, 50);
    g.randomize();
    assert_eq!(g.width(), 50);
    assert_eq!(g.height(), 50);
    assert!(live_cells(&g).len() <= 2500);
}

#[test]
fn set_cell_sets_and_unsets_one_cell() {
    let mut g = GameOfLife::new(3, 3);
    g.set_cell(2, 1, true);
    assert_eq!(live_cells(&g), vec![(2, 1)]);
    g.set_cell(2, 1, false);
    assert!(live_cells(&g).is_empty());
}

#[test]
fn set_cell_outside_the_grid_is_ignored() {
    let mut g = grid_with(3, 3, &[(1, 1)]);
    g.set_cell(3, 0, true);
    g.set_cell(0, 3, true);
    g.set_cell(usize::MAX, usize::MAX, true);
    assert_eq!(live_cells(&g), vec![(1, 1)]);
    assert!(!g.is_alive(3, 0));
}

#[test]
fn corner_edge_and_interior_neighbor_counts() {
    let mut g = GameOfLife::new(4, 4);
    g.randomize_with_ratio(1, 1);
    assert_eq!(g.count_live_neighbors(0, 0), 3);
    assert_eq!(g.count_live_neighbors(3, 3), 3);
    assert_eq!(g.count_live_neighbors(0, 3), 3);
    assert_eq!(g.count_live_neighbors(2, 0), 5);
    assert_eq!(g.count_live_neighbors(3, 1), 5);
    assert_eq!(g.count_live_neighbors(1, 1), 8);
    assert_eq!(g.count_live_neighbors(2, 2), 8);
}

#[test]
fn neighbor_count_skips_the_cell_itself() {
    let g = grid_with(3, 3, &[(1, 1), (0, 0), (2, 2)]);
    assert_eq!(g.count_live_neighbors(1, 1), 2);
    assert_eq!(g.count_live_neighbors(0, 1), 2);
    assert_eq!(g.count_live_neighbors(2, 0), 1);
}

#[test]
fn neighbor_count_at_far_positions() {
    let g = grid_with(3, 3, &[(2, 2)]);
    assert_eq!(g.count_live_neighbors(3, 3), 1);
    assert_eq!(g.count_live_neighbors(usize::MAX, usize::MAX), 0);
}

#[test]
fn block_is_still() {
    let block = [(2, 2), (3, 2), (2, 3), (3, 3)];
    let mut g = grid_with(6, 6, &block);
    g.advance_generation();
    assert_eq!(live_cells(&g), vec![(2, 2), (3, 2), (2, 3), (3, 3)]);
    g.advance_generation();
    assert_eq!(live_cells(&g), vec![(2, 2), (3, 2), (2, 3), (3, 3)]);
}

#[test]
fn blinker_alternates_with_period_two() {
    let mut g = grid_with(5, 5, &[(1, 2), (2, 2), (3, 2)]);
    g.advance_generation();
    assert_eq!(live_cells(&g), vec![(2, 1), (2, 2), (2, 3)]);
    g.advance_generation();
    assert_eq!(live_cells(&g), vec![(1, 2), (2, 2), (3, 2)]);
}

#[test]
fn rule_for_every_neighbor_count() {
    for n in 0u8..=8 {
        assert_eq!(next_cell_state(true, n), n == 2 || n == 3);
        assert_eq!(next_cell_state(false, n), n == 3);
    }
}

#[test]
fn lonely_cell_dies() {
    let mut g = grid_with(3, 3, &[(1, 1), (0, 0)]);
    g.advance_generation();
    assert!(live_cells(&g).is_empty());
}

#[test]
fn crowded_cell_dies() {
    let mut g = grid_with(3, 3, &[(1, 1), (0, 0), (1, 0), (2, 0), (0, 1)]);
    assert_eq!(g.count_live_neighbors(1, 1), 4);
    g.advance_generation();
    assert!(!g.is_alive(1, 1));
}

#[test]
fn dead_cell_with_three_neighbors_is_born() {
    let mut g = grid_with(3, 3, &[(0, 0), (2, 0), (0, 2)]);
    g.advance_generation();
    assert_eq!(live_cells(&g), vec![(1, 1)]);
}

#[test]
fn dead_grid_stays_dead() {
    let mut g = GameOfLife::new(7, 4);
    g.advance_generation();
    assert!(live_cells(&g).is_empty());
}

#[test]
fn update_waits_while_paused() {
    let mut g = grid_with(5, 5, &[(1, 2), (2, 2), (3, 2)]);
    g.update();
    assert_eq!(live_cells(&g), vec![(1, 2), (2, 2), (3, 2)]);
    g.set_running(true);
    g.update();
    assert_eq!(live_cells(&g), vec![(2, 1), (2, 2), (2, 3)]);
    assert!(g.is_running());
}

#[test]
fn fill_from_draws_reads_row_after_row() {
    let mut g = GameOfLife::new(3, 2);
    let draws = vec![true, false, false, false, true, true];
    g.fill_from_draws(&draws);
    assert_eq!(live_cells(&g), vec![(0, 0), (1, 1), (2, 1)]);
}

#[test]
fn fill_from_draws_leaves_nothing_of_the_old_cells() {
    let mut g = grid_with(3, 2, &[(0, 0), (1, 0), (2, 0), (0, 1)]);
    g.set_running(true);
    g.fill_from_draws(&vec![false, false, true, false, false, false]);
    assert_eq!(live_cells(&g), vec![(2, 0)]);
    assert!(g.is_running());
    assert_eq!(g.width(), 3);
    assert_eq!(g.height(), 2);
}
