use crate::grid::GameOfLife;
use crate::rules::{as_count, next_state};
use vstd::prelude::*;

verus! {

/// 1 if `(x, y)` is a position of a `w` by `h` grid, else 0.
pub open spec fn position_count(w: int, h: int, x: int, y: int) -> int {
    as_count(0 <= x < w && 0 <= y < h)
}

/// How many of the eight positions around `(x, y)` lie inside a `w` by `h`
/// grid.
pub open spec fn neighbor_positions(w: int, h: int, x: int, y: int) -> int {
    position_count(w, h, x - 1, y - 1) + position_count(w, h, x, y - 1) + position_count(
        w,
        h,
        x + 1,
        y - 1,
    ) + position_count(w, h, x - 1, y) + position_count(w, h, x + 1, y) + position_count(
        w,
        h,
        x - 1,
        y + 1,
    ) + position_count(w, h, x, y + 1) + position_count(w, h, x + 1, y + 1)
}

/// A cell's live neighbours are found only among the positions around it
/// that lie inside the grid: a corner cell has at most three of them, a
/// cell on an edge at most five, and a cell away from the edges exactly
/// eight.
pub proof fn lemma_neighbor_positions(g: GameOfLife, x: int, y: int)
    requires
        g.in_bounds(x, y),
    ensures
        0 <= g.live_neighbors(x, y) <= neighbor_positions(
            g.grid_width() as int,
            g.grid_height() as int,
            x,
            y,
        ),
        (x == 0 || x == g.grid_width() - 1) && (y == 0 || y == g.grid_height() - 1)
            ==> neighbor_positions(g.grid_width() as int, g.grid_height() as int, x, y) <= 3,
        (x == 0 || x == g.grid_width() - 1 || y == 0 || y == g.grid_height() - 1)
            ==> neighbor_positions(g.grid_width() as int, g.grid_height() as int, x, y) <= 5,
        0 < x < g.grid_width() - 1 && 0 < y < g.grid_height() - 1 ==> neighbor_positions(
            g.grid_width() as int,
            g.grid_height() as int,
            x,
            y,
        ) == 8,
{
}

/// A live cell with two or three live neighbours lives on and with any other
/// number dies; a dead cell with exactly three comes alive and otherwise
/// stays dead.
pub proof fn lemma_cell_fate(prev: GameOfLife, next: GameOfLife, x: int, y: int)
    requires
        next.is_successor(prev),
        prev.in_bounds(x, y),
    ensures
        prev.alive(x, y) && (prev.live_neighbors(x, y) == 2 || prev.live_neighbors(x, y) == 3)
            ==> next.alive(x, y),
        prev.alive(x, y) && !(prev.live_neighbors(x, y) == 2 || prev.live_neighbors(x, y) == 3)
            ==> !next.alive(x, y),
        !prev.alive(x, y) && prev.live_neighbors(x, y) == 3 ==> next.alive(x, y),
        !prev.alive(x, y) && prev.live_neighbors(x, y) != 3 ==> !next.alive(x, y),
{
    assert(next.in_bounds(x, y));
}

/// A grid with no live cell has none in the next generation either.
pub proof fn lemma_dead_stays_dead(prev: GameOfLife, next: GameOfLife)
    requires
        prev.all_dead(),
        next.is_successor(prev),
    ensures
        next.all_dead(),
{
    assert forall|x: int, y: int| next.in_bounds(x, y) implies !#[trigger] next.alive(x, y) by {
        assert(prev.live_neighbors(x, y) == 0);
    }
}

/// Whether `(x, y)` belongs to the two by two square whose top left cell is
/// `(bx, by)`.
pub open spec fn block_cell(bx: int, by: int, x: int, y: int) -> bool {
    bx <= x <= bx + 1 && by <= y <= by + 1
}

/// The live cells of `g` are exactly the two by two square at `(bx, by)`.
pub open spec fn is_block(g: GameOfLife, bx: int, by: int) -> bool {
    forall|x: int, y: int| #[trigger] g.alive(x, y) == block_cell(bx, by, x, y)
}

/// A two by two square of live cells, alone in the grid with a dead cell
/// between it and every edge, is the same in the next generation.
pub proof fn lemma_block_is_still(prev: GameOfLife, next: GameOfLife, bx: int, by: int)
    requires
        1 <= bx,
        bx + 2 < prev.grid_width(),
        1 <= by,
        by + 2 < prev.grid_height(),
        is_block(prev, bx, by),
        next.is_successor(prev),
    ensures
        next.same_cells(prev),
        is_block(next, bx, by),
{
    assert forall|x: int, y: int| #[trigger] next.alive(x, y) == prev.alive(x, y) by {
        if next.in_bounds(x, y) {
            assert(next.alive(x, y) == next_state(prev.alive(x, y), prev.live_neighbors(x, y)));
        }
    }
}

/// Whether `(x, y)` belongs to the row of three cells centred on `(cx, cy)`.
pub open spec fn horizontal_cell(cx: int, cy: int, x: int, y: int) -> bool {
    y == cy && cx - 1 <= x <= cx + 1
}

/// Whether `(x, y)` belongs to the column of three cells centred on
/// `(cx, cy)`.
pub open spec fn vertical_cell(cx: int, cy: int, x: int, y: int) -> bool {
    x == cx && cy - 1 <= y <= cy + 1
}

/// The live cells of `g` are exactly the row of three centred on `(cx, cy)`.
pub open spec fn is_horizontal_blinker(g: GameOfLife, cx: int, cy: int) -> bool {
    forall|x: int, y: int| #[trigger] g.alive(x, y) == horizontal_cell(cx, cy, x, y)
}

/// The live cells of `g` are exactly the column of three centred on
/// `(cx, cy)`.
pub open spec fn is_vertical_blinker(g: GameOfLife, cx: int, cy: int) -> bool {
    forall|x: int, y: int| #[trigger] g.alive(x, y) == vertical_cell(cx, cy, x, y)
}

/// A row of three live cells alone in the grid, centred away from the
/// edges, becomes the column of three through its middle.
pub proof fn lemma_blinker_turns_vertical(prev: GameOfLife, next: GameOfLife, cx: int, cy: int)
    requires
        1 <= cx < prev.grid_width() - 1,
        1 <= cy < prev.grid_height() - 1,
        is_horizontal_blinker(prev, cx, cy),
        next.is_successor(prev),
    ensures
        is_vertical_blinker(next, cx, cy),
{
    assert forall|x: int, y: int| #[trigger] next.alive(x, y) == vertical_cell(cx, cy, x, y) by {
        if next.in_bounds(x, y) {
            assert(next.alive(x, y) == next_state(prev.alive(x, y), prev.live_neighbors(x, y)));
        }
    }
}

/// A column of three live cells alone in the grid, centred away from the
/// edges, becomes the row of three through its middle.
pub proof fn lemma_blinker_turns_horizontal(
    prev: GameOfLife,
    next: GameOfLife,
    cx: int,
    cy: int,
)
    requires
        1 <= cx < prev.grid_width() - 1,
        1 <= cy < prev.grid_height() - 1,
        is_vertical_blinker(prev, cx, cy),
        next.is_successor(prev),
    ensures
        is_horizontal_blinker(next, cx, cy),
{
    assert forall|x: int, y: int| #[trigger] next.alive(x, y) == horizontal_cell(cx, cy, x, y) by {
        if next.in_bounds(x, y) {
            assert(next.alive(x, y) == next_state(prev.alive(x, y), prev.live_neighbors(x, y)));
        }
    }
}

/// A row of three live cells alone in the grid, centred away from the
/// edges, stands upright after one generation and lies as it began after
/// two.
pub proof fn lemma_blinker_period_two(
    first: GameOfLife,
    second: GameOfLife,
    third: GameOfLife,
    cx: int,
    cy: int,
)
    requires
        1 <= cx < first.grid_width() - 1,
        1 <= cy < first.grid_height() - 1,
        is_horizontal_blinker(first, cx, cy),
        second.is_successor(first),
        third.is_successor(second),
    ensures
        is_vertical_blinker(second, cx, cy),
        !second.same_cells(first),
        is_horizontal_blinker(third, cx, cy),
        third.same_cells(first),
{
    lemma_blinker_turns_vertical(first, second, cx, cy);
    lemma_blinker_turns_horizontal(second, third, cx, cy);
    assert(first.alive(cx - 1, cy) != second.alive(cx - 1, cy));
    assert forall|x: int, y: int| #[trigger] third.alive(x, y) == first.alive(x, y) by {
        assert(third.alive(x, y) == horizontal_cell(cx, cy, x, y));
    }
}

} // verus!
