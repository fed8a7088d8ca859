use crate::chance::draw_cells;
use crate::rules::{as_count, next_cell_state, next_state};
use vstd::arithmetic::div_mod::lemma_fundamental_div_mod_converse;
use vstd::prelude::*;

verus! {

/// A rectangular grid of cells, each alive or dead, together with a flag
/// that says whether the simulation is running.
///
/// Cells are stored row after row in one buffer: cell `(x, y)`, column `x`
/// and row `y`, sits at `y * width + x`. Positions outside
/// `[0, width) x [0, height)` count as dead; the grid does not wrap around.
pub struct GameOfLife {
    cells: Vec<bool>,
    width: usize,
    height: usize,
    running: bool,
}

/// `y * w + x` lies inside a buffer of `w * h` cells for every cell `(x, y)`.
proof fn lemma_index_in_bounds(w: int, h: int, x: int, y: int)
    requires
        0 <= x < w,
        0 <= y < h,
    ensures
        0 <= y * w + x < w * h,
{
    assert(0 <= y * w) by (nonlinear_arith)
        requires
            0 <= y,
            0 <= w,
    ;
    assert(y * w + w <= w * h) by (nonlinear_arith)
        requires
            0 <= y < h,
            0 <= w,
    ;
}

/// The cell at index `k` of a buffer with rows of `w` cells is
/// `(k % w, k / w)`.
proof fn lemma_index_coords(w: int, x: int, y: int)
    requires
        0 <= x < w,
    ensures
        (y * w + x) % w == x,
        (y * w + x) / w == y,
{
    lemma_fundamental_div_mod_converse(y * w + x, w, y, x);
}

impl GameOfLife {
    /// Number of columns.
    pub closed spec fn grid_width(self) -> nat {
        self.width as nat
    }

    /// Number of rows.
    pub closed spec fn grid_height(self) -> nat {
        self.height as nat
    }

    /// Whether the simulation is running.
    pub closed spec fn spec_running(self) -> bool {
        self.running
    }

    /// What the buffer holds for position `(x, y)`; meaningful inside the grid.
    pub closed spec fn stored(self, x: int, y: int) -> bool {
        self.cells@[y * self.width + x]
    }

    /// The buffer holds exactly one entry per cell, and their number fits in
    /// a `usize`.
    pub closed spec fn wf(self) -> bool {
        &&& self.cells@.len() == self.width * self.height
        &&& self.width * self.height <= usize::MAX
    }

    /// `(x, y)` is a position of the grid.
    pub open spec fn in_bounds(self, x: int, y: int) -> bool {
        0 <= x < self.grid_width() && 0 <= y < self.grid_height()
    }

    /// Whether the cell at `(x, y)` is alive; every position outside the grid
    /// is dead.
    pub open spec fn alive(self, x: int, y: int) -> bool {
        self.in_bounds(x, y) && self.stored(x, y)
    }

    /// Number of live cells among the eight positions around `(x, y)`.
    pub open spec fn live_neighbors(self, x: int, y: int) -> int {
        as_count(self.alive(x - 1, y - 1)) + as_count(self.alive(x, y - 1)) + as_count(
            self.alive(x + 1, y - 1),
        ) + as_count(self.alive(x - 1, y)) + as_count(self.alive(x + 1, y)) + as_count(
            self.alive(x - 1, y + 1),
        ) + as_count(self.alive(x, y + 1)) + as_count(self.alive(x + 1, y + 1))
    }

    /// Every cell of the grid is dead.
    pub open spec fn all_dead(self) -> bool {
        forall|x: int, y: int| self.in_bounds(x, y) ==> !#[trigger] self.alive(x, y)
    }

    /// Every cell of the grid is alive.
    pub open spec fn all_alive(self) -> bool {
        forall|x: int, y: int| self.in_bounds(x, y) ==> #[trigger] self.alive(x, y)
    }

    /// `self` and `other` have the same dimensions and the same live cells.
    pub open spec fn same_cells(self, other: Self) -> bool {
        &&& self.grid_width() == other.grid_width()
        &&& self.grid_height() == other.grid_height()
        &&& forall|x: int, y: int| #[trigger] self.alive(x, y) == other.alive(x, y)
    }

    /// `self` has the dimensions of `prev`, and each of its cells is what the
    /// rule makes of the same cell of `prev`, computed from `prev` alone.
    pub open spec fn is_successor(self, prev: Self) -> bool {
        &&& self.grid_width() == prev.grid_width()
        &&& self.grid_height() == prev.grid_height()
        &&& forall|x: int, y: int|
            self.in_bounds(x, y) ==> #[trigger] self.alive(x, y) == next_state(
                prev.alive(x, y),
                prev.live_neighbors(x, y),
            )
    }

    /// A `width` by `height` grid of dead cells, not running. Either
    /// dimension may be zero, which gives a grid without cells.
    pub fn new(width: usize, height: usize) -> (r: Self)
        requires
            width * height <= usize::MAX,
        ensures
            r.wf(),
            r.grid_width() == width,
            r.grid_height() == height,
            r.all_dead(),
            !r.spec_running(),
    {
        let n: usize = width * height;
        let cells = vec![false; n];
        let r = GameOfLife { cells, width, height, running: false };
        proof {
            assert forall|x: int, y: int| r.in_bounds(x, y) implies !#[trigger] r.alive(x, y) by {
                lemma_index_in_bounds(width as int, height as int, x, y);
            }
        }
        r
    }

    /// Whether the cell at `(x, y)` is alive; a position outside the grid
    /// reads as dead.
    pub fn is_alive(&self, x: usize, y: usize) -> (r: bool)
        requires
            self.wf(),
        ensures
            r == self.alive(x as int, y as int),
    {
        if x < self.width && y < self.height {
            proof {
                lemma_index_in_bounds(self.width as int, self.height as int, x as int, y as int);
            }
            self.cells[y * self.width + x]
        } else {
            false
        }
    }

    /// 1 if the cell at `(x, y)` is alive, else 0.
    fn count_at(&self, x: usize, y: usize) -> (r: u8)
        requires
            self.wf(),
        ensures
            r as int == as_count(self.alive(x as int, y as int)),
    {
        if self.is_alive(x, y) {
            1
        } else {
            0
        }
    }

    /// Number of live cells among the eight positions around `(x, y)`;
    /// positions outside the grid count as dead.
    pub fn count_live_neighbors(&self, x: usize, y: usize) -> (r: u8)
        requires
            self.wf(),
        ensures
            r as int == self.live_neighbors(x as int, y as int),
            r <= 8,
    {
        let mut count: u8 = 0;
        if y > 0 {
            if x > 0 {
                count = count + self.count_at(x - 1, y - 1);
            }
            count = count + self.count_at(x, y - 1);
            if x < usize::MAX {
                count = count + self.count_at(x + 1, y - 1);
            }
        }
        if x > 0 {
            count = count + self.count_at(x - 1, y);
        }
        if x < usize::MAX {
            count = count + self.count_at(x + 1, y);
        }
        if y < usize::MAX {
            if x > 0 {
                count = count + self.count_at(x - 1, y + 1);
            }
            count = count + self.count_at(x, y + 1);
            if x < usize::MAX {
                count = count + self.count_at(x + 1, y + 1);
            }
        }
        count
    }

    /// Sets the cell at `(x, y)` alive or dead. A position outside the grid
    /// leaves the grid as it is.
    pub fn set_cell(&mut self, x: usize, y: usize, alive: bool)
        requires
            old(self).wf(),
        ensures
            final(self).wf(),
            final(self).grid_width() == old(self).grid_width(),
            final(self).grid_height() == old(self).grid_height(),
            final(self).spec_running() == old(self).spec_running(),
            forall|i: int, j: int|
                #[trigger] final(self).alive(i, j) == if i == x && j == y && old(self).in_bounds(
                    i,
                    j,
                ) {
                    alive
                } else {
                    old(self).alive(i, j)
                },
    {
        if x < self.width && y < self.height {
            proof {
                lemma_index_in_bounds(self.width as int, self.height as int, x as int, y as int);
            }
            let k: usize = y * self.width + x;
            self.cells.set(k, alive);
            proof {
                let w = self.width as int;
                assert forall|i: int, j: int| #[trigger]
                    self.alive(i, j) == if i == x && j == y && old(self).in_bounds(i, j) {
                        alive
                    } else {
                        old(self).alive(i, j)
                    } by {
                    if self.in_bounds(i, j) && !(i == x && j == y) {
                        lemma_index_in_bounds(w, self.height as int, i, j);
                        lemma_index_coords(w, i, j);
                        lemma_index_coords(w, x as int, y as int);
                    }
                }
            }
        }
    }

    /// Sets every cell dead.
    pub fn clear(&mut self)
        requires
            old(self).wf(),
        ensures
            final(self).wf(),
            final(self).grid_width() == old(self).grid_width(),
            final(self).grid_height() == old(self).grid_height(),
            final(self).spec_running() == old(self).spec_running(),
            final(self).all_dead(),
    {
        let n: usize = self.cells.len();
        let mut k: usize = 0;
        while k < n
            invariant
                self.wf(),
                self.width == old(self).width,
                self.height == old(self).height,
                self.running == old(self).running,
                n == self.cells@.len(),
                k <= n,
                forall|i: int| 0 <= i < k ==> !#[trigger] self.cells@[i],
            decreases n - k,
        {
            self.cells.set(k, false);
            k = k + 1;
        }
        proof {
            assert forall|x: int, y: int| self.in_bounds(x, y) implies !#[trigger] self.alive(
                x,
                y,
            ) by {
                lemma_index_in_bounds(self.width as int, self.height as int, x, y);
            }
        }
    }

    /// Overwrites every cell with its own entry of `draws`, read row after
    /// row: cell `(x, y)` takes `draws[y * width + x]`. Nothing of the old
    /// cells remains.
    pub fn fill_from_draws(&mut self, draws: &Vec<bool>)
        requires
            old(self).wf(),
            draws@.len() == old(self).grid_width() * old(self).grid_height(),
        ensures
            final(self).wf(),
            final(self).grid_width() == old(self).grid_width(),
            final(self).grid_height() == old(self).grid_height(),
            final(self).spec_running() == old(self).spec_running(),
            forall|x: int, y: int|
                final(self).in_bounds(x, y) ==> #[trigger] final(self).alive(x, y) == draws@[y
                    * final(self).grid_width() + x],
    {
        let n: usize = self.cells.len();
        let mut k: usize = 0;
        while k < n
            invariant
                self.wf(),
                self.width == old(self).width,
                self.height == old(self).height,
                self.running == old(self).running,
                n == self.cells@.len(),
                n == draws@.len(),
                k <= n,
                forall|i: int| 0 <= i < k ==> #[trigger] self.cells@[i] == draws@[i],
            decreases n - k,
        {
            self.cells.set(k, draws[k]);
            k = k + 1;
        }
        proof {
            assert forall|x: int, y: int| self.in_bounds(x, y) implies #[trigger] self.alive(x, y)
                == draws@[y * self.width + x] by {
                lemma_index_in_bounds(self.width as int, self.height as int, x, y);
            }
        }
    }

    /// Sets each cell alive with a chance of `numerator` in `denominator`,
    /// drawn afresh for every cell, and dead otherwise: the draws, one per
    /// cell, are handed to `fill_from_draws`. A chance of 0 leaves every cell
    /// dead, a chance of 1 every cell alive.
    pub fn randomize_with_ratio(&mut self, numerator: u32, denominator: u32)
        requires
            old(self).wf(),
            0 < denominator,
            numerator <= denominator,
        ensures
            final(self).wf(),
            final(self).grid_width() == old(self).grid_width(),
            final(self).grid_height() == old(self).grid_height(),
            final(self).spec_running() == old(self).spec_running(),
            numerator == 0 ==> final(self).all_dead(),
            numerator == denominator ==> final(self).all_alive(),
    {
        let n: usize = self.cells.len();
        let draws = draw_cells(n, numerator, denominator);
        self.fill_from_draws(&draws);
        proof {
            assert forall|x: int, y: int| self.in_bounds(x, y) implies (numerator == 0 ==> !
            #[trigger] self.alive(x, y)) && (numerator == denominator ==> self.alive(x, y)) by {
                lemma_index_in_bounds(self.width as int, self.height as int, x, y);
            }
        }
    }

    /// Sets each cell alive with a chance of one in five, and dead otherwise.
    pub fn randomize(&mut self)
        requires
            old(self).wf(),
        ensures
            final(self).wf(),
            final(self).grid_width() == old(self).grid_width(),
            final(self).grid_height() == old(self).grid_height(),
            final(self).spec_running() == old(self).spec_running(),
    {
        self.randomize_with_ratio(1, 5);
    }

    /// Replaces every cell at once by its next generation: each cell's new
    /// state is computed from the grid as it was before the call.
    pub fn advance_generation(&mut self)
        requires
            old(self).wf(),
        ensures
            final(self).wf(),
            final(self).is_successor(*old(self)),
            final(self).spec_running() == old(self).spec_running(),
    {
        let w: usize = self.width;
        let h: usize = self.height;
        let mut next: Vec<bool> = Vec::new();
        let mut y: usize = 0;
        while y < h
            invariant
                self.wf(),
                w == self.width,
                h == self.height,
                y <= h,
                next@.len() == y * w,
                forall|k: int|
                    0 <= k < next@.len() ==> #[trigger] next@[k] == next_state(
                        self.alive(k % w as int, k / w as int),
                        self.live_neighbors(k % w as int, k / w as int),
                    ),
            decreases h - y,
        {
            let mut x: usize = 0;
            while x < w
                invariant
                    self.wf(),
                    w == self.width,
                    h == self.height,
                    y < h,
                    x <= w,
                    next@.len() == y * w + x,
                    forall|k: int|
                        0 <= k < next@.len() ==> #[trigger] next@[k] == next_state(
                            self.alive(k % w as int, k / w as int),
                            self.live_neighbors(k % w as int, k / w as int),
                        ),
                decreases w - x,
            {
                let neighbors = self.count_live_neighbors(x, y);
                let alive = self.is_alive(x, y);
                proof {
                    lemma_index_coords(w as int, x as int, y as int);
                }
                next.push(next_cell_state(alive, neighbors));
                x = x + 1;
            }
            proof {
                assert((y + 1) * w == y * w + w) by (nonlinear_arith);
            }
            y = y + 1;
        }
        let ghost prev = *self;
        let ghost computed = next@;
        proof {
            assert(h * w == w * h) by (nonlinear_arith);
        }
        self.cells = next;
        proof {
            assert forall|x: int, y: int| self.in_bounds(x, y) implies #[trigger] self.alive(x, y)
                == next_state(prev.alive(x, y), prev.live_neighbors(x, y)) by {
                lemma_index_in_bounds(w as int, h as int, x, y);
                lemma_index_coords(w as int, x, y);
                let k = y * w + x;
                assert(computed[k] == next_state(
                    prev.alive(k % w as int, k / w as int),
                    prev.live_neighbors(k % w as int, k / w as int),
                ));
            }
        }
    }

    /// Advances one generation while the simulation is running; a paused
    /// grid is left as it is.
    pub fn update(&mut self)
        requires
            old(self).wf(),
        ensures
            final(self).wf(),
            final(self).spec_running() == old(self).spec_running(),
            old(self).spec_running() ==> final(self).is_successor(*old(self)),
            !old(self).spec_running() ==> *final(self) == *old(self),
    {
        if !self.running {
            return;
        }
        self.advance_generation();
    }

    /// Number of columns.
    pub fn width(&self) -> (r: usize)
        ensures
            r == self.grid_width(),
    {
        self.width
    }

    /// Number of rows.
    pub fn height(&self) -> (r: usize)
        ensures
            r == self.grid_height(),
    {
        self.height
    }

    /// Whether the simulation is running.
    pub fn is_running(&self) -> (r: bool)
        ensures
            r == self.spec_running(),
    {
        self.running
    }

    /// Starts or pauses the simulation; the cells are left as they are.
    pub fn set_running(&mut self, running: bool)
        ensures
            final(self).spec_running() == running,
            final(self).same_cells(*old(self)),
            final(self).wf() == old(self).wf(),
    {
        self.running = running;
    }
}

} // verus!
