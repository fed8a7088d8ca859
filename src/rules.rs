use vstd::prelude::*;

verus! {

/// The automaton's rule: a live cell survives with two or three live
/// neighbours, a dead cell comes alive with exactly three.
pub open spec fn next_state(alive: bool, neighbors: int) -> bool {
    if alive {
        neighbors == 2 || neighbors == 3
    } else {
        neighbors == 3
    }
}

/// The state of a cell in the next generation, given its state and the
/// number of its live neighbours.
pub fn next_cell_state(alive: bool, neighbors: u8) -> (r: bool)
    ensures
        r == next_state(alive, neighbors as int),
{
    match (alive, neighbors) {
        (true, 2) | (true, 3) => true,
        (false, 3) => true,
        _ => false,
    }
}

/// 1 for a live cell, 0 for a dead one.
pub open spec fn as_count(alive: bool) -> int {
    if alive {
        1
    } else {
        0
    }
}

} // verus!
