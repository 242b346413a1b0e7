//! Where the next apple goes.
//!
//! The rule is fixed, so that a game can be replayed from its inputs: the
//! apple takes the first free cell after the one that was eaten, in reading
//! order and wrapping round from the last cell of the board to the first.

use vstd::prelude::*;
use crate::grid::{
    cell_at, in_grid, lemma_cell_at_on_board, lemma_rank_on_board, rank, Cell, CELLS, SIDE,
};
use crate::snake::Snake;

verus! {

/// The `k`-th cell looked at when a new apple is placed: the cells are tried
/// in reading order, starting just after the eaten apple and wrapping round
/// from the last cell to the first.
pub open spec fn candidate(eaten: Cell, k: int) -> Cell {
    cell_at((rank(eaten) + 1 + k) % (CELLS as int))
}

/// Whether each of the candidates numbered `from..to` is in `cells`.
pub open spec fn taken(cells: Seq<Cell>, eaten: Cell, from: int, to: int) -> bool {
    forall|i: int| from <= i < to ==> cells.contains(#[trigger] candidate(eaten, i))
}

/// The first candidate from the `k`-th on that is not in `cells`.
pub open spec fn first_free_from(cells: Seq<Cell>, eaten: Cell, k: int) -> Option<Cell>
    decreases CELLS - k,
{
    if k >= CELLS {
        None
    } else if !cells.contains(candidate(eaten, k)) {
        Some(candidate(eaten, k))
    } else {
        first_free_from(cells, eaten, k + 1)
    }
}

/// Where the apple goes once the one at `eaten` is gone: the first free cell
/// after `eaten` in reading order, or nowhere if `cells` covers the board.
pub open spec fn next_apple(cells: Seq<Cell>, eaten: Cell) -> Option<Cell> {
    first_free_from(cells, eaten, 0)
}

/// What `first_free_from` finds: a candidate that is not in `cells`, every
/// candidate from the `k`-th up to it being in `cells`; or nothing, every
/// candidate from the `k`-th on being in `cells`.
pub proof fn lemma_first_free_from(cells: Seq<Cell>, eaten: Cell, k: int)
    requires
        0 <= k <= CELLS,
    ensures
        match first_free_from(cells, eaten, k) {
            Some(c) => exists|j: int|
                k <= j < CELLS && c == #[trigger] candidate(eaten, j) && !cells.contains(c)
                    && taken(cells, eaten, k, j),
            None => taken(cells, eaten, k, CELLS as int),
        },
    decreases CELLS - k,
{
    if k < CELLS && cells.contains(candidate(eaten, k)) {
        lemma_first_free_from(cells, eaten, k + 1);
        if let Some(c) = first_free_from(cells, eaten, k + 1) {
            let j = choose|j: int|
                k + 1 <= j < CELLS && c == #[trigger] candidate(eaten, j) && !cells.contains(c)
                    && taken(cells, eaten, k + 1, j);
            assert(taken(cells, eaten, k, j));
        }
    }
}

/// Counting round the board from just after `from`, the number `to` comes up
/// after `(to - from - 1) % 64` steps.
proof fn lemma_comes_round(from: int, to: int)
    requires
        0 <= to < CELLS,
    ensures
        0 <= (to - from - 1) % (CELLS as int) < CELLS,
        (from + 1 + (to - from - 1) % (CELLS as int)) % (CELLS as int) == to,
{
}

/// A new apple lies on the board and never on the snake, and there is one
/// unless the snake covers the whole board.
pub proof fn lemma_next_apple(cells: Seq<Cell>, eaten: Cell)
    ensures
        next_apple(cells, eaten) matches Some(c) ==> in_grid(c) && !cells.contains(c),
        next_apple(cells, eaten) is None <==> (forall|c: Cell| in_grid(c) ==> cells.contains(c)),
{
    lemma_first_free_from(cells, eaten, 0);
    match next_apple(cells, eaten) {
        Some(c) => {
            let j = choose|j: int|
                0 <= j < CELLS && c == #[trigger] candidate(eaten, j) && !cells.contains(c)
                    && taken(cells, eaten, 0, j);
            lemma_cell_at_on_board((rank(eaten) + 1 + j) % (CELLS as int));
        },
        None => {
            assert forall|c: Cell| in_grid(c) implies cells.contains(c) by {
                let k = (rank(c) - rank(eaten) - 1) % (CELLS as int);
                lemma_rank_on_board(c);
                lemma_comes_round(rank(eaten), rank(c));
                assert(candidate(eaten, k) == c);
            }
        },
    }
}

/// Picks the cell for a new apple after the one at `eaten` was eaten.
pub fn place_apple(snake: &Snake, eaten: Cell) -> (r: Option<Cell>)
    requires
        in_grid(eaten),
    ensures
        r == next_apple(snake@, eaten),
        r matches Some(c) ==> in_grid(c) && !snake@.contains(c),
        r is None <==> (forall|c: Cell| in_grid(c) ==> snake@.contains(c)),
{
    let start: usize = eaten.1 * SIDE + eaten.0 + 1;
    let mut k: usize = 0;
    while k < CELLS
        invariant
            k <= CELLS,
            start == rank(eaten) + 1,
            start <= CELLS,
            first_free_from(snake@, eaten, k as int) == next_apple(snake@, eaten),
        decreases CELLS - k,
    {
        let i: usize = (start + k) % CELLS;
        let c: Cell = (i % SIDE, i / SIDE);
        if !snake.contains(c) {
            proof {
                lemma_next_apple(snake@, eaten);
            }
            return Some(c);
        }
        k += 1;
    }
    proof {
        lemma_next_apple(snake@, eaten);
    }
    None
}

} // verus!
