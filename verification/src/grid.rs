//! Geometry of the 8×8 board and of the LED strip behind it.
//!
//! The board is addressed by cells `(x, y)`. The strip is one chain of 64
//! pixels laid out in rows that alternate in direction, so that odd rows are
//! mirrored.

use vstd::prelude::*;
use vstd::set_lib::{lemma_int_range, lemma_len_subset, lemma_subset_equality, set_int_range};

verus! {

/// Number of cells along each edge of the board.
pub const SIDE: usize = 8;

/// Number of cells on the board, which is also the number of pixels on the strip.
pub const CELLS: usize = 64;

/// A board position: the column `x` first, the row `y` second.
pub type Cell = (usize, usize);

/// Whether `c` names one of the 64 cells of the board.
pub open spec fn in_grid(c: Cell) -> bool {
    c.0 < SIDE && c.1 < SIDE
}

/// Position of a cell in reading order: row by row, each row from column 0.
pub open spec fn rank(c: Cell) -> int {
    c.1 * SIDE + c.0
}

/// The cell at position `i` in reading order.
pub open spec fn cell_at(i: int) -> Cell {
    ((i % SIDE as int) as usize, (i / SIDE as int) as usize)
}

/// The column of the strip's row `y` at which board column `x` is wired: even
/// rows run left to right, odd rows right to left.
pub open spec fn wired_column(x: int, y: int) -> int {
    if y % 2 == 0 {
        x
    } else {
        SIDE - 1 - x
    }
}

/// The position on the strip of the pixel that shows cell `c`.
pub open spec fn strip_index(c: Cell) -> int {
    c.1 * SIDE + wired_column(c.0 as int, c.1 as int)
}

/// Whether some board column of row `y` is wired to strip column `col`.
pub open spec fn column_reached(y: int, col: int) -> bool {
    exists|x: int| 0 <= x < SIDE && wired_column(x, y) == col
}

/// Tells whether `c` lies on the board.
pub fn on_grid(c: Cell) -> (b: bool)
    ensures
        b == in_grid(c),
{
    c.0 < SIDE && c.1 < SIDE
}

/// Within any one row, the wiring maps the columns 0..8 one-to-one onto 0..8.
pub proof fn lemma_wired_column_bijective(y: int)
    ensures
        forall|x: int| 0 <= x < SIDE ==> 0 <= #[trigger] wired_column(x, y) < SIDE,
        forall|x1: int, x2: int|
            0 <= x1 < SIDE && 0 <= x2 < SIDE && #[trigger] wired_column(x1, y)
                == #[trigger] wired_column(x2, y) ==> x1 == x2,
        forall|col: int| 0 <= col < SIDE ==> #[trigger] column_reached(y, col),
{
    assert forall|col: int| 0 <= col < SIDE implies #[trigger] column_reached(y, col) by {
        let x = wired_column(col, y);
        assert(0 <= x < SIDE && wired_column(x, y) == col);
    }
}

/// Wiring a column twice gives the column back: the mirroring of odd rows
/// undoes itself, and even rows are left alone.
pub proof fn lemma_wired_column_involutive(x: int, y: int)
    ensures
        wired_column(wired_column(x, y), y) == x,
{
}

/// Every cell of the board has a pixel of its own on the strip.
pub proof fn lemma_strip_index_injective(a: Cell, b: Cell)
    requires
        in_grid(a),
        in_grid(b),
        strip_index(a) == strip_index(b),
    ensures
        a == b,
        0 <= strip_index(a) < CELLS,
{
}

/// Reading order numbers the cells of the board from 0 to 63, and `cell_at`
/// finds each cell again from its number.
pub proof fn lemma_rank_on_board(c: Cell)
    requires
        in_grid(c),
    ensures
        0 <= rank(c) < CELLS,
        cell_at(rank(c)) == c,
{
}

/// Each number from 0 to 63 is the rank of the cell that `cell_at` gives for it.
pub proof fn lemma_cell_at_on_board(i: int)
    requires
        0 <= i < CELLS,
    ensures
        in_grid(cell_at(i)),
        rank(cell_at(i)) == i,
{
}

/// Counting on the board: distinct cells of the board number at most 64, and
/// exactly 64 of them if and only if every cell of the board is among them.
pub proof fn lemma_distinct_cells(cells: Seq<Cell>)
    requires
        cells.no_duplicates(),
        forall|i: int| 0 <= i < cells.len() ==> in_grid(#[trigger] cells[i]),
    ensures
        cells.len() <= CELLS,
        cells.len() == CELLS <==> (forall|c: Cell| in_grid(c) ==> cells.contains(c)),
{
    // The ranks of the cells are as many distinct numbers below 64.
    let ranks = cells.map_values(|c: Cell| rank(c));
    let all = set_int_range(0, CELLS as int);
    lemma_int_range(0, CELLS as int);
    assert(ranks.no_duplicates());
    ranks.unique_seq_to_set();
    assert(ranks.to_set().subset_of(all));
    lemma_len_subset(ranks.to_set(), all);
    if cells.len() == CELLS {
        // 64 distinct numbers below 64 are all of them.
        lemma_subset_equality(ranks.to_set(), all);
        assert forall|c: Cell| in_grid(c) implies cells.contains(c) by {
            assert(ranks.to_set().contains(rank(c)));
        }
    }
    if forall|c: Cell| in_grid(c) ==> cells.contains(c) {
        assert forall|r: int| all.contains(r) implies ranks.to_set().contains(r) by {
            lemma_cell_at_on_board(r);
            let i = choose|i: int| 0 <= i < cells.len() && cells[i] == cell_at(r);
            assert(ranks[i] == r);
        }
        assert(ranks.to_set() =~= all);
    }
}

} // verus!
