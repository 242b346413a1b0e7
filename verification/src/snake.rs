//! The snake's body: a fixed-capacity ring buffer of cells, tail at the front
//! and head at the back.
//!
//! The buffer itself is `arraydeque::ArrayDeque`. What this module assumes of
//! it is written on the `ring_*` functions below; every other function is
//! proved from those assumptions.

use vstd::prelude::*;
use arraydeque::ArrayDeque;
use arraydeque::CapacityError;
use crate::grid::{in_grid, lemma_distinct_cells, Cell, CELLS};

verus! {

/// `arraydeque::CapacityError`: what a push onto a full ring buffer returns.
/// Nothing is assumed of what it holds.
#[verifier::external_type_specification]
#[verifier::external_body]
#[verifier::reject_recursive_types(T)]
pub struct ExCapacityError<T>(CapacityError<T>);

/// The cells of the snake, kept in an `arraydeque::ArrayDeque` of capacity 64.
/// The buffer is hidden from the verifier, which knows it only by `ring_cells`.
#[verifier::external_body]
pub struct Snake {
    ring: ArrayDeque<[Cell; 64]>,
}

/// The cells that the ring buffer holds, from its front (index 0) to its back.
pub uninterp spec fn ring_cells(snake: Snake) -> Seq<Cell>;

impl View for Snake {
    type V = Seq<Cell>;

    /// The body from the tail (index 0) to the head (last).
    open spec fn view(&self) -> Seq<Cell> {
        ring_cells(*self)
    }
}

/// What makes a sequence of cells a snake: at least one cell and at most 64,
/// all of them on the board, and no cell twice.
pub open spec fn valid_body(cells: Seq<Cell>) -> bool {
    &&& 1 <= cells.len() <= CELLS
    &&& forall|i: int| 0 <= i < cells.len() ==> in_grid(#[trigger] cells[i])
    &&& cells.no_duplicates()
}

/// A snake that finds a free cell of the board in front of it is shorter than
/// the board is large, and stays a snake when it grows onto that cell.
pub proof fn lemma_grown(cells: Seq<Cell>, head: Cell)
    requires
        valid_body(cells),
        in_grid(head),
        !cells.contains(head),
    ensures
        cells.len() < CELLS,
        valid_body(cells.push(head)),
{
    let grown = cells.push(head);
    assert forall|i: int| 0 <= i < grown.len() implies in_grid(#[trigger] grown[i]) by {
        if i < cells.len() {
            assert(grown[i] == cells[i]);
        }
    }
    lemma_distinct_cells(grown);
}

/// A snake that moves onto a free cell of the board stays a snake, and covers
/// no cell that it did not cover before but for its new head.
pub proof fn lemma_moved_on(cells: Seq<Cell>, head: Cell)
    requires
        valid_body(cells),
        in_grid(head),
        !cells.contains(head),
    ensures
        valid_body(cells.drop_first().push(head)),
        forall|c: Cell|
            cells.drop_first().push(head).contains(c) ==> cells.contains(c) || c == head,
{
    let moved_on = cells.drop_first().push(head);
    assert forall|c: Cell| moved_on.contains(c) implies cells.contains(c) || c == head by {
        let i = choose|i: int| 0 <= i < moved_on.len() && moved_on[i] == c;
        if i < moved_on.len() - 1 {
            assert(cells[i + 1] == c);
        }
    }
}

/// `ArrayDeque::new`: a fresh ring buffer holds nothing.
#[verifier::external_body]
pub(crate) fn ring_new() -> (snake: Snake)
    ensures
        ring_cells(snake) == Seq::<Cell>::empty(),
{
    Snake { ring: ArrayDeque::new() }
}

/// `ArrayDeque::len`: the number of cells held.
#[verifier::external_body]
pub(crate) fn ring_len(snake: &Snake) -> (n: usize)
    ensures
        n == ring_cells(*snake).len(),
{
    snake.ring.len()
}

/// `ArrayDeque::get`: the cell at `index` counted from the front, or `None`
/// when `index` is not below the length.
#[verifier::external_body]
pub(crate) fn ring_get(snake: &Snake, index: usize) -> (r: Option<Cell>)
    ensures
        index < ring_cells(*snake).len() ==> r == Some(ring_cells(*snake)[index as int]),
        index >= ring_cells(*snake).len() ==> r is None,
{
    snake.ring.get(index).copied()
}

/// `ArrayDeque::back`: the cell at the back, or `None` when the buffer is empty.
#[verifier::external_body]
pub(crate) fn ring_back(snake: &Snake) -> (r: Option<Cell>)
    ensures
        ring_cells(*snake).len() > 0 ==> r == Some(ring_cells(*snake).last()),
        ring_cells(*snake).len() == 0 ==> r is None,
{
    snake.ring.back().copied()
}

/// `ArrayDeque::push_back` of the saturating kind: below the capacity of 64
/// the cell is appended at the back; at capacity the buffer stays as it is
/// and the call reports an error.
#[verifier::external_body]
pub(crate) fn ring_push_back(snake: &mut Snake, cell: Cell) -> (r: Result<
    (),
    CapacityError<Cell>,
>)
    ensures
        ring_cells(*old(snake)).len() < 64 ==> r is Ok && ring_cells(*final(snake)) == ring_cells(
            *old(snake),
        ).push(cell),
        ring_cells(*old(snake)).len() >= 64 ==> r is Err && ring_cells(*final(snake))
            == ring_cells(*old(snake)),
{
    snake.ring.push_back(cell)
}

/// `ArrayDeque::pop_front`: removes the cell at the front and returns it; an
/// empty buffer stays empty and gives `None`.
#[verifier::external_body]
pub(crate) fn ring_pop_front(snake: &mut Snake) -> (r: Option<Cell>)
    ensures
        ring_cells(*old(snake)).len() > 0 ==> r == Some(ring_cells(*old(snake))[0])
            && ring_cells(*final(snake)) == ring_cells(*old(snake)).drop_first(),
        ring_cells(*old(snake)).len() == 0 ==> r is None && ring_cells(*final(snake))
            == ring_cells(*old(snake)),
{
    snake.ring.pop_front()
}

impl Snake {
    /// Number of cells in the body.
    pub fn len(&self) -> (n: usize)
        ensures
            n == self@.len(),
    {
        ring_len(self)
    }

    /// The cell `index` steps from the tail, if the body is that long.
    pub fn get(&self, index: usize) -> (r: Option<Cell>)
        ensures
            r == (if index < self@.len() {
                Some(self@[index as int])
            } else {
                None
            }),
    {
        ring_get(self, index)
    }

    /// The head, if the body has any cell.
    pub fn head(&self) -> (r: Option<Cell>)
        ensures
            r == (if self@.len() > 0 {
                Some(self@.last())
            } else {
                None
            }),
    {
        ring_back(self)
    }

    /// Whether the body lies on `cell`.
    pub fn contains(&self, cell: Cell) -> (found: bool)
        ensures
            found == self@.contains(cell),
    {
        let n = ring_len(self);
        let mut i: usize = 0;
        while i < n
            invariant
                i <= n,
                n == self@.len(),
                forall|j: int| 0 <= j < i ==> self@[j] != cell,
            decreases n - i,
        {
            match ring_get(self, i) {
                Some(part) => {
                    if part.0 == cell.0 && part.1 == cell.1 {
                        return true;
                    }
                },
                None => {},
            }
            i += 1;
        }
        false
    }
}

} // verus!
