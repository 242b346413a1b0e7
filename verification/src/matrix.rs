//! The frame buffer of the LED matrix: 64 colours in the order in which the
//! strip is wired.

use vstd::prelude::*;
use crate::grid::{in_grid, strip_index, Cell, CELLS, SIDE};
use crate::snake::Snake;

verus! {

/// One pixel's colour, eight bits for each of red, green and blue.
#[derive(Clone, Copy, PartialEq, Eq, Structural, Debug)]
pub struct Color {
    pub r: u8,
    pub g: u8,
    pub b: u8,
}

/// A pixel that is switched off: the colour of the empty board.
#[verifier::allow_in_spec]
pub fn background() -> Color
    returns
        (Color { r: 0, g: 0, b: 0 }),
{
    Color { r: 0, g: 0, b: 0 }
}

/// The colour of the snake.
#[verifier::allow_in_spec]
pub fn body_color() -> Color
    returns
        (Color { r: 32, g: 0, b: 0 }),
{
    Color { r: 32, g: 0, b: 0 }
}

/// The colour of the apple.
#[verifier::allow_in_spec]
pub fn apple_color() -> Color
    returns
        (Color { r: 0, g: 32, b: 0 }),
{
    Color { r: 0, g: 32, b: 0 }
}

/// The frame that shows `c` on every pixel.
pub open spec fn uniform(c: Color) -> Seq<Color> {
    Seq::new(CELLS as nat, |p: int| c)
}

/// Whether one of `cells` is shown by the pixel at position `p` of the strip.
pub open spec fn wired_to(cells: Seq<Cell>, p: int) -> bool {
    exists|i: int| 0 <= i < cells.len() && strip_index(#[trigger] cells[i]) == p
}

/// The frame `frame` with the pixel of each of `cells` set to `c`.
pub open spec fn painted(frame: Seq<Color>, cells: Seq<Cell>, c: Color) -> Seq<Color> {
    Seq::new(
        frame.len(),
        |p: int|
            if wired_to(cells, p) {
                c
            } else {
                frame[p]
            },
    )
}

/// The 8×8 LED matrix as the program sees it: one colour per pixel, held
/// until the frame is sent to the strip.
pub struct UnicornHAT {
    pixels: [Color; 64],
}

impl View for UnicornHAT {
    type V = Seq<Color>;

    /// The colours in strip order.
    closed spec fn view(&self) -> Seq<Color> {
        self.pixels@
    }
}

impl UnicornHAT {
    /// A matrix with every pixel off.
    pub fn new() -> (hat: UnicornHAT)
        ensures
            hat@ == uniform(background()),
    {
        UnicornHAT { pixels: [background(); 64] }
    }

    /// The frame, in the order in which the strip takes it.
    pub fn pixels(&self) -> (pixels: &[Color; 64])
        ensures
            pixels@ == self@,
    {
        &self.pixels
    }

    /// Sets the pixel that shows the cell (`x`, `y`). Rows with an odd `y` are
    /// wired from right to left.
    pub fn set_at(&mut self, x: usize, y: usize, c: Color)
        requires
            x < SIDE,
            y < SIDE,
        ensures
            final(self)@ == old(self)@.update(strip_index((x, y)), c),
    {
        if y % 2 == 0 {
            self.pixels[y * SIDE + x] = c;
        } else {
            self.pixels[y * SIDE + (SIDE - 1 - x)] = c;
        }
    }

    /// Sets every pixel to `c`.
    pub fn set_all(&mut self, c: Color)
        ensures
            final(self)@ == uniform(c),
    {
        self.pixels = [c; 64];
    }

    /// Draws the snake: the pixel of each of its cells takes the body colour,
    /// every other pixel keeps its own.
    pub fn set_snake(&mut self, snake: &Snake)
        requires
            forall|i: int| 0 <= i < snake@.len() ==> in_grid(#[trigger] snake@[i]),
        ensures
            final(self)@ == painted(old(self)@, snake@, body_color()),
    {
        let ghost before = self@;
        let n = snake.len();
        let mut i: usize = 0;
        while i < n
            invariant
                i <= n,
                n == snake@.len(),
                before.len() == CELLS,
                forall|j: int| 0 <= j < snake@.len() ==> in_grid(#[trigger] snake@[j]),
                self@ == painted(before, snake@.take(i as int), body_color()),
            decreases n - i,
        {
            match snake.get(i) {
                Some(part) => {
                    self.set_at(part.0, part.1, body_color());
                    proof {
                        // One more cell is drawn: its pixel is lit, and no other changes.
                        let done = snake@.take(i as int);
                        let more = snake@.take(i + 1);
                        assert(more[i as int] == part);
                        assert forall|p: int| 0 <= p < CELLS implies wired_to(more, p) == (wired_to(
                            done,
                            p,
                        ) || p == strip_index(part)) by {
                            if wired_to(done, p) {
                                let j = choose|j: int|
                                    0 <= j < done.len() && strip_index(#[trigger] done[j]) == p;
                                assert(more[j] == done[j]);
                            }
                        }
                    }
                },
                None => {},
            }
            i += 1;
        }
        proof {
            assert(snake@.take(n as int) =~= snake@);
        }
    }
}

} // verus!
