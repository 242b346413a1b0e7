//! One turn of the control loop: play a tick, then draw what is to be shown.
//!
//! Reading the joystick, sending the frame and sleeping are left to the
//! caller; everything that is decided in between is here.

use vstd::prelude::*;
use crate::game::{GameState, GameView, Status};
use crate::grid::{in_grid, lemma_strip_index_injective, strip_index, Cell, CELLS};
use crate::matrix::{apple_color, background, body_color, wired_to, Color, UnicornHAT};

verus! {

/// Time between two ticks, in milliseconds.
pub const TICK_MS: u16 = 500;

/// Time to wait before the first tick, in milliseconds.
pub const START_DELAY_MS: u16 = 2000;

/// The picture of a game: each pixel shows the snake if one of the snake's
/// cells is wired to it, else the apple if the apple is, else nothing.
pub open spec fn frame_of(v: GameView) -> Seq<Color> {
    Seq::new(
        CELLS as nat,
        |p: int|
            if wired_to(v.snake, p) {
                body_color()
            } else if v.apple matches Some(a) && strip_index(a) == p {
                apple_color()
            } else {
                background()
            },
    )
}

/// The picture shows the board: the pixel of each cell has the colour of what
/// lies on that cell, whichever way its row is wired.
pub proof fn lemma_frame_shows_board(v: GameView, c: Cell)
    requires
        v.wf(),
        in_grid(c),
    ensures
        0 <= strip_index(c) < CELLS,
        frame_of(v)[strip_index(c)] == (if v.snake.contains(c) {
            body_color()
        } else if v.apple == Some(c) {
            apple_color()
        } else {
            background()
        }),
{
    let p = strip_index(c);
    if wired_to(v.snake, p) {
        let i = choose|i: int| 0 <= i < v.snake.len() && strip_index(#[trigger] v.snake[i]) == p;
        lemma_strip_index_injective(v.snake[i], c);
    }
    if v.snake.contains(c) {
        let i = choose|i: int| 0 <= i < v.snake.len() && v.snake[i] == c;
        assert(strip_index(v.snake[i]) == p);
    }
    if let Some(a) = v.apple {
        if strip_index(a) == p {
            lemma_strip_index_injective(a, c);
        }
    }
}

/// Draws the game into the frame buffer, over whatever was there.
pub fn draw(hat: &mut UnicornHAT, game: &GameState)
    requires
        game@.wf(),
    ensures
        final(hat)@ == frame_of(game@),
{
    hat.set_all(background());
    match game.apple() {
        Some(a) => {
            hat.set_at(a.0, a.1, apple_color());
        },
        None => {},
    }
    hat.set_snake(game.snake());
}

/// Plays one tick with the joystick samples `x` and `y`. While the game goes
/// on, the frame buffer then holds its picture, to be sent before sleeping
/// for `TICK_MS`. Once the game is over the frame buffer is left alone, and
/// the caller halts.
pub fn tick(game: &mut GameState, hat: &mut UnicornHAT, x: u16, y: u16) -> (status: Status)
    requires
        old(game)@.wf(),
    ensures
        final(game)@ == old(game)@.stepped(x, y),
        final(game)@.wf(),
        status == final(game)@.status,
        status == Status::Running ==> final(hat)@ == frame_of(final(game)@),
        status != Status::Running ==> final(hat)@ == old(hat)@,
{
    let status = game.step(x, y);
    if status == Status::Running {
        draw(hat, game);
    }
    status
}

} // verus!
