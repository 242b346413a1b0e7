//! The game: steering by joystick, one move per tick, growth on the apple and
//! the two ways to lose.

use vstd::prelude::*;
use crate::apple::{lemma_next_apple, next_apple, place_apple};
use crate::grid::{in_grid, lemma_distinct_cells, on_grid, Cell, CELLS};
use crate::snake::{
    lemma_grown, lemma_moved_on, ring_new, ring_pop_front, ring_push_back, valid_body, Snake,
};

verus! {

/// Largest sample that a joystick axis delivers.
pub const JOY_MAX: u16 = 1023;

/// Distance from either end of an axis within which the stick counts as pushed.
pub const DEADZONE: u16 = 100;

/// The way the snake is heading.
#[derive(Clone, Copy, PartialEq, Eq, Structural, Debug)]
pub enum Direction {
    Up,
    Down,
    Left,
    Right,
}

/// Whether the game goes on, and if not, how it ended.
#[derive(Clone, Copy, PartialEq, Eq, Structural, Debug)]
pub enum Status {
    Running,
    GameOverWall,
    GameOverSelf,
}

/// The heading after one sample of both axes. The x axis is looked at first;
/// a stick at rest keeps the heading.
pub open spec fn steered(current: Direction, x: u16, y: u16) -> Direction {
    if x >= JOY_MAX - DEADZONE {
        Direction::Right
    } else if x <= DEADZONE {
        Direction::Left
    } else if y >= JOY_MAX - DEADZONE {
        Direction::Up
    } else if y <= DEADZONE {
        Direction::Down
    } else {
        current
    }
}

/// One more than `v`, wrapping to 0 past the largest `usize`.
pub open spec fn wrapping_succ(v: usize) -> usize {
    if v == usize::MAX {
        0
    } else {
        (v + 1) as usize
    }
}

/// One less than `v`, wrapping to the largest `usize` below 0.
pub open spec fn wrapping_pred(v: usize) -> usize {
    if v == 0 {
        usize::MAX
    } else {
        (v - 1) as usize
    }
}

/// The position one step from `head` in direction `d`. Stepping off the low
/// edge wraps round to the largest `usize`, which is off the board.
pub open spec fn moved(head: Cell, d: Direction) -> Cell {
    match d {
        Direction::Up => (head.0, wrapping_succ(head.1)),
        Direction::Down => (head.0, wrapping_pred(head.1)),
        Direction::Left => (wrapping_pred(head.0), head.1),
        Direction::Right => (wrapping_succ(head.0), head.1),
    }
}

/// Reads the joystick: which way the snake heads after the samples `x` and `y`.
pub fn steer(current: Direction, x: u16, y: u16) -> (d: Direction)
    ensures
        d == steered(current, x, y),
{
    if x >= JOY_MAX - DEADZONE {
        Direction::Right
    } else if x <= DEADZONE {
        Direction::Left
    } else if y >= JOY_MAX - DEADZONE {
        Direction::Up
    } else if y <= DEADZONE {
        Direction::Down
    } else {
        current
    }
}

/// Moves one step from `head`, with wrapping arithmetic; the result may lie
/// off the board.
pub fn advance(head: Cell, d: Direction) -> (c: Cell)
    ensures
        c == moved(head, d),
{
    match d {
        Direction::Up => (head.0, head.1.wrapping_add(1)),
        Direction::Down => (head.0, head.1.wrapping_sub(1)),
        Direction::Left => (head.0.wrapping_sub(1), head.1),
        Direction::Right => (head.0.wrapping_add(1), head.1),
    }
}

/// A game between two ticks.
pub struct GameState {
    snake: Snake,
    direction: Direction,
    apple: Option<Cell>,
    ticks: u32,
    status: Status,
}

/// What a game state is, as mathematics.
pub struct GameView {
    /// The snake from the tail (index 0) to the head (last).
    pub snake: Seq<Cell>,
    /// The heading taken at the last move.
    pub direction: Direction,
    /// The apple; there is none once the snake covers the board.
    pub apple: Option<Cell>,
    /// Number of moves attempted so far, wrapping at the width of `u32`.
    pub ticks: u32,
    /// Whether the game is on, and how it ended.
    pub status: Status,
}

impl View for GameState {
    type V = GameView;

    closed spec fn view(&self) -> GameView {
        GameView {
            snake: self.snake@,
            direction: self.direction,
            apple: self.apple,
            ticks: self.ticks,
            status: self.status,
        }
    }
}

/// The state in which every game starts: a snake of three cells in row 4 that
/// heads right, and the apple at (2, 2).
pub open spec fn initial() -> GameView {
    GameView {
        snake: seq![(4usize, 4usize), (5usize, 4usize), (6usize, 4usize)],
        direction: Direction::Right,
        apple: Some((2usize, 2usize)),
        ticks: 0,
        status: Status::Running,
    }
}

/// Whether a snake with these cells and an apple at `apple` make a legal board.
pub open spec fn valid_layout(cells: Seq<Cell>, apple: Cell) -> bool {
    valid_body(cells) && in_grid(apple) && !cells.contains(apple)
}

impl GameView {
    /// The invariant of the game: the snake is a valid body, the apple lies on
    /// the board and off the snake, and it is missing only when the snake
    /// leaves it no room.
    pub open spec fn wf(self) -> bool {
        &&& valid_body(self.snake)
        &&& self.apple matches Some(a) ==> in_grid(a) && !self.snake.contains(a)
        &&& self.apple is None ==> self.snake.len() == CELLS
    }

    /// The snake's head.
    pub open spec fn head(self) -> Cell {
        self.snake.last()
    }

    /// Where the head would go on the samples `x` and `y`.
    pub open spec fn target(self, x: u16, y: u16) -> Cell {
        moved(self.head(), steered(self.direction, x, y))
    }

    /// Whether a tick with the samples `x` and `y` moves the head onto the apple.
    pub open spec fn eats(self, x: u16, y: u16) -> bool {
        self.status == Status::Running && self.apple == Some(self.target(x, y))
    }

    /// The state after one tick with the samples `x` and `y`.
    ///
    /// A game that is over stays as it is. Otherwise the stick is read and the
    /// head moves one step. Off the board, or onto any cell of the snake, the
    /// game is over and the snake stays where it was. Onto the apple, the
    /// snake grows by the new head and the apple is placed anew. Anywhere
    /// else, the snake gains the new head and loses its tail.
    pub open spec fn stepped(self, x: u16, y: u16) -> GameView {
        let direction = steered(self.direction, x, y);
        let head = self.target(x, y);
        let ticks = if self.ticks == u32::MAX {
            0u32
        } else {
            (self.ticks + 1) as u32
        };
        if self.status != Status::Running {
            self
        } else if !in_grid(head) {
            GameView { direction, ticks, status: Status::GameOverWall, ..self }
        } else if self.snake.contains(head) {
            GameView { direction, ticks, status: Status::GameOverSelf, ..self }
        } else if self.apple == Some(head) {
            let snake = self.snake.push(head);
            GameView { snake, direction, apple: next_apple(snake, head), ticks, ..self }
        } else {
            GameView { snake: self.snake.drop_first().push(head), direction, ticks, ..self }
        }
    }

    /// The state after one tick for each pair of samples in `inputs`, in order.
    pub open spec fn run(self, inputs: Seq<(u16, u16)>) -> GameView
        decreases inputs.len(),
    {
        if inputs.len() == 0 {
            self
        } else {
            self.run(inputs.drop_last()).stepped(inputs.last().0, inputs.last().1)
        }
    }
}

/// A tick keeps the invariant: the snake stays on the board and free of
/// overlaps, and the apple stays off the snake.
pub proof fn lemma_step_keeps_wf(v: GameView, x: u16, y: u16)
    requires
        v.wf(),
    ensures
        v.stepped(x, y).wf(),
{
    let head = v.target(x, y);
    if v.status == Status::Running && in_grid(head) && !v.snake.contains(head) {
        if v.apple == Some(head) {
            lemma_grown(v.snake, head);
            lemma_next_apple(v.snake.push(head), head);
            lemma_distinct_cells(v.snake.push(head));
        } else {
            lemma_moved_on(v.snake, head);
        }
    }
}

/// Once the snake covers the board, the next tick ends the game: there is no
/// cell left to move to.
pub proof fn lemma_full_board_ends(v: GameView, x: u16, y: u16)
    requires
        v.wf(),
        v.snake.len() == CELLS,
    ensures
        v.stepped(x, y).status != Status::Running,
{
    lemma_distinct_cells(v.snake);
}

/// Every state that a valid state reaches by ticks is valid, whatever the
/// joystick does.
pub proof fn lemma_run_keeps_wf(v: GameView, inputs: Seq<(u16, u16)>)
    requires
        v.wf(),
    ensures
        v.run(inputs).wf(),
    decreases inputs.len(),
{
    if inputs.len() > 0 {
        lemma_run_keeps_wf(v, inputs.drop_last());
        lemma_step_keeps_wf(v.run(inputs.drop_last()), inputs.last().0, inputs.last().1);
    }
}

/// In every state that a game reaches from its start, the snake lies on the
/// board, no two of its cells are equal, and the apple is not on it.
pub proof fn lemma_reachable(inputs: Seq<(u16, u16)>)
    ensures
        forall|i: int|
            0 <= i < initial().run(inputs).snake.len() ==> in_grid(
                #[trigger] initial().run(inputs).snake[i],
            ),
        initial().run(inputs).snake.no_duplicates(),
        initial().run(inputs).apple matches Some(a) ==> !initial().run(inputs).snake.contains(a),
{
    lemma_run_keeps_wf(initial(), inputs);
}

/// Growth: a tick that moves the head onto the apple makes the snake one cell
/// longer and puts the apple somewhere else.
pub proof fn lemma_growth(v: GameView, x: u16, y: u16)
    requires
        v.wf(),
        v.eats(x, y),
    ensures
        v.stepped(x, y).snake.len() == v.snake.len() + 1,
        v.stepped(x, y).apple != v.apple,
        v.stepped(x, y).status == Status::Running,
{
    let head = v.target(x, y);
    let grown = v.snake.push(head);
    lemma_next_apple(grown, head);
    assert(grown.last() == head);
}

/// No growth: a tick that does not move the head onto the apple leaves the
/// length of the snake as it was.
pub proof fn lemma_no_growth(v: GameView, x: u16, y: u16)
    requires
        v.wf(),
        !v.eats(x, y),
    ensures
        v.stepped(x, y).snake.len() == v.snake.len(),
{
}

/// A game that is over stays over, and nothing in it changes any more.
pub proof fn lemma_game_over_absorbs(v: GameView, x: u16, y: u16)
    ensures
        v.status != Status::Running ==> v.stepped(x, y) == v,
        v.stepped(x, y).status == Status::Running ==> v.status == Status::Running,
{
}

impl GameState {
    /// Starts a game.
    pub fn new() -> (game: GameState)
        ensures
            game@ == initial(),
            game@.wf(),
    {
        let mut snake = ring_new();
        ring_push_back(&mut snake, (4, 4)).unwrap();
        ring_push_back(&mut snake, (5, 4)).unwrap();
        ring_push_back(&mut snake, (6, 4)).unwrap();
        proof {
            assert(snake@ =~= initial().snake);
        }
        GameState {
            snake,
            direction: Direction::Right,
            apple: Some((2, 2)),
            ticks: 0,
            status: Status::Running,
        }
    }

    /// Sets up a running game with the snake on `cells`, tail first and head
    /// last, heading in `direction`, and the apple at `apple`. Gives `None`
    /// unless that is a legal board.
    pub fn with_layout(cells: &[Cell], direction: Direction, apple: Cell) -> (r: Option<GameState>)
        ensures
            r is Some <==> valid_layout(cells@, apple),
            r matches Some(game) ==> game@ == (GameView {
                snake: cells@,
                direction,
                apple: Some(apple),
                ticks: 0,
                status: Status::Running,
            }) && game@.wf(),
    {
        let n = cells.len();
        if n == 0 || n > CELLS {
            return None;
        }
        let mut snake = ring_new();
        let mut i: usize = 0;
        while i < n
            invariant
                i <= n <= CELLS,
                n == cells@.len(),
                snake@ == cells@.take(i as int),
                snake@.no_duplicates(),
                forall|j: int| 0 <= j < i ==> in_grid(#[trigger] cells@[j]),
            decreases n - i,
        {
            let c = cells[i];
            if !on_grid(c) {
                return None;
            }
            if snake.contains(c) {
                proof {
                    // The cell is in `cells` twice: before `i` and at `i`.
                    let j = choose|j: int| 0 <= j < snake@.len() && snake@[j] == c;
                    assert(cells@[j] == cells@[i as int] && j != i);
                }
                return None;
            }
            ring_push_back(&mut snake, c).unwrap();
            proof {
                assert(snake@ =~= cells@.take(i + 1));
            }
            i += 1;
        }
        proof {
            assert(cells@.take(n as int) =~= cells@);
        }
        if !on_grid(apple) || snake.contains(apple) {
            return None;
        }
        Some(GameState { snake, direction, apple: Some(apple), ticks: 0, status: Status::Running })
    }

    /// The snake.
    pub fn snake(&self) -> (snake: &Snake)
        ensures
            snake@ == self@.snake,
    {
        &self.snake
    }

    /// The heading taken at the last move.
    pub fn direction(&self) -> (d: Direction)
        ensures
            d == self@.direction,
    {
        self.direction
    }

    /// The apple, if the board has room for one.
    pub fn apple(&self) -> (a: Option<Cell>)
        ensures
            a == self@.apple,
    {
        self.apple
    }

    /// Number of moves attempted so far.
    pub fn ticks(&self) -> (t: u32)
        ensures
            t == self@.ticks,
    {
        self.ticks
    }

    /// Whether the game is on, and how it ended.
    pub fn status(&self) -> (s: Status)
        ensures
            s == self@.status,
    {
        self.status
    }

    /// Plays one tick with the joystick samples `x` and `y`, and reports
    /// whether the game goes on.
    pub fn step(&mut self, x: u16, y: u16) -> (status: Status)
        requires
            old(self)@.wf(),
        ensures
            final(self)@ == old(self)@.stepped(x, y),
            status == final(self)@.status,
            final(self)@.wf(),
            old(self)@.eats(x, y) ==> final(self)@.snake.len() == old(self)@.snake.len() + 1
                && final(self)@.apple != old(self)@.apple,
            !old(self)@.eats(x, y) ==> final(self)@.snake.len() == old(self)@.snake.len(),
            old(self)@.status != Status::Running ==> final(self)@ == old(self)@,
    {
        if self.status != Status::Running {
            return self.status;
        }
        self.direction = steer(self.direction, x, y);
        self.ticks = self.ticks.wrapping_add(1);
        let head = advance(self.snake.head().unwrap(), self.direction);
        if !on_grid(head) {
            self.status = Status::GameOverWall;
            return self.status;
        }
        if self.snake.contains(head) {
            self.status = Status::GameOverSelf;
            return self.status;
        }
        let eaten = match self.apple {
            Some(a) => a.0 == head.0 && a.1 == head.1,
            None => false,
        };
        if !eaten {
            ring_pop_front(&mut self.snake);
        }
        proof {
            // With a free cell ahead the snake is shorter than the ring is large.
            lemma_grown(old(self)@.snake, head);
        }
        ring_push_back(&mut self.snake, head).unwrap();
        if eaten {
            self.apple = place_apple(&self.snake, head);
        }
        proof {
            lemma_step_keeps_wf(old(self)@, x, y);
            if eaten {
                lemma_growth(old(self)@, x, y);
            }
        }
        self.status
    }
}

} // verus!
