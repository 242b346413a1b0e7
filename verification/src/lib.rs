//! Snake on an 8×8 serpentine-wired LED matrix: the board geometry, the game's
//! state machine and the frame buffer, each with a machine-checked contract.

pub mod grid;
pub mod snake;
pub mod apple;
pub mod game;
pub mod matrix;
pub mod control;
