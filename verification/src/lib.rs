//! Connect Four on a 6x7 grid: the board, win detection, and a depth-limited
//! minimax engine with alpha-beta pruning, verified with Verus.
//!
//! - [`grid`] is the mathematical model: a grid of cell values, the drop of a
//!   piece, lines of four, gravity.
//! - [`board`] is the board itself, [`ConnectFour`], whose contracts speak of
//!   the model.
//! - [`search`] says what the engine computes: the minimax value, the value
//!   that a pruned search returns, and the proof that pruning is sound.
//! - [`engine`] is the automated player, [`BotPlayer`].
//! - [`random`] holds the one call that is trusted rather than proved: the
//!   random choice among equally good moves.
//! - [`laws`] states and proves what holds of all games.
//!
//! A cell holds [`EMPTY`], [`PLAYER`] (the human) or [`BOT`] (the automated
//! player). Among moves that score alike the engine chooses at random, with a
//! generator that the caller hands in.

pub mod grid;
pub mod board;
pub mod search;
pub mod random;
pub mod engine;
pub mod laws;

pub use board::ConnectFour;
pub use engine::BotPlayer;
pub use grid::{BOT, COLS, EMPTY, PLAYER, ROWS};
