//! Two grid-based turn games built on one generic board container.
//!
//! [`grid::Board`] is a rectangular container with bounds-checked access
//! and value-semantics cloning. [`minefield::MineField`] layers the
//! Minesweeper cell lifecycle on it: mine placement, neighbour counting,
//! reveal and flag moves, and the win test. [`chomp::ChompGame`] layers
//! the game Chomp on a boolean board: the L-shaped chomp move, the loss
//! test, an exhaustive search for a forced winning move, and a greedy
//! fallback move.

pub mod chomp;
pub mod grid;
pub mod minefield;

pub use chomp::ChompGame;
pub use chomp::ChompOutcome;
pub use chomp::MoveKind;
pub use grid::Board;
pub use minefield::GameError;
pub use minefield::MineField;
pub use minefield::MinesweeperSquare;
pub use minefield::RevealOutcome;
pub use minefield::SquareState;
