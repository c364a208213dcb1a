//! A snake game on a bounded rectangular board, with an optional carved maze.
//!
//! The crate holds the rules of the game and nothing of the terminal:
//!
//! - [`point`], [`direction`] and [`board`]: the geometry;
//! - [`snake`]: the body of the snake and how it moves, grows and turns;
//! - [`grid`], [`carving`], [`paths`] and [`maze`]: wall grids, what a
//!   carved grid is, why it is a tree, and the generator that carves and
//!   erodes one;
//! - [`spawn`]: where a snake can start in a maze;
//! - [`game`]: the state of a game and the step from one tick to the next;
//! - [`render`] and [`text`]: the frame of text that shows a game;
//! - [`key`], [`config`] and [`chance`]: the keys, the settings and the
//!   probabilities that a game is given.
//!
//! Every function is verified against its contract. What is taken on trust
//! are the draws of random numbers, gathered in the module `random`.

pub mod board;
pub mod carving;
pub mod chance;
pub mod config;
pub mod direction;
pub mod game;
pub mod grid;
pub mod key;
pub mod maze;
pub mod paths;
pub mod point;
mod random;
pub mod render;
pub mod snake;
pub mod spawn;
pub mod text;
