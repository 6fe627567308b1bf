//! A deterministic Snakes and Ladders engine: a rectangular numbered board,
//! multiple players moved by a cyclic, pre-declared die sequence, with
//! ladders, snakes, three single-use powerups, chained bump collisions and
//! win detection.

pub mod power;
pub mod player;
pub mod board;
pub mod game;
pub mod command;
pub mod laws;
pub mod render;

