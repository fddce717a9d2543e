//! Dots and boxes: the board, the rules of a move, the turn order, the end of
//! the game and its winners, and the text form in which a game is saved.
//!
//! Everything here is verified, with one fact taken on trust from the
//! standard library: what `String::push` does. Reading arguments, files and
//! the terminal is left to the program that uses this library.

pub mod board;
pub mod configuration;
pub mod error_handler;
pub mod game;
pub mod grid;
pub mod notation;
pub mod score;
pub mod text;
