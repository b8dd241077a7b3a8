//! Conway's Game of Life on a bounded grid.
//!
//! - `cell`: the two cell states and their glyphs.
//! - `rules`: the generation rule as spec functions, and its laws.
//! - `game`: a flat, double-buffered grid; `board`: a grid held as rows.
//! - `codec`: the two-glyph text that saves a grid, and loading it back.
//! - `action`, `session`: the commands of an interactive session and the
//!   state machine that consumes them.
//! - `coords`: reading `x,y` coordinates and numbers from input.
//! - `wiki`: reading plaintext patterns; `display`: laying a grid out in pixels.
pub mod action;
pub mod board;
pub mod cell;
pub mod codec;
pub mod coords;
pub mod display;
pub mod game;
pub mod rules;
pub mod session;
pub mod wiki;
