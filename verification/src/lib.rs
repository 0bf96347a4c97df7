//! A rotating torus drawn as text.
//!
//! The crate holds the decisions of the renderer: which screen cell a
//! projected sample falls into and whether it is nearer than what the cell
//! already shows, which glyph a brightness stands for, which characters and
//! cursor movements turn the frame on the screen into the next one, and when
//! the loop that shows the frames renders, sleeps and stops.
//!
//! - [`scalar`]: binary64 numbers as bit patterns, their order and the cell
//!   that a coordinate falls into.
//! - [`grid`]: rectangular fields of cells.
//! - [`donut`]: the torus's parameters, their validation, and the rasterizer
//!   with its depth test.
//! - [`glyph`]: the mapping from brightness to glyphs.
//! - [`paint`]: the text of a differential paint and of a full one.
//! - [`terminal`]: a model of the terminal, and the proofs that painting
//!   shows the frame and alters only the cells that differ.
//! - [`canvas`]: the renderer's state and the frame driver.

pub mod scalar;
pub mod grid;
pub mod donut;
pub mod glyph;
pub mod paint;
pub mod terminal;
pub mod canvas;
