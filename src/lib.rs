//! Conway's Game of Life on a fixed-size toroidal grid.
//!
//! The grid is held in row-major order and advanced one generation at a time.
//! Every executable operation is proved against the mathematical model
//! [`GridModel`], and the proof functions re-exported here state the laws
//! that the model obeys.

mod universe;

pub use universe::{Cell, GridError, Universe, DEFAULT_HEIGHT, DEFAULT_WIDTH};
pub use universe::{glyph, next_state, seed_cell, GridModel};
pub use universe::{lemma_after_keeps_dimensions, lemma_block_still_life, lemma_corners_are_neighbors};
