//! Conway's Game of Life on a fixed-size toroidal grid.
//!
//! The engine owns a `width x height` cell buffer plus an equally shaped
//! scratch buffer, steps one generation at a time with wraparound neighbor
//! counting, and exposes the current generation for external rendering.

pub mod rules;
pub mod universe;

pub use rules::Cell;
pub use universe::GridError;
pub use universe::Universe;
