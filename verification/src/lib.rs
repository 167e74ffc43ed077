//! A verified engine for Conway's Game of Life on a finite rectangular grid.
//!
//! The library holds the grid model, the neighbor-counting rule and the
//! generation-transition algorithm; rendering and input polling are left to
//! the surrounding program.

pub mod engine;
pub mod grid;
