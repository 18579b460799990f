//! Conway's Game of Life on a fixed-size two-dimensional grid with
//! wraparound (toroidal) topology.
//!
//! The [`game`] module is the whole engine: it represents per-cell state,
//! computes alive-neighbor counts under wraparound, and applies the
//! Game-of-Life transition rule to advance the grid by one generation.
//! Rendering and input are left to the caller, which only reads cell state
//! and may toggle individual cells.

pub mod game;
