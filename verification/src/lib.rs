//! Conway's Game of Life on a fixed, bounded grid.
//!
//! A [`world::World`] owns one [`cell::Cell`] per grid position, advances all
//! of them by one generation at a time and renders the grid as text. What the
//! executable code does is stated against the mathematical model in [`grid`].

pub mod cell;
mod chance;
pub mod grid;
pub mod patterns;
pub mod rules;
pub mod world;
