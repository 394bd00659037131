//! Conway's Game of Life on a torus: a rectangular board of binary cells
//! whose last row and column are adjacent to the first, advanced one
//! generation at a time.

pub mod board;
pub mod frame;
pub mod modular;
pub mod neighbours;
pub mod patterns;
pub mod seed;
pub mod step;
