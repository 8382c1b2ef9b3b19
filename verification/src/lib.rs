//! Backend for Conway's Game of Life on a fixed-size, non-wrapping grid.
//!
//! The grid does not expand and its boundaries are hard edges: a cell in the
//! first column has no neighbour to its left. Each cell's neighbour
//! coordinates are precomputed once when the grid is constructed, and
//! [`Grid::advance`] applies the standard B3/S23 birth/survival rule to all
//! cells simultaneously, reading only the previous generation's state.
//!
//! Displaying the grid is out of scope; a front end can read the live cells
//! through [`Grid::alive_cells`].

pub mod grid;
pub mod object;

pub use grid::Cell;
pub use grid::Grid;
pub use grid::OutOfBoundsError;
pub use object::LoadObjectError;
pub use object::Object;
