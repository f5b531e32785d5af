//! Fixed-capacity buffers and matrices whose shape is part of their type.
//!
//! `array_vec` holds the buffer and its consuming cursor; `matrix` the matrix
//! with its accessors and its transpose; `grants` the splitting of one
//! exclusive borrow into borrows of single cells; `iter` the cursors over rows
//! and columns; `elementwise` the protocols that apply a function to every
//! cell; `arith` the arithmetic on matrices of integers.

pub mod arith;
pub mod array_vec;
pub mod elementwise;
pub mod grants;
pub mod iter;
pub mod matrix;

pub use crate::array_vec::{ArrayVec, IntoIter};
pub use crate::elementwise::{ForBoth, ForEach, MapCells, ZipWith};
pub use crate::matrix::{Matrix, SquareMatrix};
