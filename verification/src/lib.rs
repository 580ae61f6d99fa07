//! Dense square matrices and four interchangeable multiplication strategies.
//!
//! Every strategy accumulates each output cell in the same ascending order of
//! the summation index, so all of them return the same matrix, element for
//! element, for any element type, even one whose addition is not associative.

pub mod element;
pub mod error;
pub mod laws;
pub mod matrix;
pub mod multiply;
pub mod table;
pub mod view;

pub use element::Element;
pub use error::MatrixError;
pub use matrix::{Matrix, BLOCK};
pub use multiply::{multiply, multiply_blocked, multiply_iter, multiply_rayon};
pub use table::ELEMENT_SIZE;
pub use view::MatrixView;
