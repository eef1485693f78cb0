//! Dense row-major matrices with verified structural and arithmetic operations.
pub mod model;
pub mod element;
pub mod random;
pub mod laws;
mod cycles;
pub mod matrix;
pub mod layout;
