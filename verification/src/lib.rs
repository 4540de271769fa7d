//! Dense row-major matrices over an abstract arithmetic, with lazy row and
//! column views and a matrix product that writes into a caller-owned output.

pub mod geometry;
pub mod shaders;
