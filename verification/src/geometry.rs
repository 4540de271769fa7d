//! Matrix storage, views over it, and the arithmetic they are built on.

pub mod algebra;
pub mod dynamic_linear_object;
pub mod linear_object;
pub mod static_linear_object;
pub mod views;
