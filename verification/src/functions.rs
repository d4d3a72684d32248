//! The library of functions: each takes two simple values and gives one.

pub mod add;
pub mod concat;
