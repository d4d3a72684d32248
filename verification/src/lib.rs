//! The evaluation core of a small spreadsheet engine: cell text is parsed into
//! typed values, formulas and references are resolved against a grid, and a
//! function library combines resolved values.

pub mod coordinate;
pub mod dataframe;
pub mod error;
pub mod function;
pub mod functions;
pub mod gather;
pub mod grid;
pub mod number;
pub mod parse;
pub mod resolve;
pub mod stamp;
pub mod text;
pub mod value;

pub use crate::dataframe::DataFrame;
pub use crate::function::FUNCTION;
pub use crate::value::{solve_function, Value};
