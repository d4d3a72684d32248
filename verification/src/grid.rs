//! The rectangular store of values: a two-dimensional `ndarray` array, reached
//! through a handful of its methods.

use vstd::prelude::*;
use crate::resolve::GridView;
use crate::value::{views_of, Value, ValueView};

verus! {

/// `ndarray::ShapeError`, the error of `Array2::from_shape_vec`.
#[verifier::external_type_specification]
#[verifier::external_body]
pub struct ExShapeError(ndarray::ShapeError);

/// A two-dimensional array of values in the layout that `ndarray` gives it by
/// default, one row after the other.
#[verifier::external_body]
#[derive(Debug, PartialEq)]
pub struct Grid {
    cells: ndarray::Array2<Value>,
}

/// The length of the first axis of the array.
pub uninterp spec fn grid_rows(grid: Grid) -> nat;

/// The length of the second axis of the array.
pub uninterp spec fn grid_columns(grid: Grid) -> nat;

/// The contents of the elements of the array, row by row: the element at
/// `(row, column)` stands at index `row * grid_columns + column`.
pub uninterp spec fn grid_cells(grid: Grid) -> Seq<ValueView>;

impl View for Grid {
    type V = GridView;

    open spec fn view(&self) -> GridView {
        GridView { rows: grid_rows(*self), columns: grid_columns(*self), cells: grid_cells(*self) }
    }
}

/// `ndarray` makes an array of this shape: the product of its axis lengths
/// other than zero does not exceed `isize::MAX`.
pub open spec fn shape_fits(rows: nat, columns: nat) -> bool {
    (if rows == 0 {
        1
    } else {
        rows
    }) * (if columns == 0 {
        1
    } else {
        columns
    }) <= isize::MAX
}

impl Grid {
    /// `Array2::from_shape_vec` with the shape `(rows, columns)`. It succeeds
    /// when the shape is one that `ndarray` makes and has as many elements as
    /// `cells`; the array then has that shape and holds `cells` row by row.
    #[verifier::external_body]
    pub(crate) fn build(rows: usize, columns: usize, cells: Vec<Value>) -> (r: Result<
        Grid,
        ndarray::ShapeError,
    >)
        ensures
            r is Ok <==> (cells.len() == rows * columns && shape_fits(rows as nat, columns as nat)),
            r is Ok ==> grid_rows(r->Ok_0) == rows && grid_columns(r->Ok_0) == columns
                && grid_cells(r->Ok_0) == views_of(cells@),
    {
        match ndarray::Array2::from_shape_vec((rows, columns), cells) {
            Ok(cells) => Ok(Grid { cells }),
            Err(e) => Err(e),
        }
    }

    /// `ArrayBase::nrows`.
    #[verifier::external_body]
    pub(crate) fn rows(&self) -> (r: usize)
        ensures
            r == grid_rows(*self),
    {
        self.cells.nrows()
    }

    /// `ArrayBase::ncols`.
    #[verifier::external_body]
    pub(crate) fn columns(&self) -> (r: usize)
        ensures
            r == grid_columns(*self),
    {
        self.cells.ncols()
    }

    /// `ArrayBase::get` with the index `(row, column)`: the element there, or
    /// `None` where the index is outside the array.
    #[verifier::external_body]
    pub(crate) fn get(&self, row: usize, column: usize) -> (r: Option<&Value>)
        ensures
            r is Some <==> (row < grid_rows(*self) && column < grid_columns(*self)),
            r is Some ==> r->0@ == grid_cells(*self)[row * grid_columns(*self) + column],
    {
        self.cells.get((row, column))
    }

    /// Assignment through `IndexMut` with the index `(row, column)`: that
    /// element becomes `value`, and nothing else changes. Inside the array
    /// the assignment does not panic.
    #[verifier::external_body]
    pub(crate) fn put(&mut self, row: usize, column: usize, value: Value)
        requires
            row < grid_rows(*old(self)),
            column < grid_columns(*old(self)),
        ensures
            grid_rows(*final(self)) == grid_rows(*old(self)),
            grid_columns(*final(self)) == grid_columns(*old(self)),
            grid_cells(*final(self)) == grid_cells(*old(self)).update(
                row * grid_columns(*old(self)) + column,
                value@,
            ),
        no_unwind
    {
        self.cells[(row, column)] = value;
    }
}

} // verus!
