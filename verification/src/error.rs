//! The ways an evaluation can end without a value.

use vstd::prelude::*;
use crate::coordinate::Coordinate;
use crate::function::FUNCTION;
use crate::number::{FloatQuery, FloatQueryView};

verus! {

/// Why a value could not be computed.
#[derive(Clone, Copy, Debug, PartialEq, Eq, Structural)]
pub enum EvalError {
    /// A function was given operands it cannot work on.
    InvalidOperands,
    /// The coordinate lies outside the grid.
    OutOfBounds(Coordinate),
    /// The corners of a region are not in order.
    InvalidRange,
    /// Resolving would come back to a cell that is being resolved.
    CyclicReference(Coordinate),
    /// The text names no function of the library.
    UnknownFunction,
    /// The function is known by name and has no meaning.
    UnsupportedFunction(FUNCTION),
    /// The rows of the input do not all have one length, or the grid is too
    /// large for this machine.
    ShapeError,
    /// The sum of two integers does not fit in an integer.
    Overflow,
    /// The value has no text form.
    NoDisplayForm,
}

/// Why an operation stopped: it failed, or it needs an answer on decimal
/// fractions that its table does not hold.
#[derive(Debug, PartialEq)]
pub enum Halt {
    Failed(EvalError),
    Needs(FloatQuery),
}

/// The mathematical content of a `Halt`.
pub enum HaltView {
    Failed(EvalError),
    Needs(FloatQueryView),
}

impl View for Halt {
    type V = HaltView;

    open spec fn view(&self) -> HaltView {
        match self {
            Halt::Failed(e) => HaltView::Failed(*e),
            Halt::Needs(q) => HaltView::Needs(q@),
        }
    }
}

impl Clone for Halt {
    fn clone(&self) -> (r: Halt)
        ensures
            r@ == self@,
    {
        match self {
            Halt::Failed(e) => Halt::Failed(*e),
            Halt::Needs(query) => Halt::Needs(query.clone()),
        }
    }
}

} // verus!
