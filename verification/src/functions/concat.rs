//! Joining the texts of two values.

use vstd::prelude::*;
use vstd::string::StringExecFns;
use crate::error::{EvalError, Halt, HaltView};
use crate::number::{FloatFactView, FloatTable};
use crate::value::{display_text, is_simple, Value, ValueView};

verus! {

/// The text of `a` directly followed by the text of `b`. Only simple values
/// have a text to join.
pub open spec fn joined(a: ValueView, b: ValueView, table: Seq<FloatFactView>) -> Result<
    ValueView,
    HaltView,
> {
    if !is_simple(a) || !is_simple(b) {
        Err(HaltView::Failed(EvalError::InvalidOperands))
    } else {
        match display_text(a, table) {
            Err(halt) => Err(halt),
            Ok(first) => match display_text(b, table) {
                Err(halt) => Err(halt),
                Ok(second) => Ok(ValueView::Text(first + second)),
            },
        }
    }
}

/// Whether `v` is neither a formula call nor a cell reference.
pub(crate) fn simple(v: &Value) -> (r: bool)
    ensures
        r == is_simple(v@),
{
    match v {
        Value::FormulaCall(_, _) => false,
        Value::CellReference(_) => false,
        _ => true,
    }
}

/// Joins the texts of two simple values.
pub fn concat(input_1: Value, input_2: Value, table: &FloatTable) -> (r: Result<Value, Halt>)
    ensures
        match r {
            Ok(value) => joined(input_1@, input_2@, table@) == Ok::<ValueView, HaltView>(value@),
            Err(halt) => joined(input_1@, input_2@, table@) == Err::<ValueView, HaltView>(halt@),
        },
{
    if !simple(&input_1) || !simple(&input_2) {
        return Err(Halt::Failed(EvalError::InvalidOperands));
    }
    match input_1.to_text(table) {
        Err(halt) => Err(halt),
        Ok(first) => match input_2.to_text(table) {
            Err(halt) => Err(halt),
            Ok(second) => Ok(Value::Text(first.concat(second.as_str()))),
        },
    }
}

} // verus!
