//! Addition of integers and of decimal fractions.

use vstd::prelude::*;
use crate::error::{EvalError, Halt, HaltView};
use crate::number::{bits_of, FloatFactView, FloatQuery, FloatQueryView, FloatTable};
use crate::value::{get_same_form, same_form, Value, ValueView};

verus! {

/// The sum of `a` and `b`. Where either is a decimal fraction the sum is one,
/// shown with the greater of the two counts of digits; the sum of two integers
/// is an integer, where it fits.
pub open spec fn sum_of(a: ValueView, b: ValueView, table: Seq<FloatFactView>) -> Result<
    ValueView,
    HaltView,
> {
    match same_form(a, b, table) {
        Err(halt) => Err(halt),
        Ok((first, second)) => match (first, second) {
            (ValueView::Float(x, p), ValueView::Float(y, q)) => match bits_of(
                table,
                FloatQueryView::Sum(x, y),
            ) {
                Some(bits) => Ok(
                    ValueView::Float(
                        bits,
                        if p >= q {
                            p
                        } else {
                            q
                        },
                    ),
                ),
                None => Err(HaltView::Needs(FloatQueryView::Sum(x, y))),
            },
            (ValueView::Integer(i), ValueView::Integer(j)) => if i32::MIN <= i + j <= i32::MAX {
                Ok(ValueView::Integer((i + j) as i32))
            } else {
                Err(HaltView::Failed(EvalError::Overflow))
            },
            _ => Err(HaltView::Failed(EvalError::InvalidOperands)),
        },
    }
}

/// Adds two simple values.
pub fn add(input_1: Value, input_2: Value, table: &FloatTable) -> (r: Result<Value, Halt>)
    ensures
        match r {
            Ok(value) => sum_of(input_1@, input_2@, table@) == Ok::<ValueView, HaltView>(value@),
            Err(halt) => sum_of(input_1@, input_2@, table@) == Err::<ValueView, HaltView>(halt@),
        },
{
    match get_same_form(input_1, input_2, table) {
        Err(halt) => Err(halt),
        Ok((first, second)) => match (first, second) {
            (Value::Float(x, p), Value::Float(y, q)) => match table.bits(FloatQuery::Sum(x, y)) {
                Ok(bits) => Ok(
                    Value::Float(
                        bits,
                        if p >= q {
                            p
                        } else {
                            q
                        },
                    ),
                ),
                Err(query) => Err(Halt::Needs(query)),
            },
            (Value::Integer(i), Value::Integer(j)) => match i.checked_add(j) {
                Some(total) => Ok(Value::Integer(total)),
                None => Err(Halt::Failed(EvalError::Overflow)),
            },
            _ => Err(Halt::Failed(EvalError::InvalidOperands)),
        },
    }
}

} // verus!
