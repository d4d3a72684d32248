//! What a cell can hold.

use vstd::prelude::*;
use crate::coordinate::Coordinate;
use crate::error::{EvalError, Halt, HaltView};
use crate::function::FUNCTION;
use crate::functions::add::sum_of;
use crate::functions::concat::joined;
use crate::grid::Grid;
use crate::number::{bits_of, text_of, whole_of, FloatFactView, FloatQuery, FloatQueryView, FloatTable};
use crate::stamp::{datetime_text, write_datetime, Timestamp};
use crate::text::{integer_string, integer_text};

verus! {

/// The content of a cell, and the unit of every computation.
#[derive(Debug, PartialEq)]
pub enum Value {
    /// An empty cell.
    Null,
    Integer(i32),
    /// A decimal fraction, by the bit pattern of its single-precision binary
    /// form, with the number of digits after the point that it is shown with.
    Float(u32, usize),
    Text(String),
    /// A point in time, with the pattern that it is shown with.
    DateTime(Timestamp, String),
    /// A function applied to operands, which are values again.
    FormulaCall(FUNCTION, Vec<Value>),
    /// The content of another cell of the same grid.
    CellReference(Coordinate),
}

/// The mathematical content of a `Value`.
pub enum ValueView {
    Null,
    Integer(i32),
    Float(u32, usize),
    Text(Seq<char>),
    DateTime(Timestamp, Seq<char>),
    FormulaCall(FUNCTION, Seq<ValueView>),
    CellReference(Coordinate),
}

impl View for Value {
    type V = ValueView;

    open spec fn view(&self) -> ValueView
        decreases self,
    {
        match self {
            Value::Null => ValueView::Null,
            Value::Integer(i) => ValueView::Integer(*i),
            Value::Float(bits, precision) => ValueView::Float(*bits, *precision),
            Value::Text(text) => ValueView::Text(text@),
            Value::DateTime(stamp, pattern) => ValueView::DateTime(*stamp, pattern@),
            Value::FormulaCall(function, operands) => ValueView::FormulaCall(
                *function,
                views_prefix(operands@, operands@.len()),
            ),
            Value::CellReference(c) => ValueView::CellReference(*c),
        }
    }
}

/// The contents of the first `n` of `items`, one by one.
pub open spec fn views_prefix(items: Seq<Value>, n: nat) -> Seq<ValueView>
    decreases items, n,
{
    if n == 0 || n > items.len() {
        Seq::empty()
    } else {
        views_prefix(items, (n - 1) as nat).push(items[n - 1].view())
    }
}

/// The contents of a sequence of values, one by one.
pub open spec fn views_of(items: Seq<Value>) -> Seq<ValueView> {
    Seq::new(items.len(), |i: int| items[i]@)
}

/// The first `n` contents are the contents of the first `n` values.
pub proof fn lemma_views_prefix(items: Seq<Value>, n: nat)
    requires
        n <= items.len(),
    ensures
        views_prefix(items, n) == views_of(items.subrange(0, n as int)),
    decreases n,
{
    if n > 0 {
        lemma_views_prefix(items, (n - 1) as nat);
        assert(views_of(items.subrange(0, n - 1)).push(items[n - 1]@) =~= views_of(
            items.subrange(0, n as int),
        ));
    } else {
        assert(views_prefix(items, n) =~= views_of(items.subrange(0, n as int)));
    }
}

/// `rest` with the values `done` before it.
pub open spec fn prepend<E>(done: Seq<ValueView>, rest: Result<Seq<ValueView>, E>) -> Result<
    Seq<ValueView>,
    E,
> {
    match rest {
        Ok(values) => Ok(done + values),
        Err(e) => Err(e),
    }
}

/// A value that is neither a formula call nor a cell reference.
pub open spec fn is_simple(v: ValueView) -> bool {
    !(v is FormulaCall) && !(v is CellReference)
}

/// The content of a formula call is its function with the contents of its
/// operands.
pub proof fn lemma_call_view(function: FUNCTION, operands: Vec<Value>)
    ensures
        Value::FormulaCall(function, operands)@ == ValueView::FormulaCall(function, views_of(operands@)),
{
    lemma_views_prefix(operands@, operands@.len());
    assert(operands@.subrange(0, operands@.len() as int) =~= operands@);
}

impl Clone for Value {
    fn clone(&self) -> (r: Value)
        ensures
            r@ == self@,
        decreases self,
    {
        match self {
            Value::Null => Value::Null,
            Value::Integer(i) => Value::Integer(*i),
            Value::Float(bits, precision) => Value::Float(*bits, *precision),
            Value::Text(text) => Value::Text(text.clone()),
            Value::DateTime(stamp, pattern) => Value::DateTime(*stamp, pattern.clone()),
            Value::FormulaCall(function, operands) => {
                let mut copies: Vec<Value> = Vec::new();
                let mut k: usize = 0;
                while k < operands.len()
                    invariant
                        k <= operands.len(),
                        copies.len() == k,
                        self is FormulaCall,
                        self->FormulaCall_1 == *operands,
                        forall|j: int| 0 <= j < k ==> copies[j]@ == operands[j]@,
                    decreases operands.len() - k,
                {
                    copies.push(operands[k].clone());
                    k += 1;
                }
                proof {
                    lemma_call_view(*function, copies);
                    lemma_call_view(*function, *operands);
                    assert(views_of(copies@) =~= views_of(operands@));
                }
                Value::FormulaCall(*function, copies)
            },
            Value::CellReference(c) => Value::CellReference(*c),
        }
    }
}

impl Default for Value {
    fn default() -> (r: Value)
        ensures
            r@ == ValueView::Null,
    {
        Value::Null
    }
}

/// The text that shows a simple value: nothing for `Null`, the decimal digits
/// of an integer, a decimal fraction as `table` writes it with its count of
/// digits, a text itself, and a point in time as `chrono` writes it under its
/// pattern. A formula call and a cell reference have no such text.
pub open spec fn display_text(v: ValueView, table: Seq<FloatFactView>) -> Result<Seq<char>, HaltView> {
    match v {
        ValueView::Null => Ok(Seq::empty()),
        ValueView::Integer(i) => Ok(integer_text(i as int)),
        ValueView::Float(bits, precision) => match text_of(
            table,
            FloatQueryView::Render(bits, precision),
        ) {
            Some(text) => Ok(text),
            None => Err(HaltView::Needs(FloatQueryView::Render(bits, precision))),
        },
        ValueView::Text(text) => Ok(text),
        ValueView::DateTime(stamp, pattern) => match datetime_text(stamp.seconds, stamp.nanos, pattern) {
            Some(text) => Ok(text),
            None => Err(HaltView::Failed(EvalError::NoDisplayForm)),
        },
        _ => Err(HaltView::Failed(EvalError::NoDisplayForm)),
    }
}

/// `input` in the kind of `target`, which is a decimal fraction or an integer.
/// An integer becomes the fraction equal to it, shown without digits after the
/// point; a fraction becomes its integer part; a value of the wanted kind stays
/// as it is. Nothing else can be converted, and to no other kind.
pub open spec fn converted(input: ValueView, target: ValueView, table: Seq<FloatFactView>) -> Result<
    ValueView,
    HaltView,
> {
    if target is Float {
        match input {
            ValueView::Integer(i) => match bits_of(table, FloatQueryView::Widen(i)) {
                Some(bits) => Ok(ValueView::Float(bits, 0)),
                None => Err(HaltView::Needs(FloatQueryView::Widen(i))),
            },
            ValueView::Float(_, _) => Ok(input),
            _ => Err(HaltView::Failed(EvalError::InvalidOperands)),
        }
    } else if target is Integer {
        match input {
            ValueView::Integer(_) => Ok(input),
            ValueView::Float(bits, _) => match whole_of(table, FloatQueryView::Narrow(bits)) {
                Some(whole) => Ok(ValueView::Integer(whole)),
                None => Err(HaltView::Needs(FloatQueryView::Narrow(bits))),
            },
            _ => Err(HaltView::Failed(EvalError::InvalidOperands)),
        }
    } else {
        Err(HaltView::Failed(EvalError::InvalidOperands))
    }
}

/// The two operands in one numeric kind: both as decimal fractions where either
/// is one, else both as integers.
pub open spec fn same_form(a: ValueView, b: ValueView, table: Seq<FloatFactView>) -> Result<
    (ValueView, ValueView),
    HaltView,
> {
    let target = if a is Float || b is Float {
        ValueView::Float(0, 0)
    } else {
        ValueView::Integer(0)
    };
    match converted(a, target, table) {
        Err(halt) => Err(halt),
        Ok(first) => match converted(b, target, table) {
            Err(halt) => Err(halt),
            Ok(second) => Ok((first, second)),
        },
    }
}

/// What `function` makes of `operands`, of which it takes the first two.
/// `MOD` has a name and no meaning.
pub open spec fn applied(function: FUNCTION, operands: Seq<ValueView>, table: Seq<FloatFactView>) -> Result<
    ValueView,
    HaltView,
> {
    match function {
        FUNCTION::MOD => Err(HaltView::Failed(EvalError::UnsupportedFunction(FUNCTION::MOD))),
        FUNCTION::ADD => if operands.len() < 2 {
            Err(HaltView::Failed(EvalError::InvalidOperands))
        } else {
            sum_of(operands[0], operands[1], table)
        },
        FUNCTION::CONCAT => if operands.len() < 2 {
            Err(HaltView::Failed(EvalError::InvalidOperands))
        } else {
            joined(operands[0], operands[1], table)
        },
    }
}

impl Value {
    /// The empty cell.
    pub fn null_default() -> (r: Value)
        ensures
            r@ == ValueView::Null,
    {
        Value::Null
    }

    /// The integer zero.
    pub fn i32_default() -> (r: Value)
        ensures
            r@ == ValueView::Integer(0),
    {
        Value::Integer(0)
    }

    /// The decimal fraction zero, shown without digits after the point.
    pub fn float_default() -> (r: Value)
        ensures
            r@ == ValueView::Float(0, 0),
    {
        Value::Float(0, 0)
    }

    /// The empty text.
    pub fn string_default() -> (r: Value)
        ensures
            r@ == ValueView::Text(Seq::empty()),
    {
        Value::Text(String::new())
    }

    /// The call `ADD(1, 1)`.
    pub fn function_default() -> (r: Value)
        ensures
            r@ == ValueView::FormulaCall(
                FUNCTION::ADD,
                seq![ValueView::Integer(1), ValueView::Integer(1)],
            ),
    {
        let mut operands: Vec<Value> = Vec::new();
        operands.push(Value::Integer(1));
        operands.push(Value::Integer(1));
        proof {
            lemma_call_view(FUNCTION::ADD, operands);
            assert(views_of(operands@) =~= seq![ValueView::Integer(1), ValueView::Integer(1)]);
        }
        Value::FormulaCall(FUNCTION::ADD, operands)
    }

    /// The reference to the first cell of the grid.
    pub fn reference_default() -> (r: Value)
        ensures
            r@ == ValueView::CellReference(Coordinate { row: 0, column: 0 }),
    {
        Value::CellReference(Coordinate { row: 0, column: 0 })
    }

    /// The cell of `data` that this reference points at. `None` where this
    /// value is no reference, and where it points outside `data`.
    pub fn solve_reference<'a>(&'a self, data: &'a Grid) -> (r: Option<&'a Value>)
        ensures
            r is Some <==> (self@ is CellReference && data@.holds(self@->CellReference_0)),
            r is Some ==> r->0@ == data@.cell(self@->CellReference_0),
    {
        match self {
            Value::CellReference(c) => data.get(c.row, c.column),
            _ => None,
        }
    }

    /// The text that shows this value, or why there is none.
    pub fn to_text(&self, table: &FloatTable) -> (r: Result<String, Halt>)
        ensures
            match r {
                Ok(text) => display_text(self@, table@) == Ok::<Seq<char>, HaltView>(text@),
                Err(halt) => display_text(self@, table@) == Err::<Seq<char>, HaltView>(halt@),
            },
    {
        match self {
            Value::Null => Ok(String::new()),
            Value::Integer(i) => Ok(integer_string(*i)),
            Value::Float(bits, precision) => match table.text(FloatQuery::Render(*bits, *precision)) {
                Ok(text) => Ok(text),
                Err(query) => Err(Halt::Needs(query)),
            },
            Value::Text(text) => Ok(text.clone()),
            Value::DateTime(stamp, pattern) => match write_datetime(*stamp, pattern.as_str()) {
                Some(text) => Ok(text),
                None => Err(Halt::Failed(EvalError::NoDisplayForm)),
            },
            _ => Err(Halt::Failed(EvalError::NoDisplayForm)),
        }
    }
}

/// Converts `input` to the kind of `target`.
pub fn transform(input: Value, target: &Value, table: &FloatTable) -> (r: Result<Value, Halt>)
    ensures
        match r {
            Ok(value) => converted(input@, target@, table@) == Ok::<ValueView, HaltView>(value@),
            Err(halt) => converted(input@, target@, table@) == Err::<ValueView, HaltView>(halt@),
        },
{
    match target {
        Value::Float(_, _) => match input {
            Value::Integer(i) => match table.bits(FloatQuery::Widen(i)) {
                Ok(bits) => Ok(Value::Float(bits, 0)),
                Err(query) => Err(Halt::Needs(query)),
            },
            Value::Float(bits, precision) => Ok(Value::Float(bits, precision)),
            _ => Err(Halt::Failed(EvalError::InvalidOperands)),
        },
        Value::Integer(_) => match input {
            Value::Integer(i) => Ok(Value::Integer(i)),
            Value::Float(bits, _) => match table.whole(FloatQuery::Narrow(bits)) {
                Ok(whole) => Ok(Value::Integer(whole)),
                Err(query) => Err(Halt::Needs(query)),
            },
            _ => Err(Halt::Failed(EvalError::InvalidOperands)),
        },
        _ => Err(Halt::Failed(EvalError::InvalidOperands)),
    }
}

/// Brings two operands to one numeric kind, the first one first.
pub fn get_same_form(input_1: Value, input_2: Value, table: &FloatTable) -> (r: Result<
    (Value, Value),
    Halt,
>)
    ensures
        match r {
            Ok((first, second)) => same_form(input_1@, input_2@, table@) == Ok::<
                (ValueView, ValueView),
                HaltView,
            >((first@, second@)),
            Err(halt) => same_form(input_1@, input_2@, table@) == Err::<
                (ValueView, ValueView),
                HaltView,
            >(halt@),
        },
{
    let fractional: bool = match (&input_1, &input_2) {
        (Value::Float(_, _), _) => true,
        (_, Value::Float(_, _)) => true,
        _ => false,
    };
    let target = if fractional {
        Value::float_default()
    } else {
        Value::i32_default()
    };
    match transform(input_1, &target, table) {
        Err(halt) => Err(halt),
        Ok(first) => match transform(input_2, &target, table) {
            Err(halt) => Err(halt),
            Ok(second) => Ok((first, second)),
        },
    }
}

/// Applies `function` to the first two of `values`.
pub fn solve_function(function: &FUNCTION, values: &Vec<Value>, table: &FloatTable) -> (r: Result<
    Value,
    Halt,
>)
    ensures
        match r {
            Ok(value) => applied(*function, views_of(values@), table@) == Ok::<ValueView, HaltView>(
                value@,
            ),
            Err(halt) => applied(*function, views_of(values@), table@) == Err::<ValueView, HaltView>(
                halt@,
            ),
        },
{
    match function {
        FUNCTION::MOD => Err(Halt::Failed(EvalError::UnsupportedFunction(FUNCTION::MOD))),
        FUNCTION::ADD => {
            if values.len() < 2 {
                Err(Halt::Failed(EvalError::InvalidOperands))
            } else {
                crate::functions::add::add(values[0].clone(), values[1].clone(), table)
            }
        },
        FUNCTION::CONCAT => {
            if values.len() < 2 {
                Err(Halt::Failed(EvalError::InvalidOperands))
            } else {
                crate::functions::concat::concat(values[0].clone(), values[1].clone(), table)
            }
        },
    }
}

} // verus!
