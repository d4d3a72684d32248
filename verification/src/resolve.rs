//! What a value comes to: references followed, formulas computed.

use vstd::prelude::*;
use vstd::seq_lib::*;
use vstd::set_lib::*;
use crate::coordinate::Coordinate;
use crate::error::{EvalError, HaltView};
use crate::function::FUNCTION;
use crate::number::FloatFactView;
use crate::value::{applied, is_simple, ValueView};

verus! {

/// The content of a grid: its numbers of rows and of columns and the contents
/// of its cells, one row after the other.
pub struct GridView {
    pub rows: nat,
    pub columns: nat,
    pub cells: Seq<ValueView>,
}

impl GridView {
    /// `c` addresses a cell of the grid.
    pub open spec fn holds(self, c: Coordinate) -> bool {
        c.row < self.rows && c.column < self.columns
    }

    /// The content of the cell at `(row, column)`.
    pub open spec fn at(self, row: int, column: int) -> ValueView {
        self.cells[row * self.columns + column]
    }

    /// The content of the cell at `c`.
    pub open spec fn cell(self, c: Coordinate) -> ValueView {
        self.at(c.row as int, c.column as int)
    }

    /// The number of cells.
    pub open spec fn size(self) -> nat {
        self.rows * self.columns
    }
}

/// `chain` holds cells of `grid`, none of them twice.
pub open spec fn chain_ok(chain: Seq<Coordinate>, grid: GridView) -> bool {
    &&& chain.no_duplicates()
    &&& forall|i: int| 0 <= i < chain.len() ==> grid.holds(#[trigger] chain[i])
}

/// The simple value that `v` comes to in `grid`, while the cells of `chain`
/// are being resolved.
///
/// A reference outside the grid fails with `OutOfBounds`, one to a cell of
/// `chain` with `CyclicReference`; any other comes to what the content of its
/// cell comes to, with that cell added to the chain. A formula call comes to
/// what its function makes of what its operands come to, taken from left to
/// right, and the first operand to stop stops the call. Any other value is
/// simple already.
///
/// A chain as long as the grid cannot grow. `lemma_chain_fits` shows that a
/// chain of distinct cells of the grid is never that long when a further cell
/// is to join it.
pub open spec fn resolved(
    grid: GridView,
    chain: Seq<Coordinate>,
    v: ValueView,
    table: Seq<FloatFactView>,
) -> Result<ValueView, HaltView>
    decreases grid.size() - chain.len(), v, 0nat,
{
    match v {
        ValueView::CellReference(c) => if !grid.holds(c) {
            Err(HaltView::Failed(EvalError::OutOfBounds(c)))
        } else if chain.contains(c) || chain.len() >= grid.size() {
            Err(HaltView::Failed(EvalError::CyclicReference(c)))
        } else {
            resolved(grid, chain.push(c), grid.cell(c), table)
        },
        ValueView::FormulaCall(function, operands) => match resolved_each(
            grid,
            chain,
            operands,
            0,
            table,
        ) {
            Err(halt) => Err(halt),
            Ok(values) => applied(function, values, table),
        },
        _ => Ok(v),
    }
}

/// What the operands from index `from` on come to, in order, or what the
/// first of them to stop stops with.
pub open spec fn resolved_each(
    grid: GridView,
    chain: Seq<Coordinate>,
    operands: Seq<ValueView>,
    from: int,
    table: Seq<FloatFactView>,
) -> Result<Seq<ValueView>, HaltView>
    decreases grid.size() - chain.len(), operands, operands.len() - from,
{
    if from < 0 || from >= operands.len() {
        Ok(Seq::empty())
    } else {
        match resolved(grid, chain, operands[from], table) {
            Err(halt) => Err(halt),
            Ok(first) => match resolved_each(grid, chain, operands, from + 1, table) {
                Err(halt) => Err(halt),
                Ok(rest) => Ok(seq![first] + rest),
            },
        }
    }
}

/// What a cell of the grid comes to, resolved for its own sake.
pub open spec fn settled(grid: GridView, v: ValueView, table: Seq<FloatFactView>) -> Result<
    ValueView,
    HaltView,
> {
    resolved(grid, Seq::empty(), v, table)
}

/// Two cells of one grid that stand at the same place are the same cell.
pub proof fn lemma_place_injective(columns: nat, a: Coordinate, b: Coordinate)
    requires
        a.column < columns,
        b.column < columns,
        a.row * columns + a.column == b.row * columns + b.column,
    ensures
        a == b,
{
    assert(a.row == b.row) by (nonlinear_arith)
        requires
            a.column < columns,
            b.column < columns,
            a.row * columns + a.column == b.row * columns + b.column,
    {
    }
}

/// The place of a cell of the grid lies within the cells of the grid.
pub proof fn lemma_place_within(rows: nat, columns: nat, row: int, column: int)
    requires
        0 <= row < rows,
        0 <= column < columns,
    ensures
        0 <= row * columns + column < rows * columns,
{
    assert(0 <= row * columns + column < rows * columns) by (nonlinear_arith)
        requires
            0 <= row < rows,
            0 <= column < columns,
    {
    }
}

/// A chain of distinct cells of a grid is no longer than the grid has cells.
pub proof fn lemma_chain_length(chain: Seq<Coordinate>, grid: GridView)
    requires
        chain_ok(chain, grid),
    ensures
        chain.len() <= grid.size(),
{
    let places = Seq::new(chain.len(), |i: int| chain[i].row * grid.columns + chain[i].column);
    assert forall|i: int, j: int| 0 <= i < places.len() && 0 <= j < places.len() && i != j implies places[i]
        != places[j] by {
        assert(grid.holds(chain[i]) && grid.holds(chain[j]));
        if places[i] == places[j] {
            lemma_place_injective(grid.columns, chain[i], chain[j]);
        }
    }
    places.unique_seq_to_set();
    let range = set_int_range(0, grid.size() as int);
    lemma_int_range(0, grid.size() as int);
    assert forall|p: int| places.to_set().contains(p) implies range.contains(p) by {
        let i = choose|i: int| 0 <= i < places.len() && places[i] == p;
        assert(grid.holds(chain[i]));
        lemma_place_within(grid.rows, grid.columns, chain[i].row as int, chain[i].column as int);
    }
    lemma_len_subset(places.to_set(), range);
}

/// A cell of the grid that is not in a chain of distinct cells finds room in
/// it: the chain is shorter than the grid has cells.
pub proof fn lemma_chain_fits(chain: Seq<Coordinate>, grid: GridView, c: Coordinate)
    requires
        chain_ok(chain, grid),
        grid.holds(c),
        !chain.contains(c),
    ensures
        chain.len() < grid.size(),
        chain_ok(chain.push(c), grid),
{
    let longer = chain.push(c);
    assert forall|i: int, j: int| 0 <= i < longer.len() && 0 <= j < longer.len() && i != j implies longer[i]
        != longer[j] by {
        if i < chain.len() && j < chain.len() {
        } else if i < chain.len() {
            assert(chain.contains(chain[i]));
        } else if j < chain.len() {
            assert(chain.contains(chain[j]));
        }
    }
    lemma_chain_length(longer, grid);
}

/// A simple value comes to itself, whatever the grid holds.
pub proof fn lemma_simple_resolves_to_itself(
    grid: GridView,
    chain: Seq<Coordinate>,
    v: ValueView,
    table: Seq<FloatFactView>,
)
    requires
        is_simple(v),
    ensures
        resolved(grid, chain, v, table) == Ok::<ValueView, HaltView>(v),
{
}

/// Two cells that refer to each other do not resolve: following the first
/// comes back to it.
pub proof fn lemma_cycle_of_two(grid: GridView, a: Coordinate, b: Coordinate, table: Seq<FloatFactView>)
    requires
        grid.holds(a),
        grid.holds(b),
        a != b,
        grid.cell(a) == ValueView::CellReference(b),
        grid.cell(b) == ValueView::CellReference(a),
    ensures
        settled(grid, ValueView::CellReference(a), table) == Err::<ValueView, HaltView>(
            HaltView::Failed(EvalError::CyclicReference(a)),
        ),
{
    let none = Seq::<Coordinate>::empty();
    let one = none.push(a);
    let two = one.push(b);
    assert(chain_ok(none, grid));
    lemma_chain_fits(none, grid, a);
    assert(!one.contains(b)) by {
        if one.contains(b) {
            let i = choose|i: int| 0 <= i < one.len() && one[i] == b;
            assert(one[i] == a);
        }
    }
    lemma_chain_fits(one, grid, b);
    assert(two[0] == a);
    assert(two.contains(a));
    assert(resolved(grid, two, grid.cell(b), table) == Err::<ValueView, HaltView>(
        HaltView::Failed(EvalError::CyclicReference(a)),
    ));
    assert(resolved(grid, one, grid.cell(a), table) == resolved(grid, two, grid.cell(b), table));
    assert(resolved(grid, none, ValueView::CellReference(a), table) == resolved(
        grid,
        one,
        grid.cell(a),
        table,
    ));
}

/// What a function of the library gives is a simple value.
pub proof fn lemma_applied_simple(function: FUNCTION, operands: Seq<ValueView>, table: Seq<FloatFactView>)
    ensures
        applied(function, operands, table) matches Ok(value) ==> is_simple(value),
{
}

/// What a value comes to is a simple value.
pub proof fn lemma_resolved_simple(
    grid: GridView,
    chain: Seq<Coordinate>,
    v: ValueView,
    table: Seq<FloatFactView>,
)
    ensures
        resolved(grid, chain, v, table) matches Ok(value) ==> is_simple(value),
    decreases grid.size() - chain.len(), v,
{
    match v {
        ValueView::CellReference(c) => {
            if grid.holds(c) && !chain.contains(c) && chain.len() < grid.size() {
                lemma_resolved_simple(grid, chain.push(c), grid.cell(c), table);
            }
        },
        ValueView::FormulaCall(function, operands) => {
            let values = resolved_each(grid, chain, operands, 0, table);
            if values is Ok {
                lemma_applied_simple(function, values->Ok_0, table);
            }
        },
        _ => {},
    }
}

} // verus!
