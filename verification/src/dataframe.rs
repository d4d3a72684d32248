//! A grid of values, and what can be asked of it.

use vstd::prelude::*;
use crate::coordinate::Coordinate;
use crate::error::{EvalError, Halt, HaltView};
use crate::function::FUNCTION;
use crate::gather::{
    flattened, gathered, lemma_flattened, lemma_gathered_error, lemma_gathered_values,
    rectangular, width_of,
};
use crate::grid::{shape_fits, Grid};
use crate::number::{FloatFactView, FloatQuery, FloatQueryView, FloatTable};
use crate::parse::{parse_chars, parse_text};
use crate::resolve::{
    chain_ok, lemma_chain_fits, lemma_place_injective, lemma_place_within,
    lemma_resolved_simple, resolved, resolved_each, settled, GridView,
};
use crate::text::chars_of;
use crate::value::{
    applied, is_simple, lemma_call_view, prepend, solve_function, views_of, Value, ValueView,
};

verus! {

/// A rectangular grid of values of fixed size.
#[derive(Debug, PartialEq)]
pub struct DataFrame {
    data: Grid,
}

/// The texts of a row.
pub open spec fn texts_of(row: Seq<String>) -> Seq<Seq<char>> {
    Seq::new(row.len(), |j: int| row[j]@)
}

/// The texts of the rows of `data`.
pub open spec fn text_rows(data: Seq<Vec<String>>) -> Seq<Seq<Seq<char>>> {
    Seq::new(data.len(), |i: int| texts_of(data[i]@))
}

/// The contents of the rows of `values`.
pub open spec fn value_rows(values: Seq<Vec<Value>>) -> Seq<Seq<ValueView>> {
    Seq::new(values.len(), |i: int| views_of(values[i]@))
}

/// The grid whose rows are `rows`, all of the length `width`.
pub open spec fn grid_of(rows: Seq<Seq<ValueView>>, width: nat) -> GridView {
    GridView { rows: rows.len(), columns: width, cells: flattened(rows) }
}

/// The grid that rows of values make, or `ShapeError` where the rows differ
/// in length or the grid would be too large for `ndarray`.
pub open spec fn frame_of_values(rows: Seq<Seq<ValueView>>) -> Result<GridView, EvalError> {
    if !rectangular(rows) || !shape_fits(rows.len(), width_of(rows)) {
        Err(EvalError::ShapeError)
    } else {
        Ok(grid_of(rows, width_of(rows)))
    }
}

/// The value of each text of a row, or the question that it leaves.
pub open spec fn parsed_cells(row: Seq<Seq<char>>, table: Seq<FloatFactView>) -> Seq<
    Result<ValueView, FloatQueryView>,
> {
    Seq::new(row.len(), |j: int| parse_text(row[j], table))
}

/// The values of each row of texts, or the first question that the row leaves.
pub open spec fn parsed_rows(texts: Seq<Seq<Seq<char>>>, table: Seq<FloatFactView>) -> Seq<
    Result<Seq<ValueView>, FloatQueryView>,
> {
    Seq::new(texts.len(), |i: int| gathered(parsed_cells(texts[i], table)))
}

/// The grid that rows of texts make. Rows that differ in length are refused
/// first; then every text is parsed, row by row, and the first question that
/// `table` does not answer is handed back; and a grid too large for `ndarray`
/// is refused last.
pub open spec fn frame_of_texts(texts: Seq<Seq<Seq<char>>>, table: Seq<FloatFactView>) -> Result<
    GridView,
    HaltView,
> {
    if !rectangular(texts) {
        Err(HaltView::Failed(EvalError::ShapeError))
    } else {
        match gathered(parsed_rows(texts, table)) {
            Err(query) => Err(HaltView::Needs(query)),
            Ok(rows) => if shape_fits(texts.len(), width_of(texts)) {
                Ok(grid_of(rows, width_of(texts)))
            } else {
                Err(HaltView::Failed(EvalError::ShapeError))
            },
        }
    }
}

/// What each of the `width` cells of row `row` from column `left` on comes to.
pub open spec fn region_cells(
    grid: GridView,
    row: int,
    left: int,
    width: nat,
    table: Seq<FloatFactView>,
) -> Seq<Result<ValueView, HaltView>> {
    Seq::new(width, |j: int| settled(grid, grid.at(row, left + j), table))
}

/// What each of the `height` rows from row `top` on comes to, or what the
/// first cell of a row to stop stops with.
pub open spec fn region_rows(
    grid: GridView,
    top: int,
    left: int,
    height: nat,
    width: nat,
    table: Seq<FloatFactView>,
) -> Seq<Result<Seq<ValueView>, HaltView>> {
    Seq::new(height, |i: int| gathered(region_cells(grid, top + i, left, width, table)))
}

/// The grid of what the cells between two corners come to, both corners
/// included. The corners must lie in the grid, the first neither below nor
/// right of the second. The cells are taken row by row, and the first to stop
/// stops the whole.
pub open spec fn region(
    grid: GridView,
    top_left: Coordinate,
    bottom_right: Coordinate,
    table: Seq<FloatFactView>,
) -> Result<GridView, HaltView> {
    if !grid.holds(top_left) {
        Err(HaltView::Failed(EvalError::OutOfBounds(top_left)))
    } else if !grid.holds(bottom_right) {
        Err(HaltView::Failed(EvalError::OutOfBounds(bottom_right)))
    } else if top_left.row > bottom_right.row || top_left.column > bottom_right.column {
        Err(HaltView::Failed(EvalError::InvalidRange))
    } else {
        let height = (bottom_right.row - top_left.row + 1) as nat;
        let width = (bottom_right.column - top_left.column + 1) as nat;
        match gathered(
            region_rows(grid, top_left.row as int, top_left.column as int, height, width, table),
        ) {
            Err(halt) => Err(halt),
            Ok(rows) => Ok(grid_of(rows, width)),
        }
    }
}

/// The first position of `patch`, laid on `grid` with its first cell at
/// `start` and taken row by row, that falls outside the grid, if any does.
pub open spec fn first_outside(grid: GridView, start: Coordinate, patch: GridView) -> Option<Coordinate> {
    if patch.rows == 0 || patch.columns == 0 {
        None
    } else if start.row >= grid.rows || start.column >= grid.columns {
        Some(start)
    } else if start.column + patch.columns > grid.columns {
        Some(Coordinate { row: start.row, column: grid.columns as usize })
    } else if start.row + patch.rows > grid.rows {
        Some(Coordinate { row: grid.rows as usize, column: start.column })
    } else {
        None
    }
}

/// What `function` makes of what a cell and an operand come to in the grid,
/// the cell first.
pub open spec fn combined(
    grid: GridView,
    function: FUNCTION,
    target: ValueView,
    operand: ValueView,
    table: Seq<FloatFactView>,
) -> Result<ValueView, HaltView> {
    match settled(grid, target, table) {
        Err(halt) => Err(halt),
        Ok(first) => match settled(grid, operand, table) {
            Err(halt) => Err(halt),
            Ok(second) => applied(function, seq![first, second], table),
        },
    }
}

/// The new content of each cell under row `i` of `patch`.
pub open spec fn patch_cells(
    grid: GridView,
    function: FUNCTION,
    start: Coordinate,
    patch: GridView,
    i: int,
    table: Seq<FloatFactView>,
) -> Seq<Result<ValueView, HaltView>> {
    Seq::new(
        patch.columns,
        |j: int|
            combined(grid, function, grid.at(start.row + i, start.column + j), patch.at(i, j), table),
    )
}

/// The new contents of the cells under each row of `patch`, or what the
/// first cell of a row to stop stops with.
pub open spec fn patch_rows(
    grid: GridView,
    function: FUNCTION,
    start: Coordinate,
    patch: GridView,
    table: Seq<FloatFactView>,
) -> Seq<Result<Seq<ValueView>, HaltView>> {
    Seq::new(patch.rows, |i: int| gathered(patch_cells(grid, function, start, patch, i, table)))
}

/// The new contents of the cells under `patch`, laid with its first cell at
/// `start`, row by row: `OutOfBounds` where the patch does not lie in the
/// grid, else what the first cell to stop stops with, else the contents.
pub open spec fn patch_values(
    grid: GridView,
    function: FUNCTION,
    start: Coordinate,
    patch: GridView,
    table: Seq<FloatFactView>,
) -> Result<Seq<Seq<ValueView>>, HaltView> {
    match first_outside(grid, start, patch) {
        Some(c) => Err(HaltView::Failed(EvalError::OutOfBounds(c))),
        None => gathered(patch_rows(grid, function, start, patch, table)),
    }
}

/// Whether the cell at `(row, column)` lies under `patch` laid at `start`.
pub open spec fn under_patch(start: Coordinate, patch: GridView, row: int, column: int) -> bool {
    start.row <= row < start.row + patch.rows && start.column <= column < start.column
        + patch.columns
}

/// A patch with cells that does not lie in the grid gives `OutOfBounds`,
/// whatever the cells hold.
pub proof fn lemma_patch_outside(
    grid: GridView,
    function: FUNCTION,
    start: Coordinate,
    patch: GridView,
    table: Seq<FloatFactView>,
)
    requires
        patch.rows > 0,
        patch.columns > 0,
        start.row + patch.rows > grid.rows || start.column + patch.columns > grid.columns,
    ensures
        patch_values(grid, function, start, patch, table) matches Err(
            HaltView::Failed(EvalError::OutOfBounds(_)),
        ),
{
}

/// What `first_outside` names lies under the patch and outside the grid, and
/// every position of the patch before it, row by row, lies in the grid. Where
/// it names none, the whole patch lies in the grid.
pub proof fn lemma_first_outside(grid: GridView, start: Coordinate, patch: GridView)
    requires
        grid.rows <= usize::MAX,
        grid.columns <= usize::MAX,
    ensures
        match first_outside(grid, start, patch) {
            Some(c) => {
                &&& under_patch(start, patch, c.row as int, c.column as int)
                &&& !grid.holds(c)
                &&& forall|row: int, column: int|
                    #[trigger] under_patch(start, patch, row, column) && (row < c.row || (row
                        == c.row && column < c.column)) ==> row < grid.rows && column
                        < grid.columns
            },
            None => forall|row: int, column: int|
                #[trigger] under_patch(start, patch, row, column) ==> row < grid.rows && column
                    < grid.columns,
        },
{
}

/// The grid made of rows of texts has their shape, and each of its cells
/// holds the value of the text at its place.
pub proof fn lemma_frame_cells(texts: Seq<Seq<Seq<char>>>, table: Seq<FloatFactView>)
    ensures
        frame_of_texts(texts, table) matches Ok(grid) ==> {
            &&& grid.rows == texts.len()
            &&& grid.columns == width_of(texts)
            &&& grid.cells.len() == grid.size()
            &&& forall|row: int, column: int|
                0 <= row < grid.rows && 0 <= column < grid.columns ==> parse_text(
                    texts[row][column],
                    table,
                ) == Ok::<ValueView, FloatQueryView>(#[trigger] grid.at(row, column))
        },
{
    if frame_of_texts(texts, table) is Ok {
        let width = width_of(texts);
        let rows = gathered(parsed_rows(texts, table))->Ok_0;
        lemma_gathered_values(parsed_rows(texts, table));
        assert forall|i: int| 0 <= i < rows.len() implies (#[trigger] rows[i]).len() == width by {
            assert(parsed_rows(texts, table)[i] == Ok::<Seq<ValueView>, FloatQueryView>(rows[i]));
            lemma_gathered_values(parsed_cells(texts[i], table));
        }
        lemma_flattened(rows, width);
        let grid = grid_of(rows, width);
        assert forall|row: int, column: int|
            0 <= row < grid.rows && 0 <= column < grid.columns implies parse_text(
            texts[row][column],
            table,
        ) == Ok::<ValueView, FloatQueryView>(#[trigger] grid.at(row, column)) by {
            assert(parsed_rows(texts, table)[row] == Ok::<Seq<ValueView>, FloatQueryView>(rows[row]));
            lemma_gathered_values(parsed_cells(texts[row], table));
            assert(parsed_cells(texts[row], table)[column] == parse_text(texts[row][column], table));
            assert(flattened(rows)[row * width + column] == rows[row][column]);
        }
    }
}

/// The grid of a region has the shape of the region, and each of its cells
/// holds what the cell of the region at its place comes to.
pub proof fn lemma_region_cells(
    grid: GridView,
    top_left: Coordinate,
    bottom_right: Coordinate,
    table: Seq<FloatFactView>,
)
    ensures
        region(grid, top_left, bottom_right, table) matches Ok(part) ==> {
            &&& part.rows == bottom_right.row - top_left.row + 1
            &&& part.columns == bottom_right.column - top_left.column + 1
            &&& part.cells.len() == part.size()
            &&& forall|i: int, j: int|
                0 <= i < part.rows && 0 <= j < part.columns ==> settled(
                    grid,
                    grid.at(top_left.row + i, top_left.column + j),
                    table,
                ) == Ok::<ValueView, HaltView>(#[trigger] part.at(i, j))
        },
{
    if region(grid, top_left, bottom_right, table) is Ok {
        let height = (bottom_right.row - top_left.row + 1) as nat;
        let width = (bottom_right.column - top_left.column + 1) as nat;
        let top = top_left.row as int;
        let left = top_left.column as int;
        let items = region_rows(grid, top, left, height, width, table);
        let rows = gathered(items)->Ok_0;
        lemma_gathered_values(items);
        assert forall|i: int| 0 <= i < rows.len() implies (#[trigger] rows[i]).len() == width by {
            assert(items[i] == Ok::<Seq<ValueView>, HaltView>(rows[i]));
            lemma_gathered_values(region_cells(grid, top + i, left, width, table));
        }
        lemma_flattened(rows, width);
        let part = grid_of(rows, width);
        assert forall|i: int, j: int| 0 <= i < part.rows && 0 <= j < part.columns implies settled(
            grid,
            grid.at(top_left.row + i, top_left.column + j),
            table,
        ) == Ok::<ValueView, HaltView>(#[trigger] part.at(i, j)) by {
            assert(items[i] == Ok::<Seq<ValueView>, HaltView>(rows[i]));
            lemma_gathered_values(region_cells(grid, top + i, left, width, table));
            assert(region_cells(grid, top + i, left, width, table)[j] == settled(
                grid,
                grid.at(top + i, left + j),
                table,
            ));
            assert(flattened(rows)[i * width + j] == rows[i][j]);
        }
    }
}

/// The new contents under a patch are as many rows and columns as the patch
/// has, and each is what the function makes of the cell under it and the cell
/// of the patch.
pub proof fn lemma_patch_cells(
    grid: GridView,
    function: FUNCTION,
    start: Coordinate,
    patch: GridView,
    table: Seq<FloatFactView>,
)
    ensures
        patch_values(grid, function, start, patch, table) matches Ok(values) ==> {
            &&& values.len() == patch.rows
            &&& forall|i: int| 0 <= i < patch.rows ==> (#[trigger] values[i]).len() == patch.columns
            &&& forall|i: int, j: int|
                0 <= i < patch.rows && 0 <= j < patch.columns ==> combined(
                    grid,
                    function,
                    grid.at(start.row + i, start.column + j),
                    patch.at(i, j),
                    table,
                ) == Ok::<ValueView, HaltView>(#[trigger] values[i][j])
        },
{
    if patch_values(grid, function, start, patch, table) is Ok {
        let items = patch_rows(grid, function, start, patch, table);
        let values = gathered(items)->Ok_0;
        lemma_gathered_values(items);
        assert forall|i: int| 0 <= i < patch.rows implies (#[trigger] values[i]).len()
            == patch.columns by {
            assert(items[i] == Ok::<Seq<ValueView>, HaltView>(values[i]));
            lemma_gathered_values(patch_cells(grid, function, start, patch, i, table));
        }
        assert forall|i: int, j: int| 0 <= i < patch.rows && 0 <= j < patch.columns implies combined(
            grid,
            function,
            grid.at(start.row + i, start.column + j),
            patch.at(i, j),
            table,
        ) == Ok::<ValueView, HaltView>(#[trigger] values[i][j]) by {
            assert(items[i] == Ok::<Seq<ValueView>, HaltView>(values[i]));
            let cells = patch_cells(grid, function, start, patch, i, table);
            lemma_gathered_values(cells);
            assert(cells[j] == combined(
                grid,
                function,
                grid.at(start.row + i, start.column + j),
                patch.at(i, j),
                table,
            ));
        }
    }
}

/// Rows that all have values gather into values.
proof fn lemma_all_rows(items: Seq<Result<Seq<ValueView>, HaltView>>)
    requires
        forall|i: int| 0 <= i < items.len() ==> (#[trigger] items[i]) is Ok,
    ensures
        gathered(items) is Ok,
    decreases items.len(),
{
    if items.len() > 0 {
        lemma_all_rows(items.drop_last());
    }
}

/// A grid within a grid that `ndarray` makes is one that it makes too.
proof fn lemma_smaller_fits(rows: nat, columns: nat, height: nat, width: nat)
    requires
        shape_fits(rows, columns),
        1 <= height <= rows,
        1 <= width <= columns,
    ensures
        shape_fits(height, width),
{
    assert(height * width <= rows * columns) by (nonlinear_arith)
        requires
            1 <= height <= rows,
            1 <= width <= columns,
    {
    }
}

/// The length that all rows of `rows` have, if they have one.
fn common_width<T>(rows: &Vec<Vec<T>>) -> (r: Option<usize>)
    ensures
        match r {
            Some(width) => {
                &&& forall|i: int| 0 <= i < rows.len() ==> (#[trigger] rows[i]).len() == width
                &&& rows.len() > 0 ==> width == rows[0].len()
                &&& rows.len() == 0 ==> width == 0
            },
            None => rows.len() > 0 && exists|i: int|
                0 <= i < rows.len() && (#[trigger] rows[i]).len() != rows[0].len(),
        },
{
    let height: usize = rows.len();
    let width: usize = if height == 0 {
        0
    } else {
        rows[0].len()
    };
    let mut i: usize = 0;
    while i < height
        invariant
            i <= height,
            height == rows.len(),
            width == (if rows.len() == 0 {
                0
            } else {
                rows[0].len()
            }),
            forall|j: int| 0 <= j < i ==> (#[trigger] rows[j]).len() == width,
        decreases height - i,
    {
        if rows[i].len() != width {
            return None;
        }
        i += 1;
    }
    Some(width)
}

/// The values of the texts of `row`.
fn parse_row(row: &Vec<String>, table: &FloatTable) -> (r: Result<Vec<Value>, FloatQuery>)
    ensures
        match r {
            Ok(values) => gathered(parsed_cells(texts_of(row@), table@)) == Ok::<
                Seq<ValueView>,
                FloatQueryView,
            >(views_of(values@)),
            Err(query) => gathered(parsed_cells(texts_of(row@), table@)) == Err::<
                Seq<ValueView>,
                FloatQueryView,
            >(query@),
        },
{
    let ghost items = parsed_cells(texts_of(row@), table@);
    let mut values: Vec<Value> = Vec::new();
    let mut j: usize = 0;
    assert(items.subrange(0, 0) =~= Seq::empty());
    assert(views_of(values@) =~= Seq::<ValueView>::empty());
    while j < row.len()
        invariant
            j <= row.len(),
            items == parsed_cells(texts_of(row@), table@),
            gathered(items.subrange(0, j as int)) == Ok::<Seq<ValueView>, FloatQueryView>(
                views_of(values@),
            ),
        decreases row.len() - j,
    {
        let chars = chars_of(row[j].as_str());
        let ghost before = views_of(values@);
        assert(items.subrange(0, j + 1).drop_last() =~= items.subrange(0, j as int));
        assert(items.subrange(0, j + 1).last() == parse_text(row[j as int]@, table@));
        match parse_chars(&chars, table) {
            Err(query) => {
                proof {
                    lemma_gathered_error(items, j + 1);
                }
                return Err(query);
            },
            Ok(value) => {
                values.push(value);
                assert(views_of(values@) =~= before.push(value@));
            },
        }
        j += 1;
    }
    assert(items.subrange(0, row.len() as int) =~= items);
    Ok(values)
}

/// Copies of the values of `row`.
fn copy_row(row: &Vec<Value>) -> (r: Vec<Value>)
    ensures
        views_of(r@) == views_of(row@),
{
    let mut values: Vec<Value> = Vec::new();
    let mut j: usize = 0;
    while j < row.len()
        invariant
            j <= row.len(),
            values.len() == j,
            forall|k: int| 0 <= k < j ==> values[k]@ == row[k]@,
        decreases row.len() - j,
    {
        values.push(row[j].clone());
        j += 1;
    }
    assert(views_of(values@) =~= views_of(row@));
    values
}

/// Whether `chain` holds `c`.
fn on_chain(chain: &Vec<Coordinate>, c: Coordinate) -> (r: bool)
    ensures
        r == chain@.contains(c),
{
    let mut i: usize = 0;
    while i < chain.len()
        invariant
            i <= chain.len(),
            forall|j: int| 0 <= j < i ==> chain[j] != c,
        decreases chain.len() - i,
    {
        if chain[i].row == c.row && chain[i].column == c.column {
            return true;
        }
        i += 1;
    }
    false
}

impl View for DataFrame {
    type V = GridView;

    closed spec fn view(&self) -> GridView {
        self.data@
    }
}

impl DataFrame {
    /// The store holds a cell for every pair of a row and a column, in a
    /// shape that `ndarray` makes.
    #[verifier::type_invariant]
    spec fn well_formed(self) -> bool {
        &&& self.data@.cells.len() == self.data@.size()
        &&& shape_fits(self.data@.rows, self.data@.columns)
    }

    /// The grid whose rows are the rows of `data`, each text parsed into its
    /// value. Fails with `ShapeError` where the rows differ in length.
    pub fn new(data: Vec<Vec<String>>, table: &FloatTable) -> (r: Result<DataFrame, Halt>)
        ensures
            match r {
                Ok(frame) => frame_of_texts(text_rows(data@), table@) == Ok::<GridView, HaltView>(
                    frame@,
                ),
                Err(halt) => frame_of_texts(text_rows(data@), table@) == Err::<GridView, HaltView>(
                    halt@,
                ),
            },
    {
        let ghost texts = text_rows(data@);
        let ghost items = parsed_rows(texts, table@);
        assert forall|i: int| 0 <= i < texts.len() implies (#[trigger] texts[i]).len() == data[i].len() by {}
        let width: usize = match common_width(&data) {
            Some(width) => width,
            None => {
                proof {
                    let i = choose|i: int| 0 <= i < data.len() && (#[trigger] data[i]).len() != data[0].len();
                    assert(texts[i].len() != width_of(texts));
                }
                return Err(Halt::Failed(EvalError::ShapeError));
            },
        };
        let height: usize = data.len();
        assert(rectangular(texts));
        let mut cells: Vec<Value> = Vec::new();
        let ghost mut done: Seq<Seq<ValueView>> = Seq::empty();
        let mut i: usize = 0;
        assert(items.subrange(0, 0) =~= Seq::empty());
        assert(views_of(cells@) =~= Seq::<ValueView>::empty());
        while i < height
            invariant
                i <= height,
                height == data.len(),
                texts == text_rows(data@),
                rectangular(texts),
                width == width_of(texts),
                items == parsed_rows(texts, table@),
                gathered(items.subrange(0, i as int)) == Ok::<Seq<Seq<ValueView>>, FloatQueryView>(
                    done,
                ),
                done.len() == i,
                forall|k: int| 0 <= k < i ==> (#[trigger] done[k]).len() == width,
                views_of(cells@) == flattened(done),
            decreases height - i,
        {
            assert(items.subrange(0, i + 1).drop_last() =~= items.subrange(0, i as int));
            match parse_row(&data[i], table) {
                Err(query) => {
                    proof {
                        lemma_gathered_error(items, i + 1);
                    }
                    return Err(Halt::Needs(query));
                },
                Ok(mut values) => {
                    proof {
                        let row = views_of(values@);
                        lemma_gathered_values(parsed_cells(texts[i as int], table@));
                        assert(done.push(row).drop_last() =~= done);
                        assert(views_of(cells@ + values@) =~= views_of(cells@) + row);
                        done = done.push(row);
                    }
                    cells.append(&mut values);
                },
            }
            i += 1;
        }
        assert(items.subrange(0, height as int) =~= items);
        proof {
            lemma_flattened(done, width as nat);
        }
        match Grid::build(height, width, cells) {
            Ok(grid) => Ok(DataFrame { data: grid }),
            Err(_) => Err(Halt::Failed(EvalError::ShapeError)),
        }
    }

    /// The grid whose rows are the rows of `values`. Fails with `ShapeError`
    /// where the rows differ in length.
    pub fn from_values(values: Vec<Vec<Value>>) -> (r: Result<DataFrame, EvalError>)
        ensures
            match r {
                Ok(frame) => frame_of_values(value_rows(values@)) == Ok::<GridView, EvalError>(
                    frame@,
                ),
                Err(e) => frame_of_values(value_rows(values@)) == Err::<GridView, EvalError>(e),
            },
    {
        let ghost rows = value_rows(values@);
        assert forall|i: int| 0 <= i < rows.len() implies (#[trigger] rows[i]).len() == values[i].len() by {}
        let width: usize = match common_width(&values) {
            Some(width) => width,
            None => {
                proof {
                    let i = choose|i: int| 0 <= i < values.len() && (#[trigger] values[i]).len() != values[0].len();
                    assert(rows[i].len() != width_of(rows));
                }
                return Err(EvalError::ShapeError);
            },
        };
        let height: usize = values.len();
        assert(rectangular(rows));
        let mut cells: Vec<Value> = Vec::new();
        let mut i: usize = 0;
        assert(rows.subrange(0, 0) =~= Seq::empty());
        assert(views_of(cells@) =~= Seq::<ValueView>::empty());
        while i < height
            invariant
                i <= height,
                height == values.len(),
                rows == value_rows(values@),
                views_of(cells@) == flattened(rows.subrange(0, i as int)),
            decreases height - i,
        {
            let mut copies = copy_row(&values[i]);
            proof {
                assert(rows.subrange(0, i + 1).drop_last() =~= rows.subrange(0, i as int));
                assert(views_of(cells@ + copies@) =~= views_of(cells@) + views_of(copies@));
            }
            cells.append(&mut copies);
            i += 1;
        }
        assert(rows.subrange(0, height as int) =~= rows);
        proof {
            lemma_flattened(rows, width as nat);
        }
        match Grid::build(height, width, cells) {
            Ok(grid) => Ok(DataFrame { data: grid }),
            Err(_) => Err(EvalError::ShapeError),
        }
    }

    /// The number of rows. A grid has a cell for every pair of a row and a
    /// column.
    pub fn nrows(&self) -> (r: usize)
        ensures
            r == self@.rows,
            self@.cells.len() == self@.size(),
    {
        proof {
            use_type_invariant(self);
        }
        self.data.rows()
    }

    /// The number of columns.
    pub fn ncols(&self) -> (r: usize)
        ensures
            r == self@.columns,
    {
        self.data.columns()
    }

    /// The store of the cells.
    pub fn data(&self) -> (r: &Grid)
        ensures
            r@ == self@,
    {
        &self.data
    }

    /// The cell at `(row, column)`, or `None` outside the grid.
    pub fn get(&self, row: usize, column: usize) -> (r: Option<&Value>)
        ensures
            r is Some <==> (row < self@.rows && column < self@.columns),
            r is Some ==> r->0@ == self@.at(row as int, column as int),
    {
        self.data.get(row, column)
    }

    /// The cell at `(row, column)` of the grid.
    fn cell(&self, row: usize, column: usize) -> (r: &Value)
        requires
            row < self@.rows,
            column < self@.columns,
        ensures
            r@ == self@.at(row as int, column as int),
    {
        match self.data.get(row, column) {
            Some(cell) => cell,
            None => vstd::pervasive::unreached(),
        }
    }

    /// What `cell` comes to while the cells of `chain` are being resolved.
    /// The chain is handed back as it was.
    fn resolve_in(&self, chain: &mut Vec<Coordinate>, cell: &Value, table: &FloatTable) -> (r: Result<
        Value,
        Halt,
    >)
        requires
            chain_ok(old(chain)@, self@),
        ensures
            final(chain)@ == old(chain)@,
            match r {
                Ok(value) => resolved(self@, old(chain)@, cell@, table@) == Ok::<ValueView, HaltView>(
                    value@,
                ),
                Err(halt) => resolved(self@, old(chain)@, cell@, table@) == Err::<
                    ValueView,
                    HaltView,
                >(halt@),
            },
        decreases self@.size() - old(chain)@.len(), cell, 0nat,
    {
        match cell {
            Value::CellReference(c) => {
                match cell.solve_reference(&self.data) {
                    None => Err(Halt::Failed(EvalError::OutOfBounds(*c))),
                    Some(target) => {
                        if on_chain(chain, *c) {
                            return Err(Halt::Failed(EvalError::CyclicReference(*c)));
                        }
                        proof {
                            lemma_chain_fits(chain@, self@, *c);
                        }
                        let ghost before = chain@;
                        chain.push(*c);
                        let r = self.resolve_in(chain, target, table);
                        chain.pop();
                        assert(chain@ =~= before);
                        r
                    },
                }
            },
            Value::FormulaCall(function, operands) => {
                let ghost goal = resolved_each(self@, chain@, views_of(operands@), 0, table@);
                proof {
                    lemma_call_view(*function, *operands);
                }
                let mut values: Vec<Value> = Vec::new();
                let mut k: usize = 0;
                assert(views_of(values@) =~= Seq::<ValueView>::empty());
                assert(goal == prepend(views_of(values@), goal)) by {
                    if goal is Ok {
                        assert(Seq::<ValueView>::empty() + goal->Ok_0 =~= goal->Ok_0);
                    }
                }
                while k < operands.len()
                    invariant
                        k <= operands.len(),
                        cell is FormulaCall,
                        cell->FormulaCall_1 == *operands,
                        cell@ == ValueView::FormulaCall(*function, views_of(operands@)),
                        chain@ == old(chain)@,
                        chain_ok(chain@, self@),
                        goal == resolved_each(self@, chain@, views_of(operands@), 0, table@),
                        goal == prepend(
                            views_of(values@),
                            resolved_each(self@, chain@, views_of(operands@), k as int, table@),
                        ),
                    decreases operands.len() - k,
                {
                    let ghost before = views_of(values@);
                    match self.resolve_in(chain, &operands[k], table) {
                        Err(halt) => {
                            return Err(halt);
                        },
                        Ok(value) => {
                            values.push(value);
                            proof {
                                let tail = resolved_each(
                                    self@,
                                    chain@,
                                    views_of(operands@),
                                    k + 1,
                                    table@,
                                );
                                assert(views_of(values@) =~= before.push(value@));
                                if tail is Ok {
                                    assert(before + (seq![value@] + tail->Ok_0) =~= views_of(values@)
                                        + tail->Ok_0);
                                }
                            }
                        },
                    }
                    k += 1;
                }
                assert(views_of(values@) + Seq::<ValueView>::empty() =~= views_of(values@));
                solve_function(function, &values, table)
            },
            _ => Ok(cell.clone()),
        }
    }

    /// The simple value that `cell` comes to in this grid: its references
    /// followed and its formulas computed. The grid stays as it is.
    pub fn solve_cell(&self, cell: &Value, table: &FloatTable) -> (r: Result<Value, Halt>)
        ensures
            r matches Ok(value) ==> is_simple(value@),
            match r {
                Ok(value) => settled(self@, cell@, table@) == Ok::<ValueView, HaltView>(value@),
                Err(halt) => settled(self@, cell@, table@) == Err::<ValueView, HaltView>(halt@),
            },
    {
        let mut chain: Vec<Coordinate> = Vec::new();
        proof {
            lemma_resolved_simple(self@, Seq::empty(), cell@, table@);
        }
        self.resolve_in(&mut chain, cell, table)
    }

    /// What the `width` cells of row `row` from column `left` on come to.
    fn solve_row(&self, row: usize, left: usize, width: usize, table: &FloatTable) -> (r: Result<
        Vec<Value>,
        Halt,
    >)
        requires
            row < self@.rows,
            left + width <= self@.columns,
        ensures
            match r {
                Ok(values) => gathered(
                    region_cells(self@, row as int, left as int, width as nat, table@),
                ) == Ok::<Seq<ValueView>, HaltView>(views_of(values@)),
                Err(halt) => gathered(
                    region_cells(self@, row as int, left as int, width as nat, table@),
                ) == Err::<Seq<ValueView>, HaltView>(halt@),
            },
    {
        let ghost items = region_cells(self@, row as int, left as int, width as nat, table@);
        let columns: usize = self.data.columns();
        let mut values: Vec<Value> = Vec::new();
        let mut j: usize = 0;
        assert(items.subrange(0, 0) =~= Seq::empty());
        assert(views_of(values@) =~= Seq::<ValueView>::empty());
        while j < width
            invariant
                j <= width,
                row < self@.rows,
                columns == self@.columns,
                left + width <= self@.columns,
                items == region_cells(self@, row as int, left as int, width as nat, table@),
                gathered(items.subrange(0, j as int)) == Ok::<Seq<ValueView>, HaltView>(
                    views_of(values@),
                ),
            decreases width - j,
        {
            let ghost before = views_of(values@);
            assert(items.subrange(0, j + 1).drop_last() =~= items.subrange(0, j as int));
            match self.solve_cell(self.cell(row, left + j), table) {
                Err(halt) => {
                    proof {
                        lemma_gathered_error(items, j + 1);
                    }
                    return Err(halt);
                },
                Ok(value) => {
                    values.push(value);
                    assert(views_of(values@) =~= before.push(value@));
                },
            }
            j += 1;
        }
        assert(items.subrange(0, width as int) =~= items);
        Ok(values)
    }

    /// The grid of what the cells between the corners `coords1` and
    /// `coords2` come to. This grid stays as it is.
    pub fn simplify(&self, coords1: Coordinate, coords2: Coordinate, table: &FloatTable) -> (r: Result<
        DataFrame,
        Halt,
    >)
        ensures
            match r {
                Ok(frame) => region(self@, coords1, coords2, table@) == Ok::<GridView, HaltView>(
                    frame@,
                ),
                Err(halt) => region(self@, coords1, coords2, table@) == Err::<GridView, HaltView>(
                    halt@,
                ),
            },
    {
        proof {
            use_type_invariant(self);
        }
        let rows: usize = self.data.rows();
        let columns: usize = self.data.columns();
        if coords1.row >= rows || coords1.column >= columns {
            return Err(Halt::Failed(EvalError::OutOfBounds(coords1)));
        }
        if coords2.row >= rows || coords2.column >= columns {
            return Err(Halt::Failed(EvalError::OutOfBounds(coords2)));
        }
        if coords1.row > coords2.row || coords1.column > coords2.column {
            return Err(Halt::Failed(EvalError::InvalidRange));
        }
        let height: usize = coords2.row - coords1.row + 1;
        let width: usize = coords2.column - coords1.column + 1;
        let ghost items = region_rows(
            self@,
            coords1.row as int,
            coords1.column as int,
            height as nat,
            width as nat,
            table@,
        );
        let mut cells: Vec<Value> = Vec::new();
        let ghost mut done: Seq<Seq<ValueView>> = Seq::empty();
        let mut i: usize = 0;
        assert(items.subrange(0, 0) =~= Seq::empty());
        assert(views_of(cells@) =~= Seq::<ValueView>::empty());
        while i < height
            invariant
                i <= height,
                rows == self@.rows,
                columns == self@.columns,
                coords1.row <= coords2.row < rows,
                coords1.column <= coords2.column < columns,
                height == coords2.row - coords1.row + 1,
                width == coords2.column - coords1.column + 1,
                items == region_rows(
                    self@,
                    coords1.row as int,
                    coords1.column as int,
                    height as nat,
                    width as nat,
                    table@,
                ),
                gathered(items.subrange(0, i as int)) == Ok::<Seq<Seq<ValueView>>, HaltView>(done),
                done.len() == i,
                forall|k: int| 0 <= k < i ==> (#[trigger] done[k]).len() == width,
                views_of(cells@) == flattened(done),
            decreases height - i,
        {
            assert(items.subrange(0, i + 1).drop_last() =~= items.subrange(0, i as int));
            match self.solve_row(coords1.row + i, coords1.column, width, table) {
                Err(halt) => {
                    proof {
                        lemma_gathered_error(items, i + 1);
                    }
                    return Err(halt);
                },
                Ok(mut values) => {
                    proof {
                        let row = views_of(values@);
                        lemma_gathered_values(
                            region_cells(
                                self@,
                                coords1.row + i,
                                coords1.column as int,
                                width as nat,
                                table@,
                            ),
                        );
                        assert(done.push(row).drop_last() =~= done);
                        assert(views_of(cells@ + values@) =~= views_of(cells@) + row);
                        done = done.push(row);
                    }
                    cells.append(&mut values);
                },
            }
            i += 1;
        }
        assert(items.subrange(0, height as int) =~= items);
        proof {
            lemma_flattened(done, width as nat);
            lemma_smaller_fits(self@.rows, self@.columns, height as nat, width as nat);
        }
        match Grid::build(height, width, cells) {
            Ok(grid) => Ok(DataFrame { data: grid }),
            Err(_) => vstd::pervasive::unreached(),
        }
    }

    /// The new contents of the cells under row `i` of the patch `apply_df`
    /// laid at `start`.
    fn combine_row(
        &self,
        start: Coordinate,
        function: FUNCTION,
        apply_df: &DataFrame,
        i: usize,
        table: &FloatTable,
    ) -> (r: Result<Vec<Value>, Halt>)
        requires
            i < apply_df@.rows,
            start.row + apply_df@.rows <= self@.rows,
            start.column + apply_df@.columns <= self@.columns,
        ensures
            match r {
                Ok(values) => gathered(
                    patch_cells(self@, function, start, apply_df@, i as int, table@),
                ) == Ok::<Seq<ValueView>, HaltView>(views_of(values@)),
                Err(halt) => gathered(
                    patch_cells(self@, function, start, apply_df@, i as int, table@),
                ) == Err::<Seq<ValueView>, HaltView>(halt@),
            },
    {
        let width: usize = apply_df.data.columns();
        let rows: usize = self.data.rows();
        let columns: usize = self.data.columns();
        let ghost items = patch_cells(self@, function, start, apply_df@, i as int, table@);
        let mut values: Vec<Value> = Vec::new();
        let mut j: usize = 0;
        assert(items.subrange(0, 0) =~= Seq::empty());
        assert(views_of(values@) =~= Seq::<ValueView>::empty());
        while j < width
            invariant
                j <= width,
                width == apply_df@.columns,
                rows == self@.rows,
                columns == self@.columns,
                i < apply_df@.rows,
                start.row + apply_df@.rows <= self@.rows,
                start.column + apply_df@.columns <= self@.columns,
                items == patch_cells(self@, function, start, apply_df@, i as int, table@),
                gathered(items.subrange(0, j as int)) == Ok::<Seq<ValueView>, HaltView>(
                    views_of(values@),
                ),
            decreases width - j,
        {
            let ghost before = views_of(values@);
            assert(items.subrange(0, j + 1).drop_last() =~= items.subrange(0, j as int));
            let target = self.cell(start.row + i, start.column + j);
            let operand = apply_df.cell(i, j);
            let first = match self.solve_cell(target, table) {
                Ok(value) => value,
                Err(halt) => {
                    proof {
                        lemma_gathered_error(items, j + 1);
                    }
                    return Err(halt);
                },
            };
            let second = match self.solve_cell(operand, table) {
                Ok(value) => value,
                Err(halt) => {
                    proof {
                        lemma_gathered_error(items, j + 1);
                    }
                    return Err(halt);
                },
            };
            let mut pair: Vec<Value> = Vec::new();
            pair.push(first);
            pair.push(second);
            assert(views_of(pair@) =~= seq![first@, second@]);
            match solve_function(&function, &pair, table) {
                Err(halt) => {
                    proof {
                        lemma_gathered_error(items, j + 1);
                    }
                    return Err(halt);
                },
                Ok(value) => {
                    values.push(value);
                    assert(views_of(values@) =~= before.push(value@));
                },
            }
            j += 1;
        }
        assert(items.subrange(0, width as int) =~= items);
        Ok(values)
    }

    /// Replaces each cell under the patch `apply_df`, laid with its first cell
    /// at `(row_start, column_start)`, by what `function` makes of what the
    /// cell and the cell of the patch above it come to in this grid. Every new
    /// content is computed before any cell is written: where the patch does
    /// not lie in the grid, or any cell stops, the grid stays as it was.
    pub fn apply(
        &mut self,
        row_start: usize,
        column_start: usize,
        function: FUNCTION,
        apply_df: &DataFrame,
        table: &FloatTable,
    ) -> (r: Result<(), Halt>)
        ensures
            final(self)@.rows == old(self)@.rows,
            final(self)@.columns == old(self)@.columns,
            final(self)@.cells.len() == old(self)@.cells.len(),
            match r {
                Ok(()) => {
                    let start = Coordinate { row: row_start, column: column_start };
                    let values = patch_values(old(self)@, function, start, apply_df@, table@);
                    &&& values is Ok
                    &&& forall|row: int, column: int|
                        0 <= row < old(self)@.rows && 0 <= column < old(self)@.columns
                            ==> #[trigger] final(self)@.at(row, column) == (if under_patch(
                            start,
                            apply_df@,
                            row,
                            column,
                        ) {
                            values->Ok_0[row - row_start][column - column_start]
                        } else {
                            old(self)@.at(row, column)
                        })
                },
                Err(halt) => {
                    &&& final(self)@ == old(self)@
                    &&& patch_values(
                        old(self)@,
                        function,
                        Coordinate { row: row_start, column: column_start },
                        apply_df@,
                        table@,
                    ) == Err::<Seq<Seq<ValueView>>, HaltView>(halt@)
                },
            },
    {
        proof {
            use_type_invariant(&*self);
            use_type_invariant(apply_df);
        }
        let rows: usize = self.data.rows();
        let columns: usize = self.data.columns();
        let height: usize = apply_df.data.rows();
        let width: usize = apply_df.data.columns();
        let start = Coordinate { row: row_start, column: column_start };
        let ghost items = patch_rows(self@, function, start, apply_df@, table@);
        if height == 0 || width == 0 {
            proof {
                lemma_all_rows(items);
            }
            return Ok(());
        }
        if row_start >= rows || column_start >= columns {
            return Err(Halt::Failed(EvalError::OutOfBounds(start)));
        }
        if width > columns - column_start {
            return Err(
                Halt::Failed(EvalError::OutOfBounds(Coordinate { row: row_start, column: columns })),
            );
        }
        if height > rows - row_start {
            return Err(
                Halt::Failed(EvalError::OutOfBounds(Coordinate { row: rows, column: column_start })),
            );
        }
        let mut results: Vec<Value> = Vec::new();
        let ghost mut done: Seq<Seq<ValueView>> = Seq::empty();
        let mut i: usize = 0;
        assert(items.subrange(0, 0) =~= Seq::empty());
        assert(views_of(results@) =~= Seq::<ValueView>::empty());
        while i < height
            invariant
                i <= height,
                *self == *old(self),
                rows == self@.rows,
                columns == self@.columns,
                height == apply_df@.rows,
                width == apply_df@.columns,
                start == (Coordinate { row: row_start, column: column_start }),
                height > 0,
                width > 0,
                row_start + height <= rows,
                column_start + width <= columns,
                items == patch_rows(self@, function, start, apply_df@, table@),
                gathered(items.subrange(0, i as int)) == Ok::<Seq<Seq<ValueView>>, HaltView>(done),
                done.len() == i,
                forall|k: int| 0 <= k < i ==> (#[trigger] done[k]).len() == width,
                views_of(results@) == flattened(done),
            decreases height - i,
        {
            assert(items.subrange(0, i + 1).drop_last() =~= items.subrange(0, i as int));
            match self.combine_row(start, function, apply_df, i, table) {
                Err(halt) => {
                    proof {
                        lemma_gathered_error(items, i + 1);
                    }
                    return Err(halt);
                },
                Ok(mut values) => {
                    proof {
                        let row = views_of(values@);
                        lemma_gathered_values(
                            patch_cells(self@, function, start, apply_df@, i as int, table@),
                        );
                        assert(done.push(row).drop_last() =~= done);
                        assert(views_of(results@ + values@) =~= views_of(results@) + row);
                        done = done.push(row);
                    }
                    results.append(&mut values);
                },
            }
            i += 1;
        }
        assert(items.subrange(0, height as int) =~= items);
        proof {
            lemma_flattened(done, width as nat);
        }
        let ghost before = self@;
        let ghost patch = apply_df@;
        let mut k: usize = 0;
        i = 0;
        while i < height
            invariant
                i <= height,
                rows == self@.rows,
                columns == self@.columns,
                before == old(self)@,
                before.rows == rows,
                before.columns == columns,
                self@.cells.len() == before.cells.len(),
                before.cells.len() == rows * columns,
                shape_fits(rows as nat, columns as nat),
                patch.rows == height,
                patch.columns == width,
                height > 0,
                width > 0,
                row_start + height <= rows,
                column_start + width <= columns,
                start == (Coordinate { row: row_start, column: column_start }),
                done.len() == height,
                forall|k: int| 0 <= k < height ==> (#[trigger] done[k]).len() == width,
                views_of(results@) == flattened(done),
                results.len() == height * width,
                forall|a: int, b: int|
                    0 <= a < height && 0 <= b < width ==> #[trigger] flattened(done)[a * width + b]
                        == done[a][b],
                k == i * width,
                forall|row: int, column: int|
                    0 <= row < rows && 0 <= column < columns ==> #[trigger] self@.at(row, column) == (
                    if start.row <= row < start.row + i && start.column <= column < start.column
                        + width {
                        done[row - row_start][column - column_start]
                    } else {
                        before.at(row, column)
                    }),
            decreases height - i,
        {
            let mut j: usize = 0;
            while j < width
                invariant
                    i < height,
                    j <= width,
                    rows == self@.rows,
                    columns == self@.columns,
                    before.rows == rows,
                    before.columns == columns,
                    self@.cells.len() == before.cells.len(),
                    before.cells.len() == rows * columns,
                    shape_fits(rows as nat, columns as nat),
                    height > 0,
                    width > 0,
                    row_start + height <= rows,
                    column_start + width <= columns,
                    start == (Coordinate { row: row_start, column: column_start }),
                    done.len() == height,
                    forall|k: int| 0 <= k < height ==> (#[trigger] done[k]).len() == width,
                    views_of(results@) == flattened(done),
                    results.len() == height * width,
                    forall|a: int, b: int|
                        0 <= a < height && 0 <= b < width ==> #[trigger] flattened(done)[a * width
                            + b] == done[a][b],
                    k == i * width + j,
                    forall|row: int, column: int|
                        0 <= row < rows && 0 <= column < columns ==> #[trigger] self@.at(row, column)
                            == (if (start.row <= row < start.row + i && start.column <= column
                            < start.column + width) || (row == row_start + i && column_start
                            <= column < column_start + j) {
                            done[row - row_start][column - column_start]
                        } else {
                            before.at(row, column)
                        }),
                decreases width - j,
            {
                proof {
                    lemma_place_within(height as nat, width as nat, i as int, j as int);
                    lemma_place_within(
                        rows as nat,
                        columns as nat,
                        row_start + i,
                        column_start + j,
                    );
                }
                let value = results[k].clone();
                assert(value@ == done[i as int][j as int]) by {
                    assert(views_of(results@)[k as int] == results[k as int]@);
                    assert(flattened(done)[i * width + j] == done[i as int][j as int]);
                }
                let ghost earlier = self@;
                let ghost place = Coordinate {
                    row: (row_start + i) as usize,
                    column: (column_start + j) as usize,
                };
                self.data.put(row_start + i, column_start + j, value);
                proof {
                    assert forall|row: int, column: int|
                        0 <= row < rows && 0 <= column < columns implies #[trigger] self@.at(
                        row,
                        column,
                    ) == (if (start.row <= row < start.row + i && start.column <= column
                        < start.column + width) || (row == row_start + i && column_start <= column
                        < column_start + j + 1) {
                        done[row - row_start][column - column_start]
                    } else {
                        before.at(row, column)
                    }) by {
                        if row == row_start + i && column == column_start + j {
                        } else {
                            let other = Coordinate { row: row as usize, column: column as usize };
                            if other.row * columns + other.column == place.row * columns
                                + place.column {
                                lemma_place_injective(columns as nat, other, place);
                            }
                            lemma_place_within(rows as nat, columns as nat, row, column);
                            assert(self@.at(row, column) == earlier.at(row, column));
                        }
                    }
                }
                j += 1;
                k += 1;
            }
            assert((i + 1) * width == i * width + width) by (nonlinear_arith);
            i += 1;
        }
        Ok(())
    }
}

} // verus!
