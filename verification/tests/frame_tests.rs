use sheetcore::coordinate::Coordinate;
use sheetcore::error::{EvalError, Halt};
use sheetcore::number::{FloatAnswer, FloatFact, FloatQuery, FloatTable};
use sheetcore::{DataFrame, Value, FUNCTION};

fn answer(query: &FloatQuery) -> FloatAnswer {
    match query {
        FloatQuery::Read(text) => FloatAnswer::Bits(text.parse::<f32>().unwrap().to_bits()),
        FloatQuery::Widen(i) => FloatAnswer::Bits((*i as f32).to_bits()),
        FloatQuery::Narrow(b) => FloatAnswer::Whole(f32::from_bits(*b) as i32),
        FloatQuery::Sum(a, b) => {
            FloatAnswer::Bits((f32::from_bits(*a) + f32::from_bits(*b)).to_bits())
        }
        FloatQuery::Render(b, p) => FloatAnswer::Text(format!("{:.*}", *p, f32::from_bits(*b))),
    }
}

fn settle<T>(mut run: impl FnMut(&FloatTable) -> Result<T, Halt>) -> Result<T, EvalError> {
    let mut table = FloatTable::new();
    loop {
        match run(&table) {
            Ok(value) => return Ok(value),
            Err(Halt::Failed(e)) => return Err(e),
            Err(Halt::Needs(query)) => {
                let reply = answer(&query);
                table.record(FloatFact { query, answer: reply });
            }
        }
    }
}

fn frame_of(texts: &[&[&str]]) -> Result<DataFrame, EvalError> {
    let data: Vec<Vec<String>> =
        texts.iter().map(|row| row.iter().map(|t| t.to_string()).collect()).collect();
    settle(|table| DataFrame::new(data.clone(), table))
}

fn integers(rows: &[&[i32]]) -> DataFrame {
    let values: Vec<Vec<Value>> =
        rows.iter().map(|row| row.iter().map(|i| Value::Integer(*i)).collect()).collect();
    DataFrame::from_values(values).unwrap()
}

fn at(row: usize, column: usize) -> Coordinate {
    Coordinate { row, column }
}

#[test]
fn test_simplify() {
    let input = frame_of(&[&["3"], &["ADD([A0],[A0])"], &["ADD([A1],[A0])"]]).unwrap();

    let expected = integers(&[&[3], &[6], &[9]]);

    assert_eq!(expected, settle(|table| input.simplify(at(0, 0), at(2, 0), table)).unwrap());
}

#[test]
fn test_df_apply_add() {
    let mut input = integers(&[&[1, 4], &[3, 5], &[2, 6]]);

    let expected = integers(&[&[3, 4], &[5, 5], &[4, 6]]);

    let patch = integers(&[&[2], &[2], &[2]]);
    settle(|table| input.apply(0, 0, FUNCTION::ADD, &patch, table)).unwrap();

    assert_eq!(expected, input);
}

#[test]
fn new_parses_each_text_into_its_cell() {
    let frame = frame_of(&[&["1", "", "x"], &["2.50", "[B1]", "ADD(1,2)"]]).unwrap();
    assert_eq!(frame.nrows(), 2);
    assert_eq!(frame.ncols(), 3);
    assert_eq!(frame.get(0, 0), Some(&Value::Integer(1)));
    assert_eq!(frame.get(0, 1), Some(&Value::Null));
    assert_eq!(frame.get(0, 2), Some(&Value::Text("x".to_string())));
    assert_eq!(frame.get(1, 0), Some(&Value::Float(2.5f32.to_bits(), 2)));
    assert_eq!(frame.get(1, 1), Some(&Value::CellReference(at(1, 1))));
    assert_eq!(
        frame.get(1, 2),
        Some(&Value::FormulaCall(FUNCTION::ADD, vec![Value::Integer(1), Value::Integer(2)]))
    );
    assert_eq!(frame.get(2, 0), None);
    assert_eq!(frame.get(0, 3), None);
}

#[test]
fn new_refuses_rows_of_different_length() {
    assert_eq!(frame_of(&[&["1", "2"], &["3"]]), Err(EvalError::ShapeError));
    assert_eq!(
        DataFrame::from_values(vec![vec![Value::Null], vec![]]),
        Err(EvalError::ShapeError)
    );
}

#[test]
fn new_asks_for_the_first_literal_it_cannot_read() {
    let data = vec![vec!["1".to_string(), "2.5".to_string()], vec!["0.1".to_string()]];
    let table = FloatTable::new();
    assert_eq!(DataFrame::new(data, &table), Err(Halt::Failed(EvalError::ShapeError)));
    let data = vec![
        vec!["1".to_string(), "2.5".to_string()],
        vec!["0.1".to_string(), "x".to_string()],
    ];
    assert_eq!(
        DataFrame::new(data, &table),
        Err(Halt::Needs(FloatQuery::Read("2.5".to_string())))
    );
}

#[test]
fn a_grid_without_rows_is_a_grid() {
    let frame = frame_of(&[]).unwrap();
    assert_eq!(frame.nrows(), 0);
    assert_eq!(frame.ncols(), 0);
    assert_eq!(frame.get(0, 0), None);
}

#[test]
fn solve_cell_follows_a_chain_of_references() {
    let frame = frame_of(&[&["[B0]", "[C0]", "7"]]).unwrap();
    let cell = frame.get(0, 0).unwrap();
    assert_eq!(settle(|table| frame.solve_cell(cell, table)), Ok(Value::Integer(7)));
}

#[test]
fn solve_cell_leaves_a_simple_value_as_it_is() {
    let frame = frame_of(&[&["[A0]"]]).unwrap();
    for value in [
        Value::Null,
        Value::Integer(-3),
        Value::Float(1.25f32.to_bits(), 2),
        Value::Text("[A0]".to_string()),
    ] {
        assert_eq!(frame.solve_cell(&value, &FloatTable::new()), Ok(value.clone()));
    }
}

#[test]
fn solve_cell_stops_at_a_cycle() {
    let frame = frame_of(&[&["[A1]"], &["[A0]"]]).unwrap();
    let cell = frame.get(0, 0).unwrap();
    assert_eq!(
        settle(|table| frame.solve_cell(cell, table)),
        Err(EvalError::CyclicReference(at(1, 0)))
    );
    let own = frame_of(&[&["ADD(1,[A0])"]]).unwrap();
    let cell = own.get(0, 0).unwrap();
    assert_eq!(
        settle(|table| own.solve_cell(cell, table)),
        Err(EvalError::CyclicReference(at(0, 0)))
    );
}

#[test]
fn solve_cell_uses_a_cell_twice_where_no_cycle_is() {
    let frame = frame_of(&[&["2", "ADD([A0],[A0])", "ADD([B0],[B0])"]]).unwrap();
    let cell = frame.get(0, 2).unwrap();
    assert_eq!(settle(|table| frame.solve_cell(cell, table)), Ok(Value::Integer(8)));
}

#[test]
fn solve_cell_reports_a_reference_outside_the_grid() {
    let frame = frame_of(&[&["[B0]"]]).unwrap();
    let cell = frame.get(0, 0).unwrap();
    assert_eq!(settle(|table| frame.solve_cell(cell, table)), Err(EvalError::OutOfBounds(at(0, 1))));
}

#[test]
fn solve_cell_computes_with_fractions_and_texts() {
    let frame = frame_of(&[&["1.5", "ADD([A0],2)", "CONCAT([B0],ADD(1,1))"]]).unwrap();
    let cell = frame.get(0, 2).unwrap();
    assert_eq!(settle(|table| frame.solve_cell(cell, table)), Ok(Value::Text("3.52".to_string())));
}

#[test]
fn solve_cell_passes_on_what_a_function_refuses() {
    let frame = frame_of(&[&["a", "ADD([A0],1)", "MOD(1,2)", "ADD(1)"]]).unwrap();
    assert_eq!(
        settle(|table| frame.solve_cell(frame.get(0, 1).unwrap(), table)),
        Err(EvalError::InvalidOperands)
    );
    assert_eq!(
        settle(|table| frame.solve_cell(frame.get(0, 2).unwrap(), table)),
        Err(EvalError::UnsupportedFunction(FUNCTION::MOD))
    );
    assert_eq!(
        settle(|table| frame.solve_cell(frame.get(0, 3).unwrap(), table)),
        Err(EvalError::InvalidOperands)
    );
}

#[test]
fn solve_reference_gives_the_cell_pointed_at() {
    let frame = frame_of(&[&["5", "[A0]"], &["6", "7"]]).unwrap();
    let reference = Value::CellReference(at(1, 0));
    assert_eq!(reference.solve_reference(frame.data()), Some(&Value::Integer(6)));
    let stored = frame.get(0, 1).unwrap();
    assert_eq!(stored.solve_reference(frame.data()), Some(&Value::Integer(5)));
    assert_eq!(Value::CellReference(at(2, 0)).solve_reference(frame.data()), None);
    assert_eq!(Value::CellReference(at(0, 2)).solve_reference(frame.data()), None);
    assert_eq!(Value::Integer(0).solve_reference(frame.data()), None);
}

#[test]
fn simplify_takes_a_part_of_the_grid() {
    let frame = integers(&[&[1, 2, 3], &[4, 5, 6], &[7, 8, 9]]);
    let part = settle(|table| frame.simplify(at(1, 1), at(2, 2), table)).unwrap();
    assert_eq!(part, integers(&[&[5, 6], &[8, 9]]));
    let one = settle(|table| frame.simplify(at(2, 0), at(2, 0), table)).unwrap();
    assert_eq!(one, integers(&[&[7]]));
    assert_eq!(frame, integers(&[&[1, 2, 3], &[4, 5, 6], &[7, 8, 9]]));
}

#[test]
fn simplify_refuses_corners_outside_or_out_of_order() {
    let frame = integers(&[&[1, 2], &[3, 4]]);
    assert_eq!(
        settle(|table| frame.simplify(at(2, 0), at(1, 1), table)),
        Err(EvalError::OutOfBounds(at(2, 0)))
    );
    assert_eq!(
        settle(|table| frame.simplify(at(0, 0), at(1, 2), table)),
        Err(EvalError::OutOfBounds(at(1, 2)))
    );
    assert_eq!(
        settle(|table| frame.simplify(at(1, 0), at(0, 1), table)),
        Err(EvalError::InvalidRange)
    );
    assert_eq!(
        settle(|table| frame.simplify(at(0, 1), at(1, 0), table)),
        Err(EvalError::InvalidRange)
    );
}

#[test]
fn apply_leaves_the_grid_alone_outside_its_bounds() {
    let mut frame = integers(&[&[1, 4], &[3, 5], &[2, 6]]);
    let patch = integers(&[&[2], &[2], &[2]]);
    assert_eq!(
        settle(|table| frame.apply(1, 0, FUNCTION::ADD, &patch, table)),
        Err(EvalError::OutOfBounds(at(3, 0)))
    );
    assert_eq!(frame, integers(&[&[1, 4], &[3, 5], &[2, 6]]));
    let wide = integers(&[&[1, 1, 1]]);
    assert_eq!(
        settle(|table| frame.apply(0, 0, FUNCTION::ADD, &wide, table)),
        Err(EvalError::OutOfBounds(at(0, 2)))
    );
    assert_eq!(
        settle(|table| frame.apply(0, 5, FUNCTION::ADD, &patch, table)),
        Err(EvalError::OutOfBounds(at(0, 5)))
    );
    assert_eq!(
        settle(|table| frame.apply(7, 0, FUNCTION::ADD, &patch, table)),
        Err(EvalError::OutOfBounds(at(7, 0)))
    );
    assert_eq!(frame, integers(&[&[1, 4], &[3, 5], &[2, 6]]));
}

#[test]
fn apply_writes_nothing_where_a_cell_fails() {
    let mut frame = DataFrame::from_values(vec![
        vec![Value::Integer(1)],
        vec![Value::Text("x".to_string())],
    ])
    .unwrap();
    let patch = integers(&[&[2], &[2]]);
    assert_eq!(
        settle(|table| frame.apply(0, 0, FUNCTION::ADD, &patch, table)),
        Err(EvalError::InvalidOperands)
    );
    assert_eq!(frame.get(0, 0), Some(&Value::Integer(1)));
    assert_eq!(
        settle(|table| frame.apply(0, 0, FUNCTION::MOD, &patch, table)),
        Err(EvalError::UnsupportedFunction(FUNCTION::MOD))
    );
    assert_eq!(frame.get(0, 0), Some(&Value::Integer(1)));
}

#[test]
fn apply_works_inside_the_grid_and_resolves_both_sides() {
    let mut frame = frame_of(&[&["1", "[A0]"], &["ADD(1,1)", "10"]]).unwrap();
    let patch = DataFrame::from_values(vec![vec![Value::CellReference(at(1, 1))]]).unwrap();
    settle(|table| frame.apply(0, 1, FUNCTION::ADD, &patch, table)).unwrap();
    assert_eq!(frame.get(0, 1), Some(&Value::Integer(11)));
    assert_eq!(frame.get(0, 0), Some(&Value::Integer(1)));
    assert_eq!(frame.get(1, 1), Some(&Value::Integer(10)));
    let texts = DataFrame::from_values(vec![vec![Value::Text("a".to_string())]]).unwrap();
    settle(|table| frame.apply(1, 0, FUNCTION::CONCAT, &texts, table)).unwrap();
    assert_eq!(frame.get(1, 0), Some(&Value::Text("2a".to_string())));
}

#[test]
fn apply_with_an_empty_patch_changes_nothing() {
    let mut frame = integers(&[&[1, 2]]);
    let patch = DataFrame::from_values(vec![]).unwrap();
    assert_eq!(settle(|table| frame.apply(9, 9, FUNCTION::MOD, &patch, table)), Ok(()));
    assert_eq!(frame, integers(&[&[1, 2]]));
}
