use sheetcore::coordinate::Coordinate;
use sheetcore::number::{FloatAnswer, FloatFact, FloatQuery, FloatTable};
use sheetcore::stamp::Timestamp;
use sheetcore::{Value, FUNCTION};

fn answer(query: &FloatQuery) -> FloatAnswer {
    match query {
        FloatQuery::Read(text) => FloatAnswer::Bits(text.parse::<f32>().unwrap().to_bits()),
        FloatQuery::Widen(i) => FloatAnswer::Bits((*i as f32).to_bits()),
        FloatQuery::Narrow(b) => FloatAnswer::Whole(f32::from_bits(*b) as i32),
        FloatQuery::Sum(a, b) => {
            FloatAnswer::Bits((f32::from_bits(*a) + f32::from_bits(*b)).to_bits())
        }
        FloatQuery::Render(b, p) => FloatAnswer::Text(format!("{:.*}", *p, f32::from_bits(*b))),
    }
}

fn parse(text: &str) -> Value {
    let mut table = FloatTable::new();
    loop {
        match Value::create_from_str(text.to_string(), &table) {
            Ok(value) => return value,
            Err(query) => {
                let reply = answer(&query);
                table.record(FloatFact { query, answer: reply });
            }
        }
    }
}

fn float(value: f32, precision: usize) -> Value {
    Value::Float(value.to_bits(), precision)
}

#[test]
fn test_from_string_null() {
    let input = parse("");
    let expected = Value::Null;
    assert_eq!(input, expected)
}

#[test]
fn test_from_string_i32() {
    let input = parse("3");
    let expected = Value::Integer(3);
    assert_eq!(input, expected)
}

#[test]
fn test_from_string_datetime() {
    let input = parse("20210418 210328");
    let moment =
        chrono::NaiveDateTime::parse_from_str("20210418 210328", "%Y%m%d %H%M%S").unwrap();
    let expected = Value::DateTime(
        Timestamp {
            seconds: moment.and_utc().timestamp(),
            nanos: moment.and_utc().timestamp_subsec_nanos(),
        },
        "%Y%m%d %H%M%S".to_owned(),
    );
    assert_eq!(input, expected)
}

#[test]
fn test_from_string_f32() {
    let mut input = parse("3.4");
    let mut expected = float(3.4, 1);
    assert_eq!(input, expected);
    input = parse("5.143");
    expected = float(5.143, 3);
    assert_eq!(input, expected);
    input = parse("5.");
    expected = float(5.0, 0);
    assert_eq!(input, expected);
}

#[test]
fn test_from_string_string() {
    let input = parse("this is a test string");
    let expected = Value::Text("this is a test string".to_owned());
    assert_eq!(input, expected)
}

#[test]
fn test_from_string_cell_reference() {
    let input = parse("[ZA62]");
    let expected = Value::CellReference(Coordinate { row: 62, column: 676 });
    assert_eq!(input, expected)
}

#[test]
fn test_from_string_function() {
    let input = parse("ADD(2,ADD(1,2))");
    let expected = Value::FormulaCall(
        FUNCTION::ADD,
        vec![
            Value::Integer(2),
            Value::FormulaCall(FUNCTION::ADD, vec![Value::Integer(1), Value::Integer(2)]),
        ],
    );

    assert_eq!(input, expected)
}

#[test]
fn parse_keeps_the_precision_that_was_written() {
    assert_eq!(parse("3.40"), float(3.4, 2));
    assert_eq!(parse("-0.5"), float(-0.5, 1));
    assert_eq!(parse("+.25"), float(0.25, 2));
}

#[test]
fn parse_leaves_an_unanswered_literal_as_a_question() {
    let table = FloatTable::new();
    assert_eq!(
        Value::create_from_str("ADD(1,2.5)".to_string(), &table),
        Err(FloatQuery::Read("2.5".to_string()))
    );
}

#[test]
fn a_text_read_as_a_date_and_time_is_one() {
    let chars: Vec<char> = "3".chars().collect();
    let table = FloatTable::new();
    assert_eq!(
        sheetcore::parse::parse_known_chars(&chars, None, &table),
        Ok(Value::Integer(3))
    );
    let stamp = Timestamp { seconds: 86_400, nanos: 0 };
    assert_eq!(
        sheetcore::parse::parse_known_chars(&chars, Some(stamp), &table),
        Ok(Value::DateTime(stamp, "%Y%m%d %H%M%S".to_string()))
    );
    let empty: Vec<char> = Vec::new();
    assert_eq!(
        sheetcore::parse::parse_known_chars(&empty, Some(stamp), &table),
        Ok(Value::Null)
    );
    assert_eq!(sheetcore::parse::parse_chars(&chars, &table), Ok(Value::Integer(3)));
}

#[test]
fn parse_reads_signed_integers_within_their_range() {
    assert_eq!(parse("+7"), Value::Integer(7));
    assert_eq!(parse("-7"), Value::Integer(-7));
    assert_eq!(parse("007"), Value::Integer(7));
    assert_eq!(parse("2147483647"), Value::Integer(i32::MAX));
    assert_eq!(parse("-2147483648"), Value::Integer(i32::MIN));
    assert_eq!(parse("2147483648"), Value::Text("2147483648".to_string()));
    assert_eq!(parse("-2147483649"), Value::Text("-2147483649".to_string()));
    assert_eq!(parse("+"), Value::Text("+".to_string()));
    assert_eq!(parse("1e5"), Value::Text("1e5".to_string()));
    assert_eq!(parse(" 3"), Value::Text(" 3".to_string()));
}

#[test]
fn parse_takes_only_plain_decimal_literals_as_fractions() {
    assert_eq!(parse("."), Value::Text(".".to_string()));
    assert_eq!(parse("+."), Value::Text("+.".to_string()));
    assert_eq!(parse("1.5e3"), Value::Text("1.5e3".to_string()));
    assert_eq!(parse("1.2.3"), Value::Text("1.2.3".to_string()));
    assert_eq!(parse("inf"), Value::Text("inf".to_string()));
    assert_eq!(parse("0.000"), float(0.0, 3));
}

#[test]
fn parse_splits_arguments_at_commas_outside_brackets() {
    assert_eq!(
        parse("ADD(ADD(1,2),3)"),
        Value::FormulaCall(
            FUNCTION::ADD,
            vec![
                Value::FormulaCall(FUNCTION::ADD, vec![Value::Integer(1), Value::Integer(2)]),
                Value::Integer(3),
            ],
        )
    );
    assert_eq!(
        parse("CONCAT([A1],x,2.5)"),
        Value::FormulaCall(
            FUNCTION::CONCAT,
            vec![
                Value::CellReference(Coordinate { row: 1, column: 0 }),
                Value::Text("x".to_string()),
                float(2.5, 1),
            ],
        )
    );
    assert_eq!(parse("MOD()"), Value::FormulaCall(FUNCTION::MOD, vec![]));
    assert_eq!(
        parse("ADD(1,)"),
        Value::FormulaCall(FUNCTION::ADD, vec![Value::Integer(1), Value::Null])
    );
    assert_eq!(
        parse(" ADD ( 1,2 ) "),
        Value::FormulaCall(FUNCTION::ADD, vec![Value::Integer(1), Value::Integer(2)])
    );
    assert_eq!(
        parse("ADD(1, 2)"),
        Value::FormulaCall(FUNCTION::ADD, vec![Value::Integer(1), Value::Text(" 2".to_string())])
    );
}

#[test]
fn parse_leaves_what_is_no_call_as_text() {
    assert_eq!(parse("ADD(1,2"), Value::Text("ADD(1,2".to_string()));
    assert_eq!(parse("ADD(1,2)x"), Value::Text("ADD(1,2)x".to_string()));
    assert_eq!(parse("add(1,2)"), Value::Text("add(1,2)".to_string()));
    assert_eq!(parse("SUM(1,2)"), Value::Text("SUM(1,2)".to_string()));
    assert_eq!(parse("ADD"), Value::Text("ADD".to_string()));
}

#[test]
fn parse_reads_references_of_either_case_and_leaves_the_rest_as_text() {
    assert_eq!(parse("[a0]"), Value::CellReference(Coordinate { row: 0, column: 0 }));
    assert_eq!(parse("[Ab12]"), Value::CellReference(Coordinate { row: 12, column: 27 }));
    assert_eq!(parse("[]"), Value::Text("[]".to_string()));
    assert_eq!(parse("[A]"), Value::Text("[A]".to_string()));
    assert_eq!(parse("[12]"), Value::Text("[12]".to_string()));
    assert_eq!(parse("[1A]"), Value::Text("[1A]".to_string()));
    assert_eq!(parse("[A1"), Value::Text("[A1".to_string()));
}
