use sheetcore::error::{EvalError, Halt};
use sheetcore::functions::add::add;
use sheetcore::number::{FloatAnswer, FloatFact, FloatQuery, FloatTable};
use sheetcore::stamp::Timestamp;
use sheetcore::value::{get_same_form, transform};
use sheetcore::{solve_function, Value, FUNCTION};

fn answer(query: &FloatQuery) -> FloatAnswer {
    match query {
        FloatQuery::Read(text) => FloatAnswer::Bits(text.parse::<f32>().unwrap().to_bits()),
        FloatQuery::Widen(i) => FloatAnswer::Bits((*i as f32).to_bits()),
        FloatQuery::Narrow(b) => FloatAnswer::Whole(f32::from_bits(*b) as i32),
        FloatQuery::Sum(a, b) => {
            FloatAnswer::Bits((f32::from_bits(*a) + f32::from_bits(*b)).to_bits())
        }
        FloatQuery::Render(b, p) => FloatAnswer::Text(format!("{:.*}", *p, f32::from_bits(*b))),
    }
}

fn settle<T>(run: impl Fn(&FloatTable) -> Result<T, Halt>) -> Result<T, EvalError> {
    let mut table = FloatTable::new();
    loop {
        match run(&table) {
            Ok(value) => return Ok(value),
            Err(Halt::Failed(e)) => return Err(e),
            Err(Halt::Needs(query)) => {
                let reply = answer(&query);
                table.record(FloatFact { query, answer: reply });
            }
        }
    }
}

fn float(value: f32, precision: usize) -> Value {
    Value::Float(value.to_bits(), precision)
}

fn parts(value: Value) -> (f32, usize) {
    match value {
        Value::Float(bits, precision) => (f32::from_bits(bits), precision),
        _ => (0.0, 0),
    }
}

fn host_add(a: Value, b: Value) -> Result<Value, EvalError> {
    settle(|table| add(a.clone(), b.clone(), table))
}

fn host_concat(a: Value, b: Value) -> Result<Value, EvalError> {
    settle(|table| sheetcore::functions::concat::concat(a.clone(), b.clone(), table))
}

fn host_text(value: &Value) -> Result<String, EvalError> {
    settle(|table| value.to_text(table))
}

#[test]
fn add_test_i32() {
    let val_1 = Value::Integer(12);
    let val_2 = Value::Integer(23);
    assert_eq!(Value::Integer(35), host_add(val_1, val_2).unwrap())
}

#[test]
fn add_test_f32() {
    let val_1 = float(326.11, 2);
    let val_2 = float(2.0031, 3);

    let (val, prec) = parts(host_add(val_1, val_2).unwrap());
    assert_eq!(328.113.to_string(), format!("{val:.prec$}", val = val, prec = prec))
}

#[test]
fn add_test_f32_and_i32() {
    let val_1 = float(1.03, 4);
    let val_2 = Value::Integer(3);

    let (val, prec) = parts(host_add(val_1, val_2).unwrap());
    assert_eq!("4.0300".to_string(), format!("{val:.prec$}", val = val, prec = prec))
}

#[test]
fn add_test_i32_and_f32() {
    let val_2 = Value::Integer(5);
    let val_1 = float(6.9, 2);

    let (val, prec) = parts(host_add(val_1, val_2).unwrap());
    assert_eq!("11.90".to_string(), format!("{val:.prec$}", val = val, prec = prec))
}

#[test]
fn test_strimg() {
    let val_1 = Value::Text("test1".to_string());
    let val_2 = Value::Text("test2".to_string());
    assert_eq!(Value::Text("test1test2".to_string()), host_concat(val_1, val_2).unwrap())
}

#[test]
fn concat_test_i32() {
    let val_1 = Value::Integer(12);
    let val_2 = Value::Integer(23);
    assert_eq!(Value::Text("1223".to_string()), host_concat(val_1, val_2).unwrap())
}

#[test]
fn concat_test_f32() {
    let val_1 = float(326.11, 2);
    let val_2 = float(2.0031, 3);

    assert_eq!(Value::Text("326.112.003".to_string()), host_concat(val_1, val_2).unwrap())
}

#[test]
fn concat_test_f32_and_i32() {
    let val_1 = float(1.03, 4);
    let val_2 = Value::Integer(3);

    assert_eq!(Value::Text("1.03003".to_string()), host_concat(val_1, val_2).unwrap())
}

#[test]
fn concat_test_i32_and_f32() {
    let val_2 = Value::Integer(5);
    let val_1 = float(6.9, 2);

    let (val, prec) = parts(host_add(val_1, val_2).unwrap());
    assert_eq!("11.90".to_string(), format!("{val:.prec$}", val = val, prec = prec))
}

#[test]
fn value_test_f32_and_i32() {
    // a fraction and an integer both come out as fractions
    let (test_1_val_1, _test_1_val_2) =
        settle(|table| get_same_form(float(1.2, 2), Value::Integer(4), table)).unwrap();
    assert!(match (test_1_val_1, _test_1_val_2) {
        (Value::Float(_, _), Value::Float(_, _)) => true,
        _ => false,
    });

    // an integer and a fraction both come out as fractions
    let (test_2_val_1, _test_2_val_2) =
        settle(|table| get_same_form(Value::Integer(4), float(1.2, 2), table)).unwrap();
    assert!(match (test_2_val_1, _test_2_val_2) {
        (Value::Float(_, _), Value::Float(_, _)) => true,
        _ => false,
    });
}

#[test]
fn test_f32_formatting() {
    let input_f32: f32 = 2.041;
    let input_prec: usize = 2;

    let input = float(input_f32, input_prec);
    let expected = "2.04".to_owned();

    assert_eq!(expected.to_string(), host_text(&input).unwrap())
}

#[test]
fn test_datetime_formatting() {
    let current_datetime = chrono::Utc::now().naive_utc();
    let input_format = "%Y %m %d %H:%M";

    let input = Value::DateTime(
        Timestamp {
            seconds: current_datetime.and_utc().timestamp(),
            nanos: current_datetime.and_utc().timestamp_subsec_nanos(),
        },
        input_format.to_owned(),
    );
    let expected = current_datetime.format(input_format);

    assert_eq!(expected.to_string(), host_text(&input).unwrap())
}

#[test]
fn same_form_keeps_two_integers() {
    let pair = settle(|table| get_same_form(Value::Integer(4), Value::Integer(-9), table));
    assert_eq!(pair, Ok((Value::Integer(4), Value::Integer(-9))));
}

#[test]
fn same_form_widens_an_integer_without_digits() {
    let pair = settle(|table| get_same_form(Value::Integer(4), float(1.5, 3), table));
    assert_eq!(pair, Ok((float(4.0, 0), float(1.5, 3))));
}

#[test]
fn transform_narrows_a_fraction_to_its_integer_part() {
    let narrowed = settle(|table| transform(float(7.9, 1), &Value::Integer(0), table));
    assert_eq!(narrowed, Ok(Value::Integer(7)));
    let negative = settle(|table| transform(float(-7.9, 1), &Value::i32_default(), table));
    assert_eq!(negative, Ok(Value::Integer(-7)));
}

#[test]
fn transform_refuses_what_is_no_number() {
    let text = settle(|table| {
        transform(Value::Text("7".to_string()), &Value::float_default(), table)
    });
    assert_eq!(text, Err(EvalError::InvalidOperands));
    let target = settle(|table| transform(Value::Integer(7), &Value::string_default(), table));
    assert_eq!(target, Err(EvalError::InvalidOperands));
}

#[test]
fn add_takes_the_greater_precision() {
    assert_eq!(host_add(float(1.5, 1), float(0.25, 2)), Ok(float(1.75, 2)));
    assert_eq!(host_add(float(0.25, 2), float(1.5, 1)), Ok(float(1.75, 2)));
    assert_eq!(host_add(Value::Integer(2), float(0.5, 1)), Ok(float(2.5, 1)));
}

#[test]
fn add_refuses_what_is_no_number() {
    assert_eq!(
        host_add(Value::Text("a".to_string()), Value::Integer(1)),
        Err(EvalError::InvalidOperands)
    );
    assert_eq!(host_add(Value::Integer(1), Value::Null), Err(EvalError::InvalidOperands));
    assert_eq!(
        host_add(float(1.0, 1), Value::reference_default()),
        Err(EvalError::InvalidOperands)
    );
}

#[test]
fn add_reports_an_integer_sum_out_of_range() {
    assert_eq!(host_add(Value::Integer(i32::MAX), Value::Integer(1)), Err(EvalError::Overflow));
    assert_eq!(host_add(Value::Integer(i32::MIN), Value::Integer(-1)), Err(EvalError::Overflow));
    assert_eq!(
        host_add(Value::Integer(i32::MAX), Value::Integer(-1)),
        Ok(Value::Integer(i32::MAX - 1))
    );
}

#[test]
fn add_asks_for_the_sum_it_needs() {
    let table = FloatTable::new();
    let a = 1.5f32.to_bits();
    let b = 2.25f32.to_bits();
    assert_eq!(
        add(Value::Float(a, 1), Value::Float(b, 2), &table),
        Err(Halt::Needs(FloatQuery::Sum(a, b)))
    );
    assert_eq!(
        add(Value::Integer(3), Value::Float(b, 2), &table),
        Err(Halt::Needs(FloatQuery::Widen(3)))
    );
}

#[test]
fn the_oldest_answer_of_the_table_counts() {
    let mut table = FloatTable::new();
    table.record(FloatFact { query: FloatQuery::Sum(1, 2), answer: FloatAnswer::Bits(7) });
    table.record(FloatFact { query: FloatQuery::Sum(1, 2), answer: FloatAnswer::Bits(9) });
    assert_eq!(table.bits(FloatQuery::Sum(1, 2)), Ok(7));
    assert_eq!(table.bits(FloatQuery::Sum(2, 1)), Err(FloatQuery::Sum(2, 1)));
    assert_eq!(table.whole(FloatQuery::Sum(1, 2)), Err(FloatQuery::Sum(1, 2)));
}

#[test]
fn concat_shows_each_kind_of_value() {
    assert_eq!(
        host_concat(Value::Null, Value::Integer(-40)),
        Ok(Value::Text("-40".to_string()))
    );
    assert_eq!(
        host_concat(Value::Integer(0), Value::Text("x".to_string())),
        Ok(Value::Text("0x".to_string()))
    );
    let moment =
        chrono::NaiveDateTime::parse_from_str("20210418 210328", "%Y%m%d %H%M%S").unwrap();
    let stamp = Timestamp {
        seconds: moment.and_utc().timestamp(),
        nanos: moment.and_utc().timestamp_subsec_nanos(),
    };
    assert_eq!(
        host_concat(Value::DateTime(stamp, "%Y-%m-%d".to_string()), Value::Text("!".to_string())),
        Ok(Value::Text("2021-04-18!".to_string()))
    );
}

#[test]
fn concat_refuses_what_is_not_simple() {
    assert_eq!(
        host_concat(Value::function_default(), Value::Integer(1)),
        Err(EvalError::InvalidOperands)
    );
    assert_eq!(
        host_concat(Value::Integer(1), Value::reference_default()),
        Err(EvalError::InvalidOperands)
    );
}

#[test]
fn a_pattern_that_cannot_be_written_has_no_text() {
    let value = Value::DateTime(Timestamp { seconds: 0, nanos: 0 }, "%Q".to_string());
    assert_eq!(host_text(&value), Err(EvalError::NoDisplayForm));
    let beyond = Value::DateTime(Timestamp { seconds: i64::MAX, nanos: 0 }, "%Y".to_string());
    assert_eq!(host_text(&beyond), Err(EvalError::NoDisplayForm));
    assert_eq!(host_text(&Value::function_default()), Err(EvalError::NoDisplayForm));
}

#[test]
fn solve_function_takes_the_first_two_operands() {
    let values = vec![Value::Integer(1), Value::Integer(2), Value::Integer(4)];
    assert_eq!(settle(|table| solve_function(&FUNCTION::ADD, &values, table)), Ok(Value::Integer(3)));
    assert_eq!(
        settle(|table| solve_function(&FUNCTION::CONCAT, &values, table)),
        Ok(Value::Text("12".to_string()))
    );
}

#[test]
fn solve_function_needs_two_operands_and_a_meaning() {
    let one = vec![Value::Integer(1)];
    assert_eq!(
        settle(|table| solve_function(&FUNCTION::ADD, &one, table)),
        Err(EvalError::InvalidOperands)
    );
    let two = vec![Value::Integer(7), Value::Integer(2)];
    assert_eq!(
        settle(|table| solve_function(&FUNCTION::MOD, &two, table)),
        Err(EvalError::UnsupportedFunction(FUNCTION::MOD))
    );
}

#[test]
fn starts_with_reads_the_name_before_the_bracket() {
    assert_eq!(FUNCTION::starts_with("ADD(1,2)"), Ok(FUNCTION::ADD));
    assert_eq!(FUNCTION::starts_with(" CONCAT (a,b)"), Ok(FUNCTION::CONCAT));
    assert_eq!(FUNCTION::starts_with("MOD"), Ok(FUNCTION::MOD));
    assert_eq!(FUNCTION::starts_with("add(1,2)"), Err(EvalError::UnknownFunction));
    assert_eq!(FUNCTION::starts_with("SUM(1,2)"), Err(EvalError::UnknownFunction));
}

#[test]
fn defaults_are_the_plainest_values() {
    assert_eq!(Value::default(), Value::Null);
    assert_eq!(Value::null_default(), Value::Null);
    assert_eq!(Value::i32_default(), Value::Integer(0));
    assert_eq!(Value::float_default(), float(0.0, 0));
    assert_eq!(Value::string_default(), Value::Text(String::new()));
    assert_eq!(
        Value::function_default(),
        Value::FormulaCall(FUNCTION::ADD, vec![Value::Integer(1), Value::Integer(1)])
    );
}
