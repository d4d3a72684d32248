use sheetcore::coordinate::{decode, encode, Coordinate, ParseError};

#[test]
fn decode_reads_letters_as_column_and_digits_as_row() {
    assert_eq!(decode("A0"), Ok(Coordinate { row: 0, column: 0 }));
    assert_eq!(decode("A1"), Ok(Coordinate { row: 1, column: 0 }));
    assert_eq!(decode("Z9"), Ok(Coordinate { row: 9, column: 25 }));
    assert_eq!(decode("AA10"), Ok(Coordinate { row: 10, column: 26 }));
    assert_eq!(decode("ZA62"), Ok(Coordinate { row: 62, column: 676 }));
    assert_eq!(decode("za62"), Ok(Coordinate { row: 62, column: 676 }));
    assert_eq!(decode("B007"), Ok(Coordinate { row: 7, column: 1 }));
}

#[test]
fn decode_agrees_with_the_letters_and_digits_of_the_label() {
    let label = "ZA62";
    let letters = qndr::get_alphabets(label);
    let digits = qndr::get_numbers(label);
    let c = decode(label).unwrap();
    assert_eq!(encode(c), format!("{}{}", letters, digits));
}

#[test]
fn decode_refuses_what_is_no_label() {
    assert_eq!(decode(""), Err(ParseError::Malformed));
    assert_eq!(decode("A"), Err(ParseError::Malformed));
    assert_eq!(decode("12"), Err(ParseError::Malformed));
    assert_eq!(decode("1A"), Err(ParseError::Malformed));
    assert_eq!(decode("A1B2"), Err(ParseError::Malformed));
    assert_eq!(decode("A-1"), Err(ParseError::Malformed));
    assert_eq!(decode("É1"), Err(ParseError::Malformed));
}

#[test]
fn decode_refuses_what_is_too_large() {
    assert_eq!(decode("A99999999999999999999999999"), Err(ParseError::OutOfRange));
    assert_eq!(decode("ZZZZZZZZZZZZZZZZZZZZ1"), Err(ParseError::OutOfRange));
}

#[test]
fn encode_writes_the_label() {
    assert_eq!(encode(Coordinate { row: 0, column: 0 }), "A0");
    assert_eq!(encode(Coordinate { row: 62, column: 676 }), "ZA62");
    assert_eq!(encode(Coordinate { row: 10, column: 25 }), "Z10");
    assert_eq!(encode(Coordinate { row: 3, column: 26 }), "AA3");
    assert_eq!(encode(Coordinate { row: 0, column: 701 }), "ZZ0");
    assert_eq!(encode(Coordinate { row: 0, column: 702 }), "AAA0");
}

#[test]
fn decode_undoes_encode() {
    for column in [0usize, 1, 25, 26, 27, 51, 52, 675, 676, 701, 702, 18277, 18278, usize::MAX] {
        for row in [0usize, 1, 9, 10, 99, 100, 12345, usize::MAX] {
            let c = Coordinate { row, column };
            assert_eq!(decode(&encode(c)), Ok(c));
        }
    }
}
