//! Cell addresses, and the labels that write them: the column in letters, then
//! the row in digits.

use vstd::prelude::*;
use crate::text::{
    all_digits, all_letters, chars_of, decimal_value, digit_check, digit_of, is_digit, is_letter,
    lemma_decimal_prefix, lemma_natural_text, letter_check, letter_rank, natural_text,
    push_char, push_natural, rank_of,
};

verus! {

/// The zero-based address of a cell.
#[derive(Clone, Copy, Debug, PartialEq, Eq, Hash, Structural)]
pub struct Coordinate {
    pub row: usize,
    pub column: usize,
}

/// Why a label does not name a cell.
#[derive(Clone, Copy, Debug, PartialEq, Eq, Structural)]
pub enum ParseError {
    /// The label is not one or more letters followed by one or more digits.
    Malformed,
    /// The column or the row is too large for this machine.
    OutOfRange,
}

/// The number that the letters `s` write in base 26 with the digits `A` = 1 to
/// `Z` = 26, most significant letter first.
pub open spec fn letters_value(s: Seq<char>) -> nat
    decreases s.len(),
{
    if s.len() == 0 {
        0
    } else {
        letters_value(s.drop_last()) * 26 + letter_rank(s.last())
    }
}

/// The first index at or after `i` whose character is not a letter.
pub open spec fn skip_letters(s: Seq<char>, i: int) -> int
    decreases s.len() - i,
{
    if 0 <= i < s.len() && is_letter(s[i]) {
        skip_letters(s, i + 1)
    } else {
        i
    }
}

/// The cell that `label` names: its letters give the column, counted from
/// `A` = 0, and its digits the row, taken as written.
pub open spec fn decode_label(label: Seq<char>) -> Result<Coordinate, ParseError> {
    let split = skip_letters(label, 0);
    let letters = label.subrange(0, split);
    let digits = label.subrange(split, label.len() as int);
    if split == 0 || split >= label.len() || !all_digits(digits) {
        Err(ParseError::Malformed)
    } else if letters_value(letters) - 1 > usize::MAX || decimal_value(digits) > usize::MAX {
        Err(ParseError::OutOfRange)
    } else {
        Ok(Coordinate { row: decimal_value(digits) as usize, column: (letters_value(letters) - 1) as usize })
    }
}

/// The upper-case letter with the zero-based place `d` in the alphabet.
pub open spec fn letter_char(d: nat) -> char {
    ('A' as u32 + d as u32) as char
}

/// The letters that write the zero-based column `column`: `A` to `Z`, then
/// `AA` to `ZZ`, and so on.
pub open spec fn column_letters(column: nat) -> Seq<char>
    decreases column,
{
    if column < 26 {
        seq![letter_char(column)]
    } else {
        column_letters((column / 26 - 1) as nat).push(letter_char(column % 26))
    }
}

/// The label of the cell at `c`.
pub open spec fn encode_label(c: Coordinate) -> Seq<char> {
    column_letters(c.column as nat) + natural_text(c.row as nat)
}

/// A longer letter string never writes a smaller number than one of its
/// prefixes.
pub proof fn lemma_letters_prefix(s: Seq<char>, i: int)
    requires
        0 <= i <= s.len(),
    ensures
        letters_value(s.subrange(0, i)) <= letters_value(s),
    decreases s.len() - i,
{
    if i == s.len() {
        assert(s.subrange(0, i) =~= s);
    } else {
        lemma_letters_prefix(s.drop_last(), i);
        assert(s.drop_last().subrange(0, i) =~= s.subrange(0, i));
    }
}

/// What `column_letters` writes is made of letters and reads back as the
/// column, counted from one.
pub proof fn lemma_column_letters(column: nat)
    ensures
        column_letters(column).len() >= 1,
        all_letters(column_letters(column)),
        letters_value(column_letters(column)) == column + 1,
    decreases column,
{
    let t = column_letters(column);
    if column < 26 {
        assert(t.drop_last() =~= Seq::<char>::empty());
        assert(letters_value(t.drop_last()) == 0);
    } else {
        let higher = (column / 26 - 1) as nat;
        lemma_column_letters(higher);
        assert(t.drop_last() =~= column_letters(higher));
        assert(t.last() == letter_char(column % 26));
    }
}

/// In letters followed by at least one digit, the letters end where the digits begin.
pub proof fn lemma_skip_letters(letters: Seq<char>, rest: Seq<char>, i: int)
    requires
        all_letters(letters),
        rest.len() > 0,
        !is_letter(rest[0]),
        0 <= i <= letters.len(),
    ensures
        skip_letters(letters + rest, i) == letters.len(),
    decreases letters.len() - i,
{
    let s = letters + rest;
    if i < letters.len() {
        assert(s[i] == letters[i]);
        lemma_skip_letters(letters, rest, i + 1);
    } else {
        assert(s[i] == rest[0]);
    }
}

/// Decoding the label of a coordinate gives the coordinate back.
pub proof fn lemma_decode_encode(c: Coordinate)
    ensures
        decode_label(encode_label(c)) == Ok::<Coordinate, ParseError>(c),
{
    let letters = column_letters(c.column as nat);
    let digits = natural_text(c.row as nat);
    let label = encode_label(c);
    lemma_column_letters(c.column as nat);
    lemma_natural_text(c.row as nat);
    assert(is_digit(digits[0]));
    lemma_skip_letters(letters, digits, 0);
    assert(label.subrange(0, letters.len() as int) =~= letters);
    assert(label.subrange(letters.len() as int, label.len() as int) =~= digits);
}

/// Decodes the label held in `chars`.
pub(crate) fn decode_chars(chars: &Vec<char>) -> (r: Result<Coordinate, ParseError>)
    ensures
        r == decode_label(chars@),
{
    let n: usize = chars.len();
    let mut split: usize = 0;
    while split < n && letter_check(chars[split])
        invariant
            split <= n,
            n == chars.len(),
            skip_letters(chars@, 0) == skip_letters(chars@, split as int),
            forall|j: int| 0 <= j < split ==> is_letter(#[trigger] chars[j]),
        decreases n - split,
    {
        split += 1;
    }
    if split == 0 || split >= n {
        return Err(ParseError::Malformed);
    }
    let ghost letters = chars@.subrange(0, split as int);
    let ghost digits = chars@.subrange(split as int, n as int);
    let mut i: usize = split;
    while i < n
        invariant
            split <= i <= n,
            n == chars.len(),
            0 < split < n,
            split == skip_letters(chars@, 0),
            digits == chars@.subrange(split as int, n as int),
            all_digits(digits.subrange(0, i - split)),
            forall|j: int| 0 <= j < split ==> is_letter(#[trigger] chars[j]),
        decreases n - i,
    {
        if !digit_check(chars[i]) {
            assert(digits[i - split] == chars[i as int]);
            return Err(ParseError::Malformed);
        }
        i += 1;
    }
    assert(digits.subrange(0, n - split) =~= digits);
    let limit: u128 = usize::MAX as u128;
    let mut column: u128 = 0;
    i = 0;
    while i < split
        invariant
            i <= split,
            n == chars.len(),
            0 < split < n,
            split == skip_letters(chars@, 0),
            letters == chars@.subrange(0, split as int),
            digits == chars@.subrange(split as int, n as int),
            all_digits(digits),
            limit == usize::MAX,
            column == letters_value(letters.subrange(0, i as int)),
            column <= limit + 1,
            i > 0 ==> column >= 1,
            forall|j: int| 0 <= j < split ==> is_letter(#[trigger] chars[j]),
        decreases split - i,
    {
        let c: char = chars[i];
        let ghost after = letters.subrange(0, i + 1);
        assert(after.drop_last() =~= letters.subrange(0, i as int));
        assert(after.last() == c);
        column = column * 26 + rank_of(c) as u128;
        if column > limit + 1 {
            proof {
                lemma_letters_prefix(letters, i + 1);
            }
            return Err(ParseError::OutOfRange);
        }
        i += 1;
    }
    assert(letters.subrange(0, split as int) =~= letters);
    let mut row: u128 = 0;
    i = split;
    while i < n
        invariant
            split <= i <= n,
            n == chars.len(),
            0 < split < n,
            split == skip_letters(chars@, 0),
            letters == chars@.subrange(0, split as int),
            digits == chars@.subrange(split as int, n as int),
            all_digits(digits),
            limit == usize::MAX,
            column == letters_value(letters),
            1 <= column <= limit + 1,
            row == decimal_value(digits.subrange(0, i - split)),
            row <= limit,
        decreases n - i,
    {
        let c: char = chars[i];
        assert(digits[i - split] == c);
        let ghost after = digits.subrange(0, i + 1 - split);
        assert(after.drop_last() =~= digits.subrange(0, i - split));
        assert(after.last() == c);
        row = row * 10 + digit_of(c) as u128;
        if row > limit {
            proof {
                lemma_decimal_prefix(digits, i + 1 - split);
            }
            return Err(ParseError::OutOfRange);
        }
        i += 1;
    }
    assert(digits.subrange(0, n - split) =~= digits);
    Ok(Coordinate { row: row as usize, column: (column - 1) as usize })
}

/// Decodes a label such as `ZA62` into the cell it names. Letters of either
/// case are accepted.
pub fn decode(label: &str) -> (r: Result<Coordinate, ParseError>)
    ensures
        r == decode_label(label@),
{
    let chars = chars_of(label);
    decode_chars(&chars)
}

/// The upper-case letter at the zero-based place `d`.
fn char_of_place(d: u8) -> (r: char)
    requires
        d < 26,
    ensures
        r == letter_char(d as nat),
{
    (65u8 + d) as char
}

/// Appends the letters of the zero-based column `column` to `out`.
pub(crate) fn push_letters(out: &mut String, column: usize)
    ensures
        final(out)@ == old(out)@ + column_letters(column as nat),
    decreases column,
{
    if column >= 26 {
        push_letters(out, column / 26 - 1);
    }
    push_char(out, char_of_place((column % 26) as u8));
    assert(final(out)@ =~= old(out)@ + column_letters(column as nat));
}

/// The label of the cell at `c`: the letters of its column, then the digits of
/// its row.
pub fn encode(c: Coordinate) -> (r: String)
    ensures
        r@ == encode_label(c),
{
    let mut out = String::new();
    push_letters(&mut out, c.column);
    push_natural(&mut out, c.row as u64);
    assert(out@ =~= encode_label(c));
    out
}

} // verus!
