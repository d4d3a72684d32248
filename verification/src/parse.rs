//! From the text of a cell to its value.
//!
//! Every text has a value. The forms are tried in a fixed order, and a text
//! that has none of them stands for itself.

use vstd::prelude::*;
use crate::coordinate::{decode_chars, decode_label, Coordinate};
use crate::function::{function_named, leading_name, FUNCTION};
use crate::number::{bits_of, FloatFactView, FloatQuery, FloatQueryView, FloatTable};
use crate::stamp::{datetime_reading, parts_of, read_datetime, stamp_of, Timestamp};
use crate::text::{
    chars_of, find_from, first_index, fraction_digits, integer_literal, is_decimal_literal,
    lemma_first_index, lemma_trimmed_len, read_decimal, read_integer, skip_spaces, slice_of,
    space_check, string_of, trim, trimmed,
};
use crate::value::{lemma_call_view, prepend, views_of, Value, ValueView};

verus! {

/// The one pattern by which a text is read as a date and time.
pub const DATETIME_FORMAT: &'static str = "%Y%m%d %H%M%S";

/// The index of the `)` that closes the bracket open at `i`, under `depth`
/// further brackets opened since, or the length of `s` where none does.
pub open spec fn closing_from(s: Seq<char>, i: int, depth: nat) -> int
    decreases s.len() - i,
{
    if i < 0 || i >= s.len() {
        s.len() as int
    } else if s[i] == '(' {
        closing_from(s, i + 1, depth + 1)
    } else if s[i] == ')' {
        if depth == 0 {
            i
        } else {
            closing_from(s, i + 1, (depth - 1) as nat)
        }
    } else {
        closing_from(s, i + 1, depth)
    }
}

/// The parts into which the commas outside all brackets divide `s`, from the
/// part that starts at `start` on. The scan stands at `i`, with `depth`
/// brackets open.
pub open spec fn pieces(s: Seq<char>, i: int, start: int, depth: int) -> Seq<Seq<char>>
    decreases s.len() - i,
{
    if i < 0 || i >= s.len() {
        seq![s.subrange(start, s.len() as int)]
    } else if s[i] == ',' && depth == 0 {
        seq![s.subrange(start, i)] + pieces(s, i + 1, i + 1, 0)
    } else if s[i] == '(' {
        pieces(s, i + 1, start, depth + 1)
    } else if s[i] == ')' {
        pieces(s, i + 1, start, depth - 1)
    } else {
        pieces(s, i + 1, start, depth)
    }
}

/// The argument texts of a call whose brackets hold `body`: none for an empty
/// body, else the parts between the commas that stand outside all brackets.
pub open spec fn arguments(body: Seq<char>) -> Seq<Seq<char>> {
    if body.len() == 0 {
        Seq::empty()
    } else {
        pieces(body, 0, 0, 0)
    }
}

/// Reads `s` as a call `NAME(arguments)`: a function of the library before the
/// first `(`, the `)` that closes it, and nothing but white space behind. Gives
/// the function and what stands between the brackets, white space at its ends
/// set aside.
pub open spec fn call_form(s: Seq<char>) -> Option<(FUNCTION, Seq<char>)> {
    let open = first_index(s, '(');
    let close = closing_from(s, open + 1, 0);
    let function = function_named(leading_name(s));
    if open < s.len() && close < s.len() && function is Some && skip_spaces(s, close + 1)
        >= s.len() {
        Some((function->0, trimmed(s.subrange(open + 1, close))))
    } else {
        None
    }
}

/// Reads `s` as a reference `[label]` to the cell that the label names.
pub open spec fn reference_form(s: Seq<char>) -> Option<Coordinate> {
    if s.len() >= 2 && s[0] == '[' && s.last() == ']' {
        match decode_label(s.subrange(1, s.len() - 1)) {
            Ok(c) => Some(c),
            Err(_) => None,
        }
    } else {
        None
    }
}

/// The value of the text `s`, or the question on a decimal literal in it that
/// `table` does not answer. In order: the empty text is `Null`; a date and time
/// under `DATETIME_FORMAT`; a signed integer; a decimal literal with a point,
/// shown with as many digits as it has behind the point; a call of a function of
/// the library, with the values of its arguments; a reference to a cell; and
/// any other text is itself.
pub open spec fn parse_text(s: Seq<char>, table: Seq<FloatFactView>) -> Result<
    ValueView,
    FloatQueryView,
>
    decreases s.len(), 2nat, 0nat,
{
    parse_known(s, datetime_reading(s, DATETIME_FORMAT@), table)
}

/// The value of the text `s`, where `reading` is what reading `s` as a date
/// and time has given.
pub open spec fn parse_known(
    s: Seq<char>,
    reading: Option<(i64, u32)>,
    table: Seq<FloatFactView>,
) -> Result<ValueView, FloatQueryView>
    decreases s.len(), 1nat, 0nat,
{
    if s.len() == 0 {
        Ok(ValueView::Null)
    } else if reading is Some {
        Ok(ValueView::DateTime(stamp_of(reading)->0, DATETIME_FORMAT@))
    } else if integer_literal(s) is Some {
        Ok(ValueView::Integer(integer_literal(s)->0))
    } else if is_decimal_literal(s) {
        match bits_of(table, FloatQueryView::Read(s)) {
            Some(bits) => Ok(ValueView::Float(bits, fraction_digits(s) as usize)),
            None => Err(FloatQueryView::Read(s)),
        }
    } else {
        match call_form(s) {
            Some((function, body)) => match parse_each(arguments(body), table, s.len()) {
                Ok(operands) => Ok(ValueView::FormulaCall(function, operands)),
                Err(query) => Err(query),
            },
            None => match reference_form(s) {
                Some(c) => Ok(ValueView::CellReference(c)),
                None => Ok(ValueView::Text(s)),
            },
        }
    }
}

/// The values of the texts `parts`, in order, or the first question that
/// `table` does not answer. Every part is shorter than `limit`.
pub open spec fn parse_each(parts: Seq<Seq<char>>, table: Seq<FloatFactView>, limit: nat) -> Result<
    Seq<ValueView>,
    FloatQueryView,
>
    decreases limit, 0nat, parts.len(),
{
    if parts.len() == 0 || parts[0].len() >= limit {
        Ok(Seq::empty())
    } else {
        match parse_text(parts[0], table) {
            Err(query) => Err(query),
            Ok(first) => match parse_each(parts.drop_first(), table, limit) {
                Err(query) => Err(query),
                Ok(rest) => Ok(seq![first] + rest),
            },
        }
    }
}

/// The closing bracket is not found before the place the search starts at.
pub proof fn lemma_closing_from(s: Seq<char>, i: int, depth: nat)
    requires
        0 <= i <= s.len(),
    ensures
        i <= closing_from(s, i, depth) <= s.len(),
    decreases s.len() - i,
{
    if i < s.len() {
        if s[i] == '(' {
            lemma_closing_from(s, i + 1, depth + 1);
        } else if s[i] == ')' {
            if depth > 0 {
                lemma_closing_from(s, i + 1, (depth - 1) as nat);
            }
        } else {
            lemma_closing_from(s, i + 1, depth);
        }
    }
}

/// Every part of a text is no longer than the text.
pub proof fn lemma_pieces_short(s: Seq<char>, i: int, start: int, depth: int)
    requires
        0 <= start <= i <= s.len(),
    ensures
        forall|k: int|
            0 <= k < pieces(s, i, start, depth).len() ==> (#[trigger] pieces(s, i, start, depth)[k]).len()
                <= s.len(),
    decreases s.len() - i,
{
    if i < s.len() {
        if s[i] == ',' && depth == 0 {
            lemma_pieces_short(s, i + 1, i + 1, 0);
            let whole = pieces(s, i, start, depth);
            let rest = pieces(s, i + 1, i + 1, 0);
            assert forall|k: int| 0 <= k < whole.len() implies (#[trigger] whole[k]).len() <= s.len() by {
                if k > 0 {
                    assert(whole[k] == rest[k - 1]);
                }
            }
        } else if s[i] == '(' {
            lemma_pieces_short(s, i + 1, start, depth + 1);
            assert(pieces(s, i, start, depth) == pieces(s, i + 1, start, depth + 1));
        } else if s[i] == ')' {
            lemma_pieces_short(s, i + 1, start, depth - 1);
            assert(pieces(s, i, start, depth) == pieces(s, i + 1, start, depth - 1));
        } else {
            lemma_pieces_short(s, i + 1, start, depth);
            assert(pieces(s, i, start, depth) == pieces(s, i + 1, start, depth));
        }
    }
}

/// Every argument of a call is shorter than the call.
pub proof fn lemma_arguments_fit(s: Seq<char>)
    ensures
        call_form(s) matches Some((_, body)) ==> forall|k: int|
            0 <= k < arguments(body).len() ==> (#[trigger] arguments(body)[k]).len() < s.len(),
{
    if call_form(s) is Some {
        let open = first_index(s, '(');
        let close = closing_from(s, open + 1, 0);
        lemma_first_index(s, '(', 0);
        lemma_closing_from(s, open + 1, 0);
        let inner = s.subrange(open + 1, close);
        lemma_trimmed_len(inner);
        let body = trimmed(inner);
        if body.len() > 0 {
            lemma_pieces_short(body, 0, 0, 0);
        }
    }
}

/// Where every part is shorter than `limit`, there is a value for each part,
/// and each is the value of its part.
pub proof fn lemma_parse_each(parts: Seq<Seq<char>>, table: Seq<FloatFactView>, limit: nat)
    requires
        forall|k: int| 0 <= k < parts.len() ==> (#[trigger] parts[k]).len() < limit,
    ensures
        parse_each(parts, table, limit) matches Ok(values) ==> values.len() == parts.len()
            && forall|k: int|
            0 <= k < parts.len() ==> parse_text(#[trigger] parts[k], table) == Ok::<
                ValueView,
                FloatQueryView,
            >(values[k]),
    decreases parts.len(),
{
    if parts.len() > 0 {
        let rest = parts.drop_first();
        assert forall|k: int| 0 <= k < rest.len() implies (#[trigger] rest[k]).len() < limit by {
            assert(rest[k] == parts[k + 1]);
        }
        lemma_parse_each(rest, table, limit);
        let whole = parse_each(parts, table, limit);
        if whole is Ok {
            let values = whole->Ok_0;
            let tail = parse_each(rest, table, limit)->Ok_0;
            assert forall|k: int| 0 <= k < parts.len() implies parse_text(
                #[trigger] parts[k],
                table,
            ) == Ok::<ValueView, FloatQueryView>(values[k]) by {
                if k > 0 {
                    assert(parts[k] == rest[k - 1]);
                    assert(values[k] == tail[k - 1]);
                }
            }
        }
    }
}

/// A text that is a call, and none of the forms tried before, has the value
/// of a formula call: the function of the call, with one operand for each
/// argument, which is the value of that argument.
pub proof fn lemma_call_operands(s: Seq<char>, table: Seq<FloatFactView>)
    requires
        s.len() > 0,
        datetime_reading(s, DATETIME_FORMAT@) is None,
        integer_literal(s) is None,
        !is_decimal_literal(s),
        call_form(s) is Some,
    ensures
        call_form(s) matches Some((function, body)) && (parse_text(s, table) matches Ok(value) ==> {
            &&& value matches ValueView::FormulaCall(f, operands)
            &&& f == function
            &&& operands.len() == arguments(body).len()
            &&& forall|k: int|
                0 <= k < operands.len() ==> parse_text(#[trigger] arguments(body)[k], table) == Ok::<
                    ValueView,
                    FloatQueryView,
                >(operands[k])
        }),
{
    lemma_arguments_fit(s);
    match call_form(s) {
        Some((_, body)) => {
            lemma_parse_each(arguments(body), table, s.len());
        },
        None => {},
    }
}

/// `table` answers for every decimal literal.
pub open spec fn reads_all(table: Seq<FloatFactView>) -> bool {
    forall|t: Seq<char>| #[trigger] is_decimal_literal(t) ==> bits_of(table, FloatQueryView::Read(t)) is Some
}

/// With a table that answers for every decimal literal, every text has a
/// value.
pub proof fn lemma_parse_total(s: Seq<char>, table: Seq<FloatFactView>)
    requires
        reads_all(table),
    ensures
        parse_text(s, table) is Ok,
    decreases s.len(), 1nat, 0nat,
{
    match call_form(s) {
        Some((_, body)) => {
            lemma_parse_each_total(arguments(body), table, s.len());
        },
        None => {},
    }
}

/// With a table that answers for every decimal literal, every part has a
/// value.
pub proof fn lemma_parse_each_total(parts: Seq<Seq<char>>, table: Seq<FloatFactView>, limit: nat)
    requires
        reads_all(table),
    ensures
        parse_each(parts, table, limit) is Ok,
    decreases limit, 0nat, parts.len(),
{
    if parts.len() > 0 && parts[0].len() < limit {
        lemma_parse_total(parts[0], table);
        lemma_parse_each_total(parts.drop_first(), table, limit);
    }
}

/// The index of the `)` that closes a bracket opened just before `from`.
fn find_closing(chars: &Vec<char>, from: usize) -> (r: usize)
    requires
        from <= chars.len(),
    ensures
        r == closing_from(chars@, from as int, 0),
        from <= r <= chars.len(),
{
    let mut i: usize = from;
    let mut depth: usize = 0;
    while i < chars.len()
        invariant
            from <= i <= chars.len(),
            depth <= i - from,
            closing_from(chars@, from as int, 0) == closing_from(chars@, i as int, depth as nat),
        decreases chars.len() - i,
    {
        let c: char = chars[i];
        if c == '(' {
            depth += 1;
        } else if c == ')' {
            if depth == 0 {
                return i;
            }
            depth -= 1;
        }
        i += 1;
    }
    i
}

/// Whether nothing but white space stands in `chars` from `from` on.
fn blank_from(chars: &Vec<char>, from: usize) -> (r: bool)
    requires
        from <= chars.len(),
    ensures
        r == (skip_spaces(chars@, from as int) >= chars.len()),
{
    let mut i: usize = from;
    while i < chars.len() && space_check(chars[i])
        invariant
            from <= i <= chars.len(),
            skip_spaces(chars@, from as int) == skip_spaces(chars@, i as int),
        decreases chars.len() - i,
    {
        i += 1;
    }
    i >= chars.len()
}

/// Reads `chars` as a call and gives its function and what its brackets hold.
fn read_call(chars: &Vec<char>) -> (r: Option<(FUNCTION, Vec<char>)>)
    ensures
        match r {
            Some((function, body)) => call_form(chars@) == Some((function, body@)) && body.len()
                < chars.len(),
            None => call_form(chars@) is None,
        },
{
    let n: usize = chars.len();
    let open: usize = find_from(chars, '(', 0);
    if open >= n {
        return None;
    }
    let close: usize = find_closing(chars, open + 1);
    if close >= n {
        return None;
    }
    if !blank_from(chars, close + 1) {
        return None;
    }
    match FUNCTION::leading(chars) {
        Some(function) => {
            let inner = slice_of(chars, open + 1, close);
            let body = trim(&inner);
            Some((function, body))
        },
        None => None,
    }
}

/// Reads `chars` as a reference to a cell.
fn read_reference(chars: &Vec<char>) -> (r: Option<Coordinate>)
    ensures
        r == reference_form(chars@),
{
    let n: usize = chars.len();
    if n >= 2 && chars[0] == '[' && chars[n - 1] == ']' {
        let label = slice_of(chars, 1, n - 1);
        match decode_chars(&label) {
            Ok(c) => Some(c),
            Err(_) => None,
        }
    } else {
        None
    }
}

/// The values of the arguments that `body` holds.
fn parse_arguments(body: &Vec<char>, table: &FloatTable, limit: usize) -> (r: Result<
    Vec<Value>,
    FloatQuery,
>)
    requires
        body.len() < limit,
    ensures
        match r {
            Ok(items) => parse_each(arguments(body@), table@, limit as nat) == Ok::<
                Seq<ValueView>,
                FloatQueryView,
            >(views_of(items@)),
            Err(query) => parse_each(arguments(body@), table@, limit as nat) == Err::<
                Seq<ValueView>,
                FloatQueryView,
            >(query@),
        },
    decreases limit, 0nat,
{
    let mut items: Vec<Value> = Vec::new();
    let n: usize = body.len();
    if n == 0 {
        assert(views_of(items@) =~= Seq::<ValueView>::empty());
        return Ok(items);
    }
    let ghost goal = parse_each(arguments(body@), table@, limit as nat);
    let mut start: usize = 0;
    let mut depth: i128 = 0;
    let mut i: usize = 0;
    assert(views_of(items@) =~= Seq::<ValueView>::empty());
    assert(goal == prepend(views_of(items@), goal)) by {
        if goal is Ok {
            assert(Seq::<ValueView>::empty() + goal->Ok_0 =~= goal->Ok_0);
        }
    }
    while i < n
        invariant
            n == body.len(),
            n < limit,
            start <= i <= n,
            -(i as int) <= depth <= i,
            goal == parse_each(arguments(body@), table@, limit as nat),
            goal == prepend(
                views_of(items@),
                parse_each(pieces(body@, i as int, start as int, depth as int), table@, limit as nat),
            ),
        decreases n - i,
    {
        let c: char = body[i];
        if c == ',' && depth == 0 {
            let part = slice_of(body, start, i);
            let ghost parts = pieces(body@, i as int, start as int, 0);
            let ghost later = pieces(body@, i + 1, i + 1, 0);
            assert(parts[0] == part@);
            assert(parts.drop_first() =~= later);
            match parse_chars(&part, table) {
                Err(query) => {
                    return Err(query);
                },
                Ok(value) => {
                    let ghost before = views_of(items@);
                    items.push(value);
                    proof {
                        let tail = parse_each(later, table@, limit as nat);
                        assert(views_of(items@) =~= before.push(value@));
                        if tail is Ok {
                            assert(before + (seq![value@] + tail->Ok_0) =~= views_of(items@)
                                + tail->Ok_0);
                        }
                    }
                },
            }
            start = i + 1;
        } else if c == '(' {
            depth += 1;
        } else if c == ')' {
            depth -= 1;
        }
        i += 1;
    }
    let part = slice_of(body, start, n);
    let ghost parts = pieces(body@, n as int, start as int, depth as int);
    assert(parts[0] == part@);
    assert(parts.drop_first() =~= Seq::<Seq<char>>::empty());
    assert(parse_each(parts.drop_first(), table@, limit as nat) == Ok::<
        Seq<ValueView>,
        FloatQueryView,
    >(Seq::empty()));
    match parse_chars(&part, table) {
        Err(query) => Err(query),
        Ok(value) => {
            let ghost before = views_of(items@);
            items.push(value);
            proof {
                assert(views_of(items@) =~= before.push(value@));
                assert(before + (seq![value@] + Seq::<ValueView>::empty()) =~= views_of(items@));
            }
            Ok(items)
        },
    }
}

/// The value of the text held in `chars`, where `reading` is what reading it
/// as a date and time has given.
pub fn parse_known_chars(chars: &Vec<char>, reading: Option<Timestamp>, table: &FloatTable) -> (r:
    Result<Value, FloatQuery>)
    ensures
        match r {
            Ok(value) => parse_known(chars@, parts_of(reading), table@) == Ok::<
                ValueView,
                FloatQueryView,
            >(value@),
            Err(query) => parse_known(chars@, parts_of(reading), table@) == Err::<
                ValueView,
                FloatQueryView,
            >(query@),
        },
    decreases chars.len(), 1nat,
{
    let n: usize = chars.len();
    if n == 0 {
        return Ok(Value::Null);
    }
    match reading {
        Some(stamp) => {
            return Ok(Value::DateTime(stamp, DATETIME_FORMAT.to_owned()));
        },
        None => {},
    }
    match read_integer(chars) {
        Some(i) => {
            return Ok(Value::Integer(i));
        },
        None => {},
    }
    match read_decimal(chars) {
        Some(precision) => {
            let text = string_of(chars, 0, n);
            assert(text@ =~= chars@);
            return match table.bits(FloatQuery::Read(text)) {
                Ok(bits) => Ok(Value::Float(bits, precision)),
                Err(query) => Err(query),
            };
        },
        None => {},
    }
    match read_call(chars) {
        Some((function, body)) => {
            return match parse_arguments(&body, table, n) {
                Ok(items) => {
                    proof {
                        lemma_call_view(function, items);
                    }
                    Ok(Value::FormulaCall(function, items))
                },
                Err(query) => Err(query),
            };
        },
        None => {},
    }
    match read_reference(chars) {
        Some(c) => Ok(Value::CellReference(c)),
        None => {
            let text = string_of(chars, 0, n);
            assert(text@ =~= chars@);
            Ok(Value::Text(text))
        },
    }
}

/// The value of the text held in `chars`.
pub fn parse_chars(chars: &Vec<char>, table: &FloatTable) -> (r: Result<Value, FloatQuery>)
    ensures
        match r {
            Ok(value) => parse_text(chars@, table@) == Ok::<ValueView, FloatQueryView>(value@),
            Err(query) => parse_text(chars@, table@) == Err::<ValueView, FloatQueryView>(query@),
        },
    decreases chars.len(), 2nat,
{
    let n: usize = chars.len();
    if n == 0 {
        return Ok(Value::Null);
    }
    let text = string_of(chars, 0, n);
    assert(text@ =~= chars@);
    let reading = read_datetime(text.as_str(), DATETIME_FORMAT);
    parse_known_chars(chars, reading, table)
}

impl Value {
    /// The value of the text `value`, or the question on a decimal literal in
    /// it that `table` does not answer yet.
    pub fn create_from_str(value: String, table: &FloatTable) -> (r: Result<Value, FloatQuery>)
        ensures
            match r {
                Ok(parsed) => parse_text(value@, table@) == Ok::<ValueView, FloatQueryView>(parsed@),
                Err(query) => parse_text(value@, table@) == Err::<ValueView, FloatQueryView>(query@),
            },
    {
        let chars = chars_of(value.as_str());
        parse_chars(&chars, table)
    }
}

} // verus!
