//! Characters, digit strings and the few string primitives the parser and the
//! renderer are built from.

use vstd::prelude::*;
use vstd::std_specs::iter::IteratorSpec;

verus! {

/// `c` is one of the ten decimal digits.
pub open spec fn is_digit(c: char) -> bool {
    '0' <= c && c <= '9'
}

/// The number a decimal digit stands for.
pub open spec fn digit_value(c: char) -> nat {
    (c as u32 - '0' as u32) as nat
}

/// `c` is an upper-case or lower-case letter of the Latin alphabet.
pub open spec fn is_letter(c: char) -> bool {
    ('A' <= c && c <= 'Z') || ('a' <= c && c <= 'z')
}

/// The place of a letter in the alphabet, `A` and `a` being 1 and `Z` and `z` 26.
pub open spec fn letter_rank(c: char) -> nat {
    if 'a' <= c && c <= 'z' {
        (c as u32 - 'a' as u32 + 1) as nat
    } else {
        (c as u32 - 'A' as u32 + 1) as nat
    }
}

/// `c` has the Unicode property `White_Space`.
pub open spec fn is_space(c: char) -> bool {
    let u = c as u32;
    (0x09 <= u && u <= 0x0d) || u == 0x20 || u == 0x85 || u == 0xa0 || u == 0x1680 || (0x2000 <= u
        && u <= 0x200a) || u == 0x2028 || u == 0x2029 || u == 0x202f || u == 0x205f || u == 0x3000
}

/// Every character of `s` is a decimal digit.
pub open spec fn all_digits(s: Seq<char>) -> bool {
    forall|i: int| 0 <= i < s.len() ==> is_digit(#[trigger] s[i])
}

/// Every character of `s` is a letter.
pub open spec fn all_letters(s: Seq<char>) -> bool {
    forall|i: int| 0 <= i < s.len() ==> is_letter(#[trigger] s[i])
}

/// The number that the digit string `s` writes in base ten, most significant
/// digit first. The empty string writes zero.
pub open spec fn decimal_value(s: Seq<char>) -> nat
    decreases s.len(),
{
    if s.len() == 0 {
        0
    } else {
        decimal_value(s.drop_last()) * 10 + digit_value(s.last())
    }
}

/// The first index at or after `from` at which `s` holds `c`, or the length
/// of `s` where there is none.
pub open spec fn first_index_from(s: Seq<char>, c: char, from: int) -> int
    decreases s.len() - from,
{
    if from < 0 || from >= s.len() {
        s.len() as int
    } else if s[from] == c {
        from
    } else {
        first_index_from(s, c, from + 1)
    }
}

/// The first index at which `s` holds `c`, or the length of `s`.
pub open spec fn first_index(s: Seq<char>, c: char) -> int {
    first_index_from(s, c, 0)
}

/// Whether `c` is a decimal digit.
pub(crate) fn digit_check(c: char) -> (r: bool)
    ensures
        r == is_digit(c),
{
    '0' <= c && c <= '9'
}

/// Whether `c` is a letter of the Latin alphabet.
pub(crate) fn letter_check(c: char) -> (r: bool)
    ensures
        r == is_letter(c),
{
    ('A' <= c && c <= 'Z') || ('a' <= c && c <= 'z')
}

/// Whether `c` is white space.
pub(crate) fn space_check(c: char) -> (r: bool)
    ensures
        r == is_space(c),
{
    let u: u32 = c as u32;
    (0x09 <= u && u <= 0x0d) || u == 0x20 || u == 0x85 || u == 0xa0 || u == 0x1680 || (0x2000 <= u
        && u <= 0x200a) || u == 0x2028 || u == 0x2029 || u == 0x202f || u == 0x205f || u == 0x3000
}

/// The value of the digit `c`.
pub(crate) fn digit_of(c: char) -> (r: u8)
    requires
        is_digit(c),
    ensures
        r == digit_value(c),
        r <= 9,
{
    (c as u32 - '0' as u32) as u8
}

/// The rank of the letter `c`, from 1 to 26.
pub(crate) fn rank_of(c: char) -> (r: u8)
    requires
        is_letter(c),
    ensures
        r == letter_rank(c),
        1 <= r <= 26,
{
    if 'a' <= c && c <= 'z' {
        (c as u32 - 'a' as u32 + 1) as u8
    } else {
        (c as u32 - 'A' as u32 + 1) as u8
    }
}

/// The characters of `text`, in order.
pub(crate) fn chars_of(text: &str) -> (r: Vec<char>)
    ensures
        r@ == text@,
{
    let mut out: Vec<char> = Vec::new();
    let mut rest = text.chars();
    loop
        invariant
            out@ + rest.remaining() == text@,
            rest.obeys_prophetic_iter_laws(),
            rest.decrease() is Some,
        decreases rest.decrease()->0,
    {
        match rest.next() {
            Some(c) => {
                out.push(c);
            },
            None => {
                return out;
            },
        }
    }
}

/// `String::push`: the string afterwards is the string before with `c` at its end.
#[verifier::external_body]
pub(crate) fn push_char(text: &mut String, c: char)
    ensures
        final(text)@ == old(text)@.push(c),
{
    text.push(c)
}

/// The string made of the characters of `chars` from index `from` up to `to`.
pub(crate) fn string_of(chars: &Vec<char>, from: usize, to: usize) -> (r: String)
    requires
        from <= to <= chars.len(),
    ensures
        r@ == chars@.subrange(from as int, to as int),
{
    let mut out = String::new();
    let mut i: usize = from;
    while i < to
        invariant
            from <= i <= to <= chars.len(),
            out@ == chars@.subrange(from as int, i as int),
        decreases to - i,
    {
        push_char(&mut out, chars[i]);
        i += 1;
    }
    out
}

/// The characters of `chars` from index `from` up to `to`.
pub(crate) fn slice_of(chars: &Vec<char>, from: usize, to: usize) -> (r: Vec<char>)
    requires
        from <= to <= chars.len(),
    ensures
        r@ == chars@.subrange(from as int, to as int),
{
    let mut out: Vec<char> = Vec::new();
    let mut i: usize = from;
    while i < to
        invariant
            from <= i <= to <= chars.len(),
            out@ == chars@.subrange(from as int, i as int),
        decreases to - i,
    {
        out.push(chars[i]);
        i += 1;
    }
    out
}

/// The first index at or after `from` at which `chars` holds `c`.
pub(crate) fn find_from(chars: &Vec<char>, c: char, from: usize) -> (r: usize)
    requires
        from <= chars.len(),
    ensures
        r == first_index_from(chars@, c, from as int),
        from <= r <= chars.len(),
        r < chars.len() ==> chars[r as int] == c,
        forall|j: int| from <= j < r ==> chars[j] != c,
{
    let mut i: usize = from;
    while i < chars.len() && chars[i] != c
        invariant
            from <= i <= chars.len(),
            first_index_from(chars@, c, from as int) == first_index_from(chars@, c, i as int),
            forall|j: int| from <= j < i ==> chars[j] != c,
        decreases chars.len() - i,
    {
        i += 1;
    }
    i
}

/// The value that `s` writes as a signed decimal integer: an optional `+` or
/// `-`, then one or more digits, the whole within the range of `i32`.
pub open spec fn integer_literal(s: Seq<char>) -> Option<i32> {
    let signed = s.len() > 0 && (s[0] == '+' || s[0] == '-');
    let digits = if signed {
        s.subrange(1, s.len() as int)
    } else {
        s
    };
    let magnitude = decimal_value(digits) as int;
    let value = if signed && s[0] == '-' {
        -magnitude
    } else {
        magnitude
    };
    if digits.len() > 0 && all_digits(digits) && i32::MIN <= value <= i32::MAX {
        Some(value as i32)
    } else {
        None
    }
}

/// `s` is a signed decimal literal with a point: an optional `+` or `-`, digits,
/// one `.`, digits, with at least one digit on either side of the point.
pub open spec fn is_decimal_literal(s: Seq<char>) -> bool {
    let start: int = if s.len() > 0 && (s[0] == '+' || s[0] == '-') {
        1
    } else {
        0
    };
    let point = first_index(s, '.');
    &&& start <= point < s.len()
    &&& s.len() - start >= 2
    &&& all_digits(s.subrange(start, point))
    &&& all_digits(s.subrange(point + 1, s.len() as int))
}

/// The number of characters of `s` after its first `.`.
pub open spec fn fraction_digits(s: Seq<char>) -> nat {
    (s.len() - 1 - first_index(s, '.')) as nat
}

/// A longer digit string never writes a smaller number than one of its
/// prefixes.
pub proof fn lemma_decimal_prefix(s: Seq<char>, i: int)
    requires
        0 <= i <= s.len(),
    ensures
        decimal_value(s.subrange(0, i)) <= decimal_value(s),
    decreases s.len() - i,
{
    if i == s.len() {
        assert(s.subrange(0, i) =~= s);
    } else {
        lemma_decimal_prefix(s.drop_last(), i);
        assert(s.drop_last().subrange(0, i) =~= s.subrange(0, i));
    }
}

/// Reads `chars` as a signed decimal integer.
pub(crate) fn read_integer(chars: &Vec<char>) -> (r: Option<i32>)
    ensures
        r == integer_literal(chars@),
{
    let n: usize = chars.len();
    if n == 0 {
        return None;
    }
    let negative: bool = chars[0] == '-';
    let start: usize = if chars[0] == '+' || chars[0] == '-' {
        1
    } else {
        0
    };
    if start == n {
        return None;
    }
    let ghost digits = chars@.subrange(start as int, n as int);
    assert(start == 0 ==> digits =~= chars@);
    let mut acc: i64 = 0;
    let mut i: usize = start;
    while i < n
        invariant
            start <= i <= n,
            n == chars.len(),
            n > 0,
            start == (if chars[0] == '+' || chars[0] == '-' { 1int } else { 0int }),
            digits == chars@.subrange(start as int, n as int),
            start == 0 ==> digits == chars@,
            acc == decimal_value(digits.subrange(0, i - start)),
            0 <= acc <= 2147483648,
            all_digits(digits.subrange(0, i - start)),
        decreases n - i,
    {
        let c: char = chars[i];
        if !digit_check(c) {
            assert(digits[i - start] == c);
            return None;
        }
        let ghost before = digits.subrange(0, i - start);
        let ghost after = digits.subrange(0, i + 1 - start);
        assert(after.drop_last() =~= before);
        assert(after.last() == c);
        acc = acc * 10 + digit_of(c) as i64;
        if acc > 2147483648 {
            proof {
                lemma_decimal_prefix(digits, i + 1 - start);
            }
            return None;
        }
        i += 1;
    }
    assert(digits.subrange(0, n - start) =~= digits);
    if negative {
        Some((-acc) as i32)
    } else if acc > 2147483647 {
        None
    } else {
        Some(acc as i32)
    }
}

/// Reads `chars` as a decimal literal with a point and returns the number of
/// digits after the point.
pub(crate) fn read_decimal(chars: &Vec<char>) -> (r: Option<usize>)
    ensures
        r is Some <==> is_decimal_literal(chars@),
        r is Some ==> r->0 == fraction_digits(chars@),
{
    let n: usize = chars.len();
    let start: usize = if n > 0 && (chars[0] == '+' || chars[0] == '-') {
        1
    } else {
        0
    };
    let point: usize = find_from(chars, '.', 0);
    if point >= n || n - start < 2 {
        return None;
    }
    let mut i: usize = start;
    while i < n
        invariant
            start <= i <= n,
            start <= point < n,
            n == chars.len(),
            n - start >= 2,
            point == first_index(chars@, '.'),
            start == (if n > 0 && (chars[0] == '+' || chars[0] == '-') { 1int } else { 0int }),
            all_digits(chars@.subrange(start as int, if i <= point { i as int } else { point as int })),
            all_digits(chars@.subrange(point + 1, if i <= point { point + 1 } else { i as int })),
        decreases n - i,
    {
        if i != point && !digit_check(chars[i]) {
            if i < point {
                assert(chars@.subrange(start as int, point as int)[i - start] == chars[i as int]);
            } else {
                assert(chars@.subrange(point + 1, n as int)[i - point - 1] == chars[i as int]);
            }
            return None;
        }
        proof {
            if i < point {
                let grown = chars@.subrange(start as int, i + 1);
                assert forall|j: int| 0 <= j < grown.len() implies is_digit(#[trigger] grown[j]) by {
                    if j < i - start {
                        assert(chars@.subrange(start as int, i as int)[j] == grown[j]);
                    }
                }
            } else if i > point {
                let before = chars@.subrange(point + 1, i as int);
                let grown = chars@.subrange(point + 1, i + 1);
                assert forall|j: int| 0 <= j < grown.len() implies is_digit(#[trigger] grown[j]) by {
                    if j < i - point - 1 {
                        assert(before[j] == grown[j]);
                    }
                }
            }
        }
        i += 1;
    }
    Some(n - 1 - point)
}

/// The character that writes the digit `d`.
pub open spec fn digit_char(d: nat) -> char {
    if d == 0 {
        '0'
    } else if d == 1 {
        '1'
    } else if d == 2 {
        '2'
    } else if d == 3 {
        '3'
    } else if d == 4 {
        '4'
    } else if d == 5 {
        '5'
    } else if d == 6 {
        '6'
    } else if d == 7 {
        '7'
    } else if d == 8 {
        '8'
    } else {
        '9'
    }
}

/// The digits of `n` in base ten, most significant first, without leading
/// zeros; zero is written `0`.
pub open spec fn natural_text(n: nat) -> Seq<char>
    decreases n,
{
    if n < 10 {
        seq![digit_char(n)]
    } else {
        natural_text(n / 10).push(digit_char(n % 10))
    }
}

/// The decimal digits of `i`, with a leading `-` where `i` is negative.
pub open spec fn integer_text(i: int) -> Seq<char> {
    if i < 0 {
        seq!['-'] + natural_text((-i) as nat)
    } else {
        natural_text(i as nat)
    }
}

/// What `natural_text` writes reads back as the same number.
pub proof fn lemma_natural_text(n: nat)
    ensures
        natural_text(n).len() >= 1,
        all_digits(natural_text(n)),
        decimal_value(natural_text(n)) == n,
    decreases n,
{
    if n < 10 {
        let t = natural_text(n);
        assert(t.drop_last() =~= Seq::<char>::empty());
        assert(decimal_value(t.drop_last()) == 0);
    } else {
        lemma_natural_text(n / 10);
        let t = natural_text(n);
        assert(t.drop_last() =~= natural_text(n / 10));
        assert(t.last() == digit_char(n % 10));
    }
}

/// The character that writes the digit `d`.
fn char_of_digit(d: u8) -> (r: char)
    requires
        d <= 9,
    ensures
        r == digit_char(d as nat),
{
    if d == 0 {
        '0'
    } else if d == 1 {
        '1'
    } else if d == 2 {
        '2'
    } else if d == 3 {
        '3'
    } else if d == 4 {
        '4'
    } else if d == 5 {
        '5'
    } else if d == 6 {
        '6'
    } else if d == 7 {
        '7'
    } else if d == 8 {
        '8'
    } else {
        '9'
    }
}

/// Appends the decimal digits of `n` to `out`.
pub(crate) fn push_natural(out: &mut String, n: u64)
    ensures
        final(out)@ == old(out)@ + natural_text(n as nat),
    decreases n,
{
    if n >= 10 {
        push_natural(out, n / 10);
    }
    push_char(out, char_of_digit((n % 10) as u8));
    assert(final(out)@ =~= old(out)@ + natural_text(n as nat));
}

/// The decimal text of `i`.
pub(crate) fn integer_string(i: i32) -> (r: String)
    ensures
        r@ == integer_text(i as int),
{
    let mut out = String::new();
    if i < 0 {
        push_char(&mut out, '-');
        push_natural(&mut out, (-(i as i64)) as u64);
    } else {
        push_natural(&mut out, i as u64);
    }
    assert(out@ =~= integer_text(i as int));
    out
}

/// The first index at or after `i` whose character is not white space.
pub open spec fn skip_spaces(s: Seq<char>, i: int) -> int
    decreases s.len() - i,
{
    if 0 <= i < s.len() && is_space(s[i]) {
        skip_spaces(s, i + 1)
    } else {
        i
    }
}

/// The least end `j >= floor` such that no white space stands directly before it.
pub open spec fn drop_spaces(s: Seq<char>, j: int, floor: int) -> int
    decreases j,
{
    if 0 <= floor < j <= s.len() && is_space(s[j - 1]) {
        drop_spaces(s, j - 1, floor)
    } else {
        j
    }
}

/// `s` without the white space at its start and at its end.
pub open spec fn trimmed(s: Seq<char>) -> Seq<char> {
    let from = skip_spaces(s, 0);
    let to = drop_spaces(s, s.len() as int, from);
    s.subrange(from, to)
}

/// `chars` without the white space at its start and at its end.
pub(crate) fn trim(chars: &Vec<char>) -> (r: Vec<char>)
    ensures
        r@ == trimmed(chars@),
        r.len() <= chars.len(),
{
    let n: usize = chars.len();
    let mut from: usize = 0;
    while from < n && space_check(chars[from])
        invariant
            from <= n,
            n == chars.len(),
            skip_spaces(chars@, 0) == skip_spaces(chars@, from as int),
        decreases n - from,
    {
        from += 1;
    }
    let mut to: usize = n;
    while to > from && space_check(chars[to - 1])
        invariant
            from <= to <= n,
            n == chars.len(),
            drop_spaces(chars@, n as int, from as int) == drop_spaces(chars@, to as int, from as int),
        decreases to,
    {
        to -= 1;
    }
    slice_of(chars, from, to)
}

/// Skipping white space stays within the text.
pub proof fn lemma_skip_spaces(s: Seq<char>, i: int)
    requires
        0 <= i <= s.len(),
    ensures
        i <= skip_spaces(s, i) <= s.len(),
    decreases s.len() - i,
{
    if i < s.len() && is_space(s[i]) {
        lemma_skip_spaces(s, i + 1);
    }
}

/// Dropping white space does not go below the floor.
pub proof fn lemma_drop_spaces(s: Seq<char>, j: int, floor: int)
    requires
        0 <= floor <= j <= s.len(),
    ensures
        floor <= drop_spaces(s, j, floor) <= j,
    decreases j,
{
    if floor < j && is_space(s[j - 1]) {
        lemma_drop_spaces(s, j - 1, floor);
    }
}

/// A text without the white space at its ends is no longer than the text.
pub proof fn lemma_trimmed_len(s: Seq<char>)
    ensures
        trimmed(s).len() <= s.len(),
{
    lemma_skip_spaces(s, 0);
    lemma_drop_spaces(s, s.len() as int, skip_spaces(s, 0));
}

/// The first index of a character from `from` on lies between `from` and the
/// length of the text; the character stands there, where it lies in the text,
/// and nowhere between `from` and there.
pub proof fn lemma_first_index(s: Seq<char>, c: char, from: int)
    requires
        0 <= from <= s.len(),
    ensures
        from <= first_index_from(s, c, from) <= s.len(),
        first_index_from(s, c, from) < s.len() ==> s[first_index_from(s, c, from)] == c,
        forall|j: int| from <= j < first_index_from(s, c, from) ==> s[j] != c,
    decreases s.len() - from,
{
    if from < s.len() && s[from] != c {
        lemma_first_index(s, c, from + 1);
    }
}

} // verus!
