//! The text form of a program: one line of signed decimal integers with commas
//! between them.

use vstd::prelude::*;
use vstd::string::StringSliceAdditionalSpecFns;

verus! {

/// Why a text is not a program.
#[derive(Debug, Clone, Copy, PartialEq, Eq, Structural)]
pub enum ParseError {
    /// The text is empty.
    Empty,
    /// The text ends in a newline, which the caller has to strip.
    TrailingNewline,
    /// A field between two commas is not a signed integer of 64 bits.
    InvalidToken,
    /// The input holds no line at all.
    EndOfInput,
}

pub const COMMA: u8 = 44;

pub const NEWLINE: u8 = 10;

pub const RETURN: u8 = 13;

pub const PLUS: u8 = 43;

pub const MINUS: u8 = 45;

pub const ZERO: u8 = 48;

pub const NINE: u8 = 57;

/// Whether `b` is a decimal digit.
pub open spec fn is_digit(b: u8) -> bool {
    ZERO <= b <= NINE
}

/// Whether `digits` holds decimal digits only.
pub open spec fn all_digits(digits: Seq<u8>) -> bool {
    forall|i: int| 0 <= i < digits.len() ==> is_digit(#[trigger] digits[i])
}

/// The number that the decimal digits `digits` denote.
pub open spec fn digits_value(digits: Seq<u8>) -> int
    decreases digits.len(),
{
    if digits.len() == 0 {
        0
    } else {
        10 * digits_value(digits.drop_last()) + (digits.last() - ZERO)
    }
}

/// The integer that decimal digits denote behind a sign: `None` where there is
/// no digit, where a byte is no digit, or where 64 bits do not hold the value.
pub open spec fn signed_value(negative: bool, digits: Seq<u8>) -> Option<i64> {
    let value: int = if negative {
        -digits_value(digits)
    } else {
        digits_value(digits)
    };
    if digits.len() > 0 && all_digits(digits) && i64::MIN <= value <= i64::MAX {
        Some(value as i64)
    } else {
        None
    }
}

/// The integer that the field `token` denotes: an optional sign, then one
/// decimal digit or more, of a value that 64 bits hold. `None` where the field
/// is anything else.
pub open spec fn token_value(token: Seq<u8>) -> Option<i64> {
    if token.len() > 0 && (token[0] == MINUS || token[0] == PLUS) {
        signed_value(token[0] == MINUS, token.skip(1))
    } else {
        signed_value(false, token)
    }
}

/// The index of the first byte `b` in `text`, or the length of `text` where it
/// holds none.
pub open spec fn position(text: Seq<u8>, b: u8) -> int
    decreases text.len(),
{
    if text.len() == 0 || text[0] == b {
        0
    } else {
        1 + position(text.skip(1), b)
    }
}

/// The length of the first field of `text`: up to its first comma, or all of it
/// where it holds none.
pub open spec fn first_field(text: Seq<u8>) -> int {
    position(text, COMMA)
}

/// The first line of `input`, without the newline that ends it, and without a
/// carriage return before that newline. An input without any byte has no line.
pub open spec fn first_line(input: Seq<u8>) -> Option<Seq<u8>> {
    let end: int = position(input, NEWLINE);
    if input.len() == 0 {
        None
    } else if 0 < end < input.len() && input[end - 1] == RETURN {
        Some(input.take(end - 1))
    } else {
        Some(input.take(end))
    }
}

/// The program that `text` denotes: the integers of its fields, which commas
/// separate. `None` where a field denotes no integer; the empty text is one
/// empty field.
pub open spec fn parsed(text: Seq<u8>) -> Option<Seq<i64>>
    decreases text.len(),
{
    let n: int = first_field(text);
    match token_value(text.take(n)) {
        None => None,
        Some(value) => if 0 <= n < text.len() {
            match parsed(text.skip(n + 1)) {
                None => None,
                Some(rest) => Some(seq![value] + rest),
            }
        } else {
            Some(seq![value])
        },
    }
}

/// What parsing the line `text` gives: its program, or why it has none.
pub open spec fn parse_result(text: Seq<u8>) -> Result<Seq<i64>, ParseError> {
    if text.len() == 0 {
        Err(ParseError::Empty)
    } else if text.last() == NEWLINE {
        Err(ParseError::TrailingNewline)
    } else {
        match parsed(text) {
            Some(program) => Ok(program),
            None => Err(ParseError::InvalidToken),
        }
    }
}

/// What reading a program from `input` gives: the program of its first line.
pub open spec fn read_result(input: Seq<u8>) -> Result<Seq<i64>, ParseError> {
    match first_line(input) {
        None => Err(ParseError::EndOfInput),
        Some(line) => parse_result(line),
    }
}

/// A text that holds no byte `b` in its first `n` bytes, and ends there or has
/// `b` next, has its first `b` at `n`.
proof fn lemma_position(text: Seq<u8>, b: u8, n: int)
    requires
        0 <= n <= text.len(),
        forall|k: int| 0 <= k < n ==> text[k] != b,
        n == text.len() || text[n] == b,
    ensures
        position(text, b) == n,
    decreases n,
{
    if n > 0 {
        lemma_position(text.skip(1), b, n - 1);
    }
}

/// The digits of a prefix denote no more than the digits of the whole.
proof fn lemma_digits_value_grows(digits: Seq<u8>, k: int)
    requires
        all_digits(digits),
        0 <= k <= digits.len(),
    ensures
        0 <= digits_value(digits.take(k)) <= digits_value(digits),
    decreases digits.len(),
{
    if digits.len() == 0 {
        assert(digits.take(k) =~= digits);
    } else if k == digits.len() {
        assert(digits.take(k) =~= digits);
        lemma_digits_value_grows(digits.drop_last(), k - 1);
        assert(is_digit(digits.last()));
    } else {
        lemma_digits_value_grows(digits.drop_last(), k);
        assert(digits.drop_last().take(k) =~= digits.take(k));
        assert(is_digit(digits.last()));
    }
}

/// The integer that the bytes from `from` up to `to` denote.
pub(crate) fn parse_int(bytes: &[u8], from: usize, to: usize) -> (r: Option<i64>)
    requires
        from <= to <= bytes@.len(),
    ensures
        r == token_value(bytes@.subrange(from as int, to as int)),
{
    let ghost token: Seq<u8> = bytes@.subrange(from as int, to as int);
    let mut i: usize = from;
    let mut negative: bool = false;
    if i < to && (bytes[i] == MINUS || bytes[i] == PLUS) {
        negative = bytes[i] == MINUS;
        i = i + 1;
    }
    let start: usize = i;
    let ghost digits: Seq<u8> = bytes@.subrange(start as int, to as int);
    assert(digits =~= if start > from {
        token.skip(1)
    } else {
        token
    });
    assert(token_value(token) == signed_value(negative, digits));
    if i == to {
        return None;
    }
    let mut acc: u64 = 0;
    while i < to
        invariant
            start <= i <= to <= bytes@.len(),
            digits == bytes@.subrange(start as int, to as int),
            token_value(bytes@.subrange(from as int, to as int)) == signed_value(negative, digits),
            all_digits(digits.take(i - start)),
            acc == digits_value(digits.take(i - start)),
            acc <= 0x8000_0000_0000_0000,
        decreases to - i,
    {
        let b: u8 = bytes[i];
        assert(digits[i - start] == b);
        if b < ZERO || b > NINE {
            return None;
        }
        let ghost longer: Seq<u8> = digits.take(i - start + 1);
        assert(longer.drop_last() =~= digits.take(i - start));
        assert(longer.last() == b);
        assert(all_digits(longer));
        proof {
            if all_digits(digits) {
                lemma_digits_value_grows(digits, i - start + 1);
            }
        }
        if acc > 922_337_203_685_477_580 {
            return None;
        }
        acc = acc * 10 + (b - ZERO) as u64;
        if acc > 0x8000_0000_0000_0000 {
            return None;
        }
        i = i + 1;
    }
    assert(digits.take(to - start) =~= digits);
    if negative {
        if acc == 0x8000_0000_0000_0000 {
            Some(i64::MIN)
        } else {
            Some(-(acc as i64))
        }
    } else if acc == 0x8000_0000_0000_0000 {
        None
    } else {
        Some(acc as i64)
    }
}

/// The index of the first byte `b` in `bytes`, or the length of `bytes` where
/// it holds none.
pub(crate) fn find(bytes: &[u8], from: usize, b: u8) -> (end: usize)
    requires
        from <= bytes@.len(),
    ensures
        from <= end <= bytes@.len(),
        end - from == position(bytes@.skip(from as int), b),
{
    let mut end: usize = from;
    while end < bytes.len() && bytes[end] != b
        invariant
            from <= end <= bytes@.len(),
            forall|k: int| from <= k < end ==> bytes@[k] != b,
        decreases bytes@.len() - end,
    {
        end = end + 1;
    }
    proof {
        lemma_position(bytes@.skip(from as int), b, end - from);
    }
    end
}

/// The first line of `input`, without its end-of-line bytes.
pub fn get_line(input: &[u8]) -> (line: Option<&[u8]>)
    ensures
        match line {
            Some(bytes) => first_line(input@) == Some(bytes@),
            None => first_line(input@) is None,
        },
{
    if input.len() == 0 {
        return None;
    }
    assert(input@.skip(0) =~= input@);
    let newline: usize = find(input, 0, NEWLINE);
    let end: usize = if 0 < newline && newline < input.len() && input[newline - 1] == RETURN {
        newline - 1
    } else {
        newline
    };
    let line: &[u8] = vstd::slice::slice_subrange(input, 0, end);
    assert(line@ =~= input@.take(end as int));
    Some(line)
}

/// Parses a line of bytes as integers with commas between them.
///
/// The line must hold one integer at least and no trailing newline.
pub fn parse_bytes(bytes: &[u8]) -> (r: Result<Vec<i64>, ParseError>)
    ensures
        match r {
            Ok(program) => parse_result(bytes@) == Ok::<Seq<i64>, ParseError>(program@),
            Err(error) => parse_result(bytes@) == Err::<Seq<i64>, ParseError>(error),
        },
{
    let n: usize = bytes.len();
    if n == 0 {
        return Err(ParseError::Empty);
    }
    if bytes[n - 1] == NEWLINE {
        return Err(ParseError::TrailingNewline);
    }
    let mut program: Vec<i64> = Vec::new();
    let mut start: usize = 0;
    assert(bytes@.skip(0) =~= bytes@);
    assert(forall|rest: Seq<i64>| #[trigger] (program@ + rest) =~= rest);
    loop
        invariant
            n == bytes@.len(),
            n > 0,
            bytes@.last() != NEWLINE,
            start <= n,
            parsed(bytes@) == match parsed(bytes@.skip(start as int)) {
                None => None::<Seq<i64>>,
                Some(rest) => Some(program@ + rest),
            },
        decreases n - start,
    {
        let ghost text: Seq<u8> = bytes@.skip(start as int);
        let end: usize = find(bytes, start, COMMA);
        proof {
            assert(text.take(end - start) =~= bytes@.subrange(start as int, end as int));
            if end < n {
                assert(text.skip(end - start + 1) =~= bytes@.skip(end + 1));
            }
        }
        match parse_int(bytes, start, end) {
            None => {
                return Err(ParseError::InvalidToken);
            },
            Some(value) => {
                assert((program@ + seq![value]) =~= program@.push(value));
                assert(forall|rest: Seq<i64>|
                    program@ + (seq![value] + rest) =~= #[trigger] (program@.push(value) + rest));
                program.push(value);
            },
        }
        if end == n {
            return Ok(program);
        }
        start = end + 1;
    }
}

/// Parses a text as integers with commas between them, such as `1,2,-54,0`.
///
/// The text must hold one integer at least and no trailing newline.
pub fn parse_mem(line: &str) -> (r: Result<Vec<i64>, ParseError>)
    ensures
        match r {
            Ok(program) => parse_result(line.spec_bytes()) == Ok::<Seq<i64>, ParseError>(program@),
            Err(error) => parse_result(line.spec_bytes()) == Err::<Seq<i64>, ParseError>(error),
        },
{
    parse_bytes(line.as_bytes())
}

/// Parses the first line of `input` as a program. What follows the first line
/// is not looked at.
pub fn read_mem(input: &[u8]) -> (r: Result<Vec<i64>, ParseError>)
    ensures
        match r {
            Ok(program) => read_result(input@) == Ok::<Seq<i64>, ParseError>(program@),
            Err(error) => read_result(input@) == Err::<Seq<i64>, ParseError>(error),
        },
{
    match get_line(input) {
        None => Err(ParseError::EndOfInput),
        Some(line) => parse_bytes(line),
    }
}

/// The lines of `input`, each without the newline that ends it and without a
/// carriage return before that newline. The last line needs no newline, and a
/// newline at the end begins no further line.
pub open spec fn lines_of(input: Seq<u8>) -> Seq<Seq<u8>>
    decreases input.len(),
{
    match first_line(input) {
        None => Seq::empty(),
        Some(line) => {
            let end: int = position(input, NEWLINE);
            if 0 <= end < input.len() {
                seq![line] + lines_of(input.skip(end + 1))
            } else {
                seq![line]
            }
        },
    }
}

/// What each of `lines` holds.
pub open spec fn each_line(lines: Seq<&[u8]>) -> Seq<Seq<u8>> {
    Seq::new(lines.len(), |k: int| lines[k]@)
}

/// The lines of `input`, without their end-of-line bytes.
pub fn lines(input: &[u8]) -> (lines: Vec<&[u8]>)
    ensures
        each_line(lines@) == lines_of(input@),
{
    let n: usize = input.len();
    let mut lines: Vec<&[u8]> = Vec::new();
    let mut start: usize = 0;
    assert(input@.skip(0) =~= input@);
    assert(each_line(lines@) + lines_of(input@) =~= lines_of(input@));
    while start < n
        invariant
            start <= n == input@.len(),
            lines_of(input@) == each_line(lines@) + lines_of(input@.skip(start as int)),
        decreases n - start,
    {
        let ghost text: Seq<u8> = input@.skip(start as int);
        let newline: usize = find(input, start, NEWLINE);
        let end: usize = if start < newline && newline < n && input[newline - 1] == RETURN {
            newline - 1
        } else {
            newline
        };
        let line: &[u8] = vstd::slice::slice_subrange(input, start, end);
        proof {
            assert(first_line(text) == Some(line@)) by {
                assert(line@ =~= text.take(end - start));
            }
            if newline < n {
                assert(text.skip(newline - start + 1) =~= input@.skip(newline + 1));
            }
            assert(each_line(lines@.push(line)) =~= each_line(lines@).push(line@));
            assert(each_line(lines@).push(line@) + lines_of(input@.skip(newline + 1)) =~= each_line(
                lines@,
            ) + (seq![line@] + lines_of(input@.skip(newline + 1))));
            if newline >= n {
                assert(each_line(lines@).push(line@) =~= each_line(lines@) + seq![line@]);
            }
        }
        lines.push(line);
        if newline >= n {
            assert(lines_of(input@.skip(n as int)) =~= Seq::<Seq<u8>>::empty());
            assert(each_line(lines@) + Seq::<Seq<u8>>::empty() =~= each_line(lines@));
            start = n;
        } else {
            start = newline + 1;
        }
    }
    assert(each_line(lines@) + lines_of(input@.skip(n as int)) =~= each_line(lines@));
    lines
}

/// The number that the field `token` denotes: one decimal digit or more, which
/// may have a `+` before them, of a value that 32 bits hold without a sign.
pub open spec fn unsigned_value(token: Seq<u8>) -> Option<u32> {
    if token.len() > 0 && token[0] == MINUS {
        None
    } else {
        match token_value(token) {
            Some(value) => if 0 <= value <= u32::MAX {
                Some(value as u32)
            } else {
                None
            },
            None => None,
        }
    }
}

/// The number that the bytes from `from` up to `to` denote.
pub fn parse_u32(bytes: &[u8], from: usize, to: usize) -> (r: Option<u32>)
    requires
        from <= to <= bytes@.len(),
    ensures
        r == unsigned_value(bytes@.subrange(from as int, to as int)),
{
    if from < to && bytes[from] == MINUS {
        return None;
    }
    match parse_int(bytes, from, to) {
        Some(value) => {
            if 0 <= value && value <= u32::MAX as i64 {
                Some(value as u32)
            } else {
                None
            }
        },
        None => None,
    }
}

} // verus!
