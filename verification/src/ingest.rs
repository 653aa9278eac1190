//! Reading samples from comma-separated text.
//!
//! The text has no header. A line with exactly two columns, neither of them
//! blank, gives one sample, and then both columns must be decimal numbers: a
//! line where one is not stops the reading, and nothing that was read before
//! it is used. Every other line is passed over in silence.
//!
//! A number is an optional sign, digits, and at most one decimal point among
//! them. It is read as a scaled value; decimals beyond the fourth are cut off.

use vstd::prelude::*;
use crate::fixed_point::SCALING_FACTOR;

verus! {

/// Why the reading stopped.
#[derive(Clone, Copy, Debug, PartialEq, Eq)]
pub enum IngestionError {
    /// A column of this line, counted from one, is not a number that can be
    /// held.
    Unparsable { line: usize },
}

/// What a line comes to.
pub enum Row {
    /// A sample.
    Pair(i64, i64),
    /// Nothing: the line does not have two columns with something in each.
    Skipped,
    /// A column that is there but is no number.
    Unparsable,
}

/// The byte that ends a line.
pub const LINE_END: u8 = 10;

/// The byte that parts two columns.
pub const COMMA: u8 = 44;

/// The decimal point.
pub const POINT: u8 = 46;

/// The minus sign.
pub const MINUS: u8 = 45;

/// The plus sign.
pub const PLUS: u8 = 43;

/// The digit zero; the other digits follow it.
pub const ZERO: u8 = 48;

/// The digit nine.
pub const NINE: u8 = 57;

/// The space.
pub const SPACE: u8 = 32;

/// The tabulator.
pub const TAB: u8 = 9;

/// The carriage return, which precedes the line end in some texts.
pub const CARRIAGE_RETURN: u8 = 13;

/// Space, tab and carriage return.
pub open spec fn is_blank(byte: u8) -> bool {
    byte == SPACE || byte == TAB || byte == CARRIAGE_RETURN
}

/// A decimal digit.
pub open spec fn is_digit(byte: u8) -> bool {
    ZERO <= byte <= NINE
}

/// Where `byte` first stands in `s`, or the length of `s` if it does not.
pub open spec fn find(s: Seq<u8>, byte: u8) -> int
    decreases s.len(),
{
    if s.len() == 0 || s[0] == byte {
        0
    } else {
        1 + find(s.drop_first(), byte)
    }
}

/// `s` without the blanks at its two ends.
pub open spec fn trimmed(s: Seq<u8>) -> Seq<u8>
    decreases s.len(),
{
    if s.len() > 0 && is_blank(s[0]) {
        trimmed(s.drop_first())
    } else if s.len() > 0 && is_blank(s.last()) {
        trimmed(s.drop_last())
    } else {
        s
    }
}

/// Every byte of `s` is a digit.
pub open spec fn all_digits(s: Seq<u8>) -> bool {
    forall|i: int| 0 <= i < s.len() ==> is_digit(#[trigger] s[i])
}

/// The number that a string of digits spells.
pub open spec fn digits_value(s: Seq<u8>) -> nat
    decreases s.len(),
{
    if s.len() == 0 {
        0
    } else {
        digits_value(s.drop_last()) * 10 + (s.last() - ZERO) as nat
    }
}

/// Digit `place` of the decimals `s`, zero where they have ended.
pub open spec fn decimal_at(s: Seq<u8>, place: int) -> nat {
    if place < s.len() {
        (s[place] - ZERO) as nat
    } else {
        0
    }
}

/// The first four decimals of `s` as a count of scale units.
pub open spec fn fraction_value(s: Seq<u8>) -> nat {
    decimal_at(s, 0) * 1000 + decimal_at(s, 1) * 100 + decimal_at(s, 2) * 10 + decimal_at(s, 3)
}

/// The scaled value that a column spells, if it is a number and fits.
pub open spec fn decimal(field: Seq<u8>) -> Option<i64> {
    let signed = field.len() > 0 && (field[0] == MINUS || field[0] == PLUS);
    let negative = field.len() > 0 && field[0] == MINUS;
    let body = if signed {
        field.skip(1)
    } else {
        field
    };
    let point = find(body, POINT);
    let whole = body.take(point);
    let fraction = if point < body.len() {
        body.skip(point + 1)
    } else {
        Seq::empty()
    };
    let size = digits_value(whole) * SCALING_FACTOR as nat + fraction_value(fraction);
    let value = if negative {
        -(size as int)
    } else {
        size as int
    };
    if all_digits(whole) && all_digits(fraction) && whole.len() + fraction.len() > 0 && i64::MIN
        <= value <= i64::MAX {
        Some(value as i64)
    } else {
        None
    }
}

/// What a line without its line end comes to.
pub open spec fn row(line: Seq<u8>) -> Row {
    let comma = find(line, COMMA);
    if comma >= line.len() {
        Row::Skipped
    } else {
        let first = trimmed(line.take(comma));
        let rest = line.skip(comma + 1);
        let second = trimmed(rest);
        if find(rest, COMMA) < rest.len() || first.len() == 0 || second.len() == 0 {
            Row::Skipped
        } else {
            match (decimal(first), decimal(second)) {
                (Some(x), Some(y)) => Row::Pair(x, y),
                _ => Row::Unparsable,
            }
        }
    }
}

/// The samples of `text`, whose first line has the number `line`, after the
/// samples `pairs` of the lines before it.
pub open spec fn rows_from(text: Seq<u8>, line: nat, pairs: Seq<(i64, i64)>) -> Result<
    Seq<(i64, i64)>,
    IngestionError,
>
    decreases text.len(),
{
    if text.len() == 0 {
        Ok(pairs)
    } else {
        let end = find(text, LINE_END);
        let rest = if 0 <= end < text.len() {
            text.skip(end + 1)
        } else {
            Seq::empty()
        };
        match row(text.take(end)) {
            Row::Unparsable => Err(IngestionError::Unparsable { line: line as usize }),
            Row::Skipped => rows_from(rest, line + 1, pairs),
            Row::Pair(x, y) => rows_from(rest, line + 1, pairs.push((x, y))),
        }
    }
}

/// The samples of a whole text, in the order of its lines.
pub open spec fn ingested(text: Seq<u8>) -> Result<Seq<(i64, i64)>, IngestionError> {
    rows_from(text, 1, Seq::empty())
}

/// `find` is the first place where the byte stands, and the length where it
/// stands nowhere.
pub proof fn lemma_find(s: Seq<u8>, byte: u8)
    ensures
        0 <= find(s, byte) <= s.len(),
        forall|i: int| 0 <= i < find(s, byte) ==> s[i] != byte,
        find(s, byte) < s.len() ==> s[find(s, byte)] == byte,
    decreases s.len(),
{
    if s.len() > 0 && s[0] != byte {
        lemma_find(s.drop_first(), byte);
        assert forall|i: int| 0 <= i < find(s, byte) implies s[i] != byte by {
            if i > 0 {
                assert(s[i] == s.drop_first()[i - 1]);
            }
        }
    }
}

/// The place up to which the byte does not stand, and at which it stands
/// unless that is the end, is what `find` gives.
pub proof fn lemma_find_is(s: Seq<u8>, byte: u8, place: int)
    requires
        0 <= place <= s.len(),
        forall|i: int| 0 <= i < place ==> s[i] != byte,
        place < s.len() ==> s[place] == byte,
    ensures
        find(s, byte) == place,
{
    lemma_find(s, byte);
    let found = find(s, byte);
    if found < place {
        assert(s[found] == byte);
    } else if found > place {
        assert(s[place] == byte);
    }
}

/// Where `byte` first stands in `text` from `from` on and before `to`, or
/// `to` if it does not.
fn position(text: &[u8], from: usize, to: usize, byte: u8) -> (r: usize)
    requires
        from <= to <= text.len(),
    ensures
        from <= r <= to,
        r - from == find(text@.subrange(from as int, to as int), byte),
{
    let mut at = from;
    while at < to && text[at] != byte
        invariant
            from <= at <= to <= text.len(),
            forall|i: int| from <= i < at ==> text@[i] != byte,
        decreases to - at,
    {
        at = at + 1;
    }
    proof {
        lemma_find_is(text@.subrange(from as int, to as int), byte, at - from);
    }
    at
}

/// Whether a byte is a blank.
fn blank(byte: u8) -> (r: bool)
    ensures
        r == is_blank(byte),
{
    byte == SPACE || byte == TAB || byte == CARRIAGE_RETURN
}

/// The bounds of what lies between `from` and `to` without the blanks at
/// its two ends.
fn trim(text: &[u8], from: usize, to: usize) -> (r: (usize, usize))
    requires
        from <= to <= text.len(),
    ensures
        from <= r.0 <= r.1 <= to,
        text@.subrange(r.0 as int, r.1 as int) == trimmed(text@.subrange(from as int, to as int)),
{
    let mut low = from;
    let mut high = to;
    while low < high && blank(text[low])
        invariant
            from <= low <= high <= to <= text.len(),
            high == to,
            trimmed(text@.subrange(low as int, high as int)) == trimmed(
                text@.subrange(from as int, to as int),
            ),
        decreases high - low,
    {
        proof {
            assert(text@.subrange(low as int, high as int).drop_first() == text@.subrange(
                low + 1,
                high as int,
            ));
        }
        low = low + 1;
    }
    while low < high && blank(text[high - 1])
        invariant
            from <= low <= high <= to <= text.len(),
            low < high ==> !is_blank(text@[low as int]),
            trimmed(text@.subrange(low as int, high as int)) == trimmed(
                text@.subrange(from as int, to as int),
            ),
        decreases high - low,
    {
        proof {
            assert(text@.subrange(low as int, high as int).drop_last() == text@.subrange(
                low as int,
                high - 1,
            ));
        }
        high = high - 1;
    }
    (low, high)
}

/// The most that the digits before the point may spell: a larger number does
/// not fit once it is scaled.
pub const WHOLE_LIMIT: u64 = 1_000_000_000_000_000;

/// The smaller of a number and the limit for whole parts.
pub open spec fn capped(value: nat) -> nat {
    if value < WHOLE_LIMIT {
        value
    } else {
        WHOLE_LIMIT as nat
    }
}

/// The number that the digits between `from` and `to` spell, capped at the
/// limit for whole parts; nothing if a byte among them is no digit.
fn read_digits(text: &[u8], from: usize, to: usize) -> (r: Option<u64>)
    requires
        from <= to <= text.len(),
    ensures
        r is Some <==> all_digits(text@.subrange(from as int, to as int)),
        r matches Some(value) ==> value == capped(
            digits_value(text@.subrange(from as int, to as int)),
        ),
{
    let ghost digits = text@.subrange(from as int, to as int);
    let mut value: u64 = 0;
    let mut at = from;
    while at < to
        invariant
            from <= at <= to <= text.len(),
            digits == text@.subrange(from as int, to as int),
            all_digits(digits.take(at - from)),
            value == capped(digits_value(digits.take(at - from))),
        decreases to - at,
    {
        let byte = text[at];
        if byte < ZERO || byte > NINE {
            proof {
                assert(!is_digit(digits[at - from]));
            }
            return None;
        }
        proof {
            assert(digits.take(at - from + 1).drop_last() == digits.take(at - from));
            assert(digits.take(at - from + 1).last() == byte);
        }
        if value < WHOLE_LIMIT {
            value = value * 10 + (byte - ZERO) as u64;
            if value > WHOLE_LIMIT {
                value = WHOLE_LIMIT;
            }
        }
        at = at + 1;
    }
    proof {
        assert(digits.take(to - from) == digits);
    }
    Some(value)
}

/// Decimal `place` of the decimals between `from` and `to`.
fn read_decimal_at(text: &[u8], from: usize, to: usize, place: usize) -> (r: u64)
    requires
        from <= to <= text.len(),
        place < 4,
        all_digits(text@.subrange(from as int, to as int)),
    ensures
        r == decimal_at(text@.subrange(from as int, to as int), place as int),
        r <= 9,
{
    if place < to - from {
        assert(is_digit(text@.subrange(from as int, to as int)[place as int]));
        (text[from + place] - ZERO) as u64
    } else {
        0
    }
}

/// The scaled value that the column between `from` and `to` spells.
fn parse_decimal(text: &[u8], from: usize, to: usize) -> (r: Option<i64>)
    requires
        from <= to <= text.len(),
    ensures
        r == decimal(text@.subrange(from as int, to as int)),
{
    let ghost field = text@.subrange(from as int, to as int);
    let signed = from < to && (text[from] == MINUS || text[from] == PLUS);
    let negative = from < to && text[from] == MINUS;
    let start = if signed {
        from + 1
    } else {
        from
    };
    let ghost body = text@.subrange(start as int, to as int);
    let point = position(text, start, to, POINT);
    let after = if point < to {
        point + 1
    } else {
        to
    };
    proof {
        assert(body == if signed {
            field.skip(1)
        } else {
            field
        });
        assert(body.take(point - start) == text@.subrange(start as int, point as int));
        assert(text@.subrange(after as int, to as int) == if point - start < body.len() {
            body.skip(point - start + 1)
        } else {
            Seq::<u8>::empty()
        });
    }
    let whole = match read_digits(text, start, point) {
        None => {
            return None;
        },
        Some(whole) => whole,
    };
    if read_digits(text, after, to).is_none() {
        return None;
    }
    if point - start + (to - after) == 0 || whole >= WHOLE_LIMIT {
        return None;
    }
    let fraction = read_decimal_at(text, after, to, 0) * 1000 + read_decimal_at(text, after, to, 1)
        * 100 + read_decimal_at(text, after, to, 2) * 10 + read_decimal_at(text, after, to, 3);
    let size: u64 = whole * 10000 + fraction;
    if negative {
        if size > 0x8000_0000_0000_0000 {
            None
        } else if size == 0x8000_0000_0000_0000 {
            Some(i64::MIN)
        } else {
            Some(-(size as i64))
        }
    } else if size > 0x7fff_ffff_ffff_ffff {
        None
    } else {
        Some(size as i64)
    }
}

/// What the line between `from` and `to` comes to.
fn parse_row(text: &[u8], from: usize, to: usize) -> (r: Row)
    requires
        from <= to <= text.len(),
    ensures
        r == row(text@.subrange(from as int, to as int)),
{
    let ghost line = text@.subrange(from as int, to as int);
    let comma = position(text, from, to, COMMA);
    if comma >= to {
        return Row::Skipped;
    }
    proof {
        assert(line.take(comma - from) == text@.subrange(from as int, comma as int));
        assert(line.skip(comma - from + 1) == text@.subrange(comma + 1, to as int));
    }
    let (first_low, first_high) = trim(text, from, comma);
    let (second_low, second_high) = trim(text, comma + 1, to);
    if position(text, comma + 1, to, COMMA) < to || first_low == first_high || second_low
        == second_high {
        return Row::Skipped;
    }
    match (
        parse_decimal(text, first_low, first_high),
        parse_decimal(text, second_low, second_high),
    ) {
        (Some(x), Some(y)) => Row::Pair(x, y),
        _ => Row::Unparsable,
    }
}

/// Reads the samples of a text: the first columns and the second columns, in
/// the order of the lines.
pub fn ingest(text: &[u8]) -> (r: Result<(Vec<i64>, Vec<i64>), IngestionError>)
    ensures
        match r {
            Ok((xs, ys)) => xs@.len() == ys@.len() && ingested(text@) == Ok::<
                Seq<(i64, i64)>,
                IngestionError,
            >(xs@.zip_with(ys@)),
            Err(error) => ingested(text@) == Err::<Seq<(i64, i64)>, IngestionError>(error),
        },
{
    let mut xs: Vec<i64> = Vec::new();
    let mut ys: Vec<i64> = Vec::new();
    let mut from: usize = 0;
    let mut passed: usize = 0;
    proof {
        assert(text@.skip(0) == text@);
    }
    while from < text.len()
        invariant
            from <= text.len(),
            passed <= from,
            xs@.len() == ys@.len(),
            rows_from(text@.skip(from as int), (passed + 1) as nat, xs@.zip_with(ys@)) == ingested(
                text@,
            ),
        decreases text.len() - from,
    {
        let end = position(text, from, text.len(), LINE_END);
        let ghost rest = text@.skip(from as int);
        proof {
            assert(rest == text@.subrange(from as int, text@.len() as int));
            assert(rest.take(end - from) == text@.subrange(from as int, end as int));
            if end < text.len() {
                assert(rest.skip(end - from + 1) == text@.skip(end + 1));
            } else {
                assert(text@.skip(text@.len() as int) == Seq::<u8>::empty());
            }
        }
        match parse_row(text, from, end) {
            Row::Unparsable => {
                return Err(IngestionError::Unparsable { line: passed + 1 });
            },
            Row::Skipped => {},
            Row::Pair(x, y) => {
                proof {
                    assert(xs@.push(x).zip_with(ys@.push(y)) == xs@.zip_with(ys@).push((x, y)));
                }
                xs.push(x);
                ys.push(y);
            },
        }
        from = if end < text.len() {
            end + 1
        } else {
            end
        };
        passed = passed + 1;
    }
    Ok((xs, ys))
}

} // verus!
