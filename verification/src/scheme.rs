//! The marking scheme as text. Each line is one directive of the rubric:
//! `+` and a number adds, `-` and a number takes away, `=` and a number
//! sets the mark, and any other line is a comment. A line that begins with
//! a bare number is refused, since it does not say which of these is meant.

use vstd::prelude::*;
use crate::amount::Amount;
use crate::choice::{Choice, ChoiceView, Choices};
use crate::text::{chars_of, text_of};

verus! {

/// Whether `c` is white space.
pub open spec fn is_space(c: char) -> bool {
    ||| c == '\u{0009}'
    ||| c == '\u{000A}'
    ||| c == '\u{000B}'
    ||| c == '\u{000C}'
    ||| c == '\u{000D}'
    ||| c == '\u{0020}'
    ||| c == '\u{0085}'
    ||| c == '\u{00A0}'
    ||| c == '\u{1680}'
    ||| c == '\u{2000}'
    ||| c == '\u{2001}'
    ||| c == '\u{2002}'
    ||| c == '\u{2003}'
    ||| c == '\u{2004}'
    ||| c == '\u{2005}'
    ||| c == '\u{2006}'
    ||| c == '\u{2007}'
    ||| c == '\u{2008}'
    ||| c == '\u{2009}'
    ||| c == '\u{200A}'
    ||| c == '\u{2028}'
    ||| c == '\u{2029}'
    ||| c == '\u{202F}'
    ||| c == '\u{205F}'
    ||| c == '\u{3000}'
}

/// The digit that `c` writes, if it writes one.
pub open spec fn digit_of(c: char) -> Option<nat> {
    if c == '0' {
        Some(0nat)
    } else if c == '1' {
        Some(1nat)
    } else if c == '2' {
        Some(2nat)
    } else if c == '3' {
        Some(3nat)
    } else if c == '4' {
        Some(4nat)
    } else if c == '5' {
        Some(5nat)
    } else if c == '6' {
        Some(6nat)
    } else if c == '7' {
        Some(7nat)
    } else if c == '8' {
        Some(8nat)
    } else if c == '9' {
        Some(9nat)
    } else {
        None
    }
}

/// Whether `c` may stand in a number: a digit or the decimal point.
pub open spec fn is_number_char(c: char) -> bool {
    digit_of(c) is Some || c == '.'
}

/// `s` without the white space at its start.
pub open spec fn trim_start(s: Seq<char>) -> Seq<char>
    decreases s.len(),
{
    if s.len() > 0 && is_space(s[0]) {
        trim_start(s.drop_first())
    } else {
        s
    }
}

/// `s` without the white space at its end.
pub open spec fn trim_end(s: Seq<char>) -> Seq<char>
    decreases s.len(),
{
    if s.len() > 0 && is_space(s.last()) {
        trim_end(s.drop_last())
    } else {
        s
    }
}

/// `s` without the white space at either end.
pub open spec fn trimmed(s: Seq<char>) -> Seq<char> {
    trim_end(trim_start(s))
}

/// The number that a run of digits writes.
pub open spec fn digits_value(digits: Seq<char>) -> nat
    decreases digits.len(),
{
    if digits.len() == 0 {
        0
    } else {
        digits_value(digits.drop_last()) * 10 + digit_of(digits.last()).unwrap_or(0)
    }
}

/// Whether `s` holds digits only.
pub open spec fn all_digits(s: Seq<char>) -> bool {
    forall|i: int| 0 <= i < s.len() ==> digit_of(#[trigger] s[i]) is Some
}

/// Ten to the power `n`.
pub open spec fn pow10(n: nat) -> nat
    decreases n,
{
    if n == 0 {
        1
    } else {
        10 * pow10((n - 1) as nat)
    }
}

/// What the digits behind the decimal point count, in millionths. Digits
/// behind the sixth must be zeros: a finer amount cannot be held.
pub open spec fn fraction_units(fraction: Seq<char>) -> Option<nat> {
    if exists|i: int| 6 <= i < fraction.len() && #[trigger] fraction[i] != '0' {
        None
    } else if fraction.len() < 6 {
        Some(digits_value(fraction) * pow10((6 - fraction.len()) as nat))
    } else {
        Some(digits_value(fraction.take(6)))
    }
}

/// The place of the first `mark` in `s`, or the length of `s` where there
/// is none.
pub open spec fn first_of(s: Seq<char>, mark: char) -> int
    decreases s.len(),
{
    if s.len() == 0 || s[0] == mark {
        0
    } else {
        1 + first_of(s.drop_first(), mark)
    }
}

/// The amount that `number` writes, in millionths: digits, with at most one
/// decimal point among, before or behind them, and at least one digit. There
/// is none where `number` is not of that form, or the amount is finer than a
/// millionth or too large to hold.
pub open spec fn parsed_amount(number: Seq<char>) -> Option<nat> {
    let point = first_of(number, '.');
    let whole = number.take(point);
    let fraction = if point < number.len() {
        number.skip(point + 1)
    } else {
        Seq::empty()
    };
    if !all_digits(whole) || !all_digits(fraction) || whole.len() + fraction.len() == 0 {
        None
    } else {
        match fraction_units(fraction) {
            None => None,
            Some(fine) => if digits_value(whole) * 1_000_000 + fine <= u64::MAX {
                Some(digits_value(whole) * 1_000_000 + fine)
            } else {
                None
            },
        }
    }
}

/// How many characters at the start of `s` may stand in a number.
pub open spec fn number_len(s: Seq<char>) -> int
    decreases s.len(),
{
    if s.len() > 0 && is_number_char(s[0]) {
        1 + number_len(s.drop_first())
    } else {
        0
    }
}

/// What is wrong with a line of the scheme.
#[derive(Clone, Copy, Debug, PartialEq, Eq, Structural)]
pub enum SchemeFault {
    /// The line begins with a number, without `+`, `-` or `=` before it.
    StartsWithNumber,
    /// What stands behind `+`, `-` or `=` is not a number that can be held.
    BadNumber,
}

/// What one line of the scheme says, with the white space around it taken
/// off already.
pub open spec fn parsed_line(line: Seq<char>) -> Result<ChoiceView, SchemeFault> {
    if line.len() < 2 {
        Ok(ChoiceView::Comment(line))
    } else if (line[0] == '+' || line[0] == '-' || line[0] == '=') && is_number_char(line[1]) {
        let text = line.skip(1);
        let digits = number_len(text);
        let label = trimmed(text.skip(digits));
        match parsed_amount(text.take(digits)) {
            None => Err(SchemeFault::BadNumber),
            Some(units) => if line[0] == '+' {
                Ok(ChoiceView::Plus(units, label))
            } else if line[0] == '-' {
                Ok(ChoiceView::Minus(units, label))
            } else {
                Ok(ChoiceView::SetTo(units, label))
            },
        }
    } else if digit_of(line[0]) is Some || (line[0] == '.' && digit_of(line[1]) is Some) {
        Err(SchemeFault::StartsWithNumber)
    } else {
        Ok(ChoiceView::Comment(line))
    }
}

/// The lines of `s`: what stands between its line breaks. A line break at
/// the very end opens no further line.
pub open spec fn lines_of(s: Seq<char>) -> Seq<Seq<char>>
    decreases s.len(),
{
    if s.len() == 0 {
        Seq::empty()
    } else {
        let end = first_of(s, '\n');
        if end < 0 || end >= s.len() {
            seq![s]
        } else {
            seq![s.take(end)] + lines_of(s.skip(end + 1))
        }
    }
}

pub fn is_whitespace(c: char) -> (space: bool)
    ensures
        space == is_space(c),
{
    c == '\u{0009}' || c == '\u{000A}' || c == '\u{000B}' || c == '\u{000C}' || c == '\u{000D}'
        || c == '\u{0020}' || c == '\u{0085}' || c == '\u{00A0}' || c == '\u{1680}' || c
        == '\u{2000}' || c == '\u{2001}' || c == '\u{2002}' || c == '\u{2003}' || c == '\u{2004}'
        || c == '\u{2005}' || c == '\u{2006}' || c == '\u{2007}' || c == '\u{2008}' || c
        == '\u{2009}' || c == '\u{200A}' || c == '\u{2028}' || c == '\u{2029}' || c == '\u{202F}'
        || c == '\u{205F}' || c == '\u{3000}'
}

pub fn digit_value(c: char) -> (digit: Option<u8>)
    ensures
        match digit {
            Some(digit) => digit_of(c) == Some(digit as nat) && digit < 10,
            None => digit_of(c) is None,
        },
{
    if c == '0' {
        Some(0)
    } else if c == '1' {
        Some(1)
    } else if c == '2' {
        Some(2)
    } else if c == '3' {
        Some(3)
    } else if c == '4' {
        Some(4)
    } else if c == '5' {
        Some(5)
    } else if c == '6' {
        Some(6)
    } else if c == '7' {
        Some(7)
    } else if c == '8' {
        Some(8)
    } else if c == '9' {
        Some(9)
    } else {
        None
    }
}

/// The characters of `chars` from place `from` up to, not including, `to`.
pub fn part_of(chars: &[char], from: usize, to: usize) -> (part: Vec<char>)
    requires
        from <= to <= chars@.len(),
    ensures
        part@ == chars@.subrange(from as int, to as int),
{
    let mut part: Vec<char> = Vec::new();
    let mut index: usize = from;
    while index < to
        invariant
            from <= index <= to <= chars@.len(),
            part@ == chars@.subrange(from as int, index as int),
        decreases to - index,
    {
        part.push(chars[index]);
        proof {
            assert(part@ =~= chars@.subrange(from as int, index + 1));
        }
        index = index + 1;
    }
    part
}

/// `line` without the white space at either end.
pub fn trim(line: &[char]) -> (bare: Vec<char>)
    ensures
        bare@ == trimmed(line@),
{
    let mut from: usize = 0;
    assert(line@.skip(0) =~= line@);
    while from < line.len() && is_whitespace(line[from])
        invariant
            from <= line@.len(),
            trim_start(line@) == trim_start(line@.skip(from as int)),
        decreases line.len() - from,
    {
        proof {
            assert(line@.skip(from as int).drop_first() =~= line@.skip(from + 1));
        }
        from = from + 1;
    }
    proof {
        assert(trim_start(line@) == line@.skip(from as int));
    }
    let ghost rest = line@.skip(from as int);
    let mut to: usize = line.len();
    assert(line@.subrange(from as int, to as int) =~= rest);
    while to > from && is_whitespace(line[to - 1])
        invariant
            from <= to <= line@.len(),
            rest == line@.skip(from as int),
            trim_end(rest) == trim_end(line@.subrange(from as int, to as int)),
        decreases to - from,
    {
        proof {
            assert(line@.subrange(from as int, to as int).drop_last() =~= line@.subrange(
                from as int,
                to - 1,
            ));
        }
        to = to - 1;
    }
    part_of(line, from, to)
}

/// The first powers of ten.
pub proof fn lemma_pow10_values()
    ensures
        pow10(0) == 1,
        pow10(1) == 10,
        pow10(2) == 100,
        pow10(3) == 1_000,
        pow10(4) == 10_000,
        pow10(5) == 100_000,
        pow10(6) == 1_000_000,
{
    assert(pow10(1) == 10 * pow10(0));
    assert(pow10(2) == 10 * pow10(1));
    assert(pow10(3) == 10 * pow10(2));
    assert(pow10(4) == 10 * pow10(3));
    assert(pow10(5) == 10 * pow10(4));
    assert(pow10(6) == 10 * pow10(5));
}

/// A run of digits writes less than ten to the power of its length.
pub proof fn lemma_digits_value_bound(digits: Seq<char>)
    ensures
        digits_value(digits) < pow10(digits.len()),
    decreases digits.len(),
{
    if digits.len() > 0 {
        lemma_digits_value_bound(digits.drop_last());
        assert(pow10(digits.len()) == 10 * pow10((digits.len() - 1) as nat));
    }
}

/// A run of digits writes no less than any of its beginnings does.
pub proof fn lemma_digits_value_grows(digits: Seq<char>, upto: int)
    requires
        0 <= upto <= digits.len(),
    ensures
        digits_value(digits.take(upto)) <= digits_value(digits),
    decreases digits.len() - upto,
{
    if upto < digits.len() {
        lemma_digits_value_grows(digits.drop_last(), upto);
        assert(digits.drop_last().take(upto) =~= digits.take(upto));
    } else {
        assert(digits.take(upto) =~= digits);
    }
}

/// Where the first `upto` characters of `s` are not `mark`, the first
/// `mark` stands at `upto` or behind; it stands at `upto` if `mark` does.
pub proof fn lemma_first_of(s: Seq<char>, mark: char, upto: int)
    requires
        0 <= upto <= s.len(),
        forall|i: int| 0 <= i < upto ==> s[i] != mark,
    ensures
        upto <= first_of(s, mark) <= s.len(),
        upto < s.len() && s[upto] == mark ==> first_of(s, mark) == upto,
        upto == s.len() ==> first_of(s, mark) == upto,
        first_of(s, mark) < s.len() ==> s[first_of(s, mark)] == mark,
        forall|i: int| 0 <= i < first_of(s, mark) ==> s[i] != mark,
    decreases s.len(),
{
    if s.len() > 0 && s[0] != mark {
        let rest = s.drop_first();
        if upto > 0 {
            assert forall|i: int| 0 <= i < upto - 1 implies rest[i] != mark by {
                assert(rest[i] == s[i + 1]);
            }
            lemma_first_of(rest, mark, upto - 1);
        } else {
            lemma_first_of(rest, mark, 0);
        }
        assert forall|i: int| 0 <= i < first_of(s, mark) implies s[i] != mark by {
            if i > 0 {
                assert(rest[i - 1] == s[i]);
            }
        }
        if first_of(s, mark) < s.len() {
            assert(rest[first_of(rest, mark)] == s[first_of(rest, mark) + 1]);
        }
    }
}

/// The amount that `number` writes.
pub fn parse_amount(number: &[char]) -> (amount: Option<Amount>)
    ensures
        match amount {
            Some(amount) => parsed_amount(number@) == Some(amount@),
            None => parsed_amount(number@) is None,
        },
{
    let ghost text = number@;
    let count: usize = number.len();
    let mut whole: u128 = 0;
    let mut at: usize = 0;
    assert(text.take(0) =~= Seq::<char>::empty());
    // the digits before the point
    loop
        invariant
            at <= count,
            count == text.len(),
            text == number@,
            all_digits(text.take(at as int)),
            whole == digits_value(text.take(at as int)),
            whole <= u64::MAX,
        ensures
            at < count ==> digit_of(text[at as int]) is None,
        decreases count - at,
    {
        if at >= count {
            break ;
        }
        let digit: u8 = match digit_value(number[at]) {
            Some(digit) => digit,
            None => {
                break ;
            },
        };
        proof {
            assert(text.take(at + 1).drop_last() =~= text.take(at as int));
            assert(text.take(at + 1).last() == text[at as int]);
            assert forall|i: int| 0 <= i < at + 1 implies digit_of(#[trigger] text.take(at + 1)[i]) is Some by {
                if i < at {
                    assert(text.take(at as int)[i] == text[i]);
                }
            }
        }
        let grown: u128 = whole * 10 + digit as u128;
        if grown > u64::MAX as u128 {
            proof {
                // whatever follows, the amount is too large or ill-formed
                assert forall|i: int| 0 <= i < at + 1 implies text[i] != '.' by {
                    assert(digit_of(text.take(at + 1)[i]) is Some);
                }
                lemma_first_of(text, '.', at + 1);
                let point = first_of(text, '.');
                assert(text.take(point).take(at + 1) =~= text.take(at + 1));
                lemma_digits_value_grows(text.take(point), at + 1);
            }
            return None;
        }
        whole = grown;
        at = at + 1;
    }
    proof {
        assert forall|i: int| 0 <= i < at implies text[i] != '.' by {
            assert(digit_of(text.take(at as int)[i]) is Some);
        }
        lemma_first_of(text, '.', at as int);
    }
    if at < count && number[at] != '.' {
        proof {
            // a character that is neither a digit nor the point
            let point = first_of(text, '.');
            assert(point > at);
            assert(text.take(point)[at as int] == text[at as int]);
            assert(digit_of(text.take(point)[at as int]) is None);
        }
        return None;
    }
    let ghost point = at as int;
    proof {
        assert(first_of(text, '.') == point);
        assert(text.take(point) =~= text.take(at as int));
    }
    let ghost fraction = if point < text.len() {
        text.skip(point + 1)
    } else {
        Seq::<char>::empty()
    };
    let mut fine: u128 = 0;
    let mut places: usize = 0;
    let mut seen: usize = 0;
    if at < count {
        let start: usize = at + 1;
        let mut next: usize = start;
        proof {
            assert(fraction.take(0) =~= Seq::<char>::empty());
            lemma_pow10_values();
        }
        while next < count
            invariant
                start <= next <= count,
                start == point + 1,
                first_of(text, '.') == point,
                point < text.len(),
                count == text.len(),
                text == number@,
                fraction == text.skip(point + 1),
                seen == next - start,
                places == if seen < 6 {
                    seen
                } else {
                    6
                },
                all_digits(fraction.take(seen as int)),
                forall|i: int| 6 <= i < seen ==> fraction[i] == '0',
                fine == digits_value(fraction.take(places as int)),
                fine < pow10(places as nat),
                pow10(6) == 1_000_000,
            decreases count - next,
        {
            let ghost before = fraction.take(seen as int);
            proof {
                assert(fraction[seen as int] == text[next as int]);
            }
            let digit: u8 = match digit_value(number[next]) {
                Some(digit) => digit,
                None => {
                    proof {
                        assert(digit_of(fraction[seen as int]) is None);
                    }
                    return None;
                },
            };
            if seen < 6 {
                proof {
                    assert(fraction.take(places + 1).drop_last() =~= fraction.take(places as int));
                    assert(fraction.take(places + 1).last() == fraction[seen as int]);
                    lemma_digits_value_bound(fraction.take(places + 1));
                    lemma_pow10_values();
                }
                fine = fine * 10 + digit as u128;
                places = places + 1;
            } else if digit != 0 {
                proof {
                    assert(fraction[seen as int] != '0');
                }
                return None;
            }
            proof {
                assert forall|i: int| 0 <= i < seen + 1 implies digit_of(
                    #[trigger] fraction.take(seen + 1)[i],
                ) is Some by {
                    if i < seen {
                        assert(before[i] == fraction[i]);
                    }
                }
            }
            seen = seen + 1;
            next = next + 1;
        }
        proof {
            assert(fraction.take(seen as int) =~= fraction);
        }
    } else {
        proof {
            lemma_pow10_values();
            assert(fraction.take(0) =~= fraction);
        }
    }
    if at == 0 && seen == 0 {
        return None;
    }
    let mut scaled: u128 = fine;
    let mut shift: usize = places;
    proof {
        if places < 6 {
            assert(fraction.take(places as int) =~= fraction);
        }
        lemma_pow10_values();
        assert(pow10((shift - places) as nat) == 1);
    }
    while shift < 6
        invariant
            places <= shift <= 6,
            scaled == fine * pow10((shift - places) as nat),
            scaled < pow10(shift as nat),
            pow10(6) == 1_000_000,
        decreases 6 - shift,
    {
        proof {
            assert(pow10((shift + 1 - places) as nat) == 10 * pow10((shift - places) as nat));
            assert(pow10((shift + 1) as nat) == 10 * pow10(shift as nat));
            assert(fine * (10 * pow10((shift - places) as nat)) == 10 * (fine * pow10(
                (shift - places) as nat,
            ))) by (nonlinear_arith);
            lemma_pow10_values();
        }
        scaled = scaled * 10;
        shift = shift + 1;
    }
    proof {
        assert(fraction_units(fraction) == Some(scaled as nat));
        assert(text.take(point) =~= text.take(at as int));
    }
    let units: u128 = whole * 1_000_000 + scaled;
    if units > u64::MAX as u128 {
        return None;
    }
    Some(Amount::from_units(units as u64))
}

/// Whether `c` may stand in a number.
pub fn is_number(c: char) -> (number: bool)
    ensures
        number == is_number_char(c),
{
    digit_value(c).is_some() || c == '.'
}

/// What the line `line` of the scheme says.
pub fn parse_line(line: &[char]) -> (parsed: Result<Choice, SchemeFault>)
    ensures
        match parsed {
            Ok(choice) => parsed_line(trimmed(line@)) == Ok::<ChoiceView, SchemeFault>(choice@),
            Err(fault) => parsed_line(trimmed(line@)) == Err::<ChoiceView, SchemeFault>(fault),
        },
{
    let bare = trim(line);
    let count: usize = bare.len();
    if count < 2 {
        return Ok(Choice::Comment(text_of(bare.as_slice())));
    }
    let first: char = bare[0];
    let second: char = bare[1];
    if (first == '+' || first == '-' || first == '=') && is_number(second) {
        let ghost text = bare@.skip(1);
        let mut end: usize = 1;
        assert(text.skip(0) =~= text);
        while end < count && is_number(bare[end])
            invariant
                1 <= end <= count,
                count == bare@.len(),
                text == bare@.skip(1),
                number_len(text) == (end - 1) + number_len(text.skip(end - 1)),
            decreases count - end,
        {
            proof {
                assert(text.skip(end - 1)[0] == bare@[end as int]);
                assert(text.skip(end - 1).drop_first() =~= text.skip(end as int));
            }
            end = end + 1;
        }
        proof {
            if end < count {
                assert(text.skip(end - 1)[0] == bare@[end as int]);
            }
            assert(number_len(text) == end - 1);
            assert(text.take(end - 1) =~= bare@.subrange(1, end as int));
            assert(text.skip(end - 1) =~= bare@.subrange(end as int, count as int));
        }
        let number = part_of(bare.as_slice(), 1, end);
        let rest = part_of(bare.as_slice(), end, count);
        let label = text_of(trim(rest.as_slice()).as_slice());
        match parse_amount(number.as_slice()) {
            None => Err(SchemeFault::BadNumber),
            Some(amount) => {
                if first == '+' {
                    Ok(Choice::Plus(amount, label))
                } else if first == '-' {
                    Ok(Choice::Minus(amount, label))
                } else {
                    Ok(Choice::SetTo(amount, label))
                }
            },
        }
    } else if digit_value(first).is_some() || (first == '.' && digit_value(second).is_some()) {
        Err(SchemeFault::StartsWithNumber)
    } else {
        Ok(Choice::Comment(text_of(bare.as_slice())))
    }
}

/// The views of `lines`, in order.
pub open spec fn lines_view(lines: Seq<Vec<char>>) -> Seq<Seq<char>> {
    Seq::new(lines.len(), |i: int| lines[i]@)
}

/// The lines of `contents`.
pub fn split_lines(contents: &[char]) -> (lines: Vec<Vec<char>>)
    ensures
        lines_view(lines@) == lines_of(contents@),
{
    let ghost text = contents@;
    let count: usize = contents.len();
    let mut lines: Vec<Vec<char>> = Vec::new();
    let mut start: usize = 0;
    let mut at: usize = 0;
    proof {
        assert(text.skip(0) =~= text);
        assert(lines_view(lines@) =~= Seq::<Seq<char>>::empty());
        assert(lines_view(lines@) + lines_of(text.skip(0)) =~= lines_of(text));
    }
    while at < count
        invariant
            start <= at <= count,
            count == text.len(),
            text == contents@,
            lines_of(text) == lines_view(lines@) + lines_of(text.skip(start as int)),
            forall|k: int| start <= k < at ==> text[k] != '\n',
        decreases count - at,
    {
        if contents[at] == '\n' {
            let ghost before = lines_view(lines@);
            let ghost rest = text.skip(start as int);
            proof {
                assert forall|k: int| 0 <= k < at - start implies rest[k] != '\n' by {
                    assert(rest[k] == text[start + k]);
                }
                assert(rest[at - start] == text[at as int]);
                lemma_first_of(rest, '\n', at - start);
                assert(rest.take(at - start) =~= text.subrange(start as int, at as int));
                assert(rest.skip(at - start + 1) =~= text.skip(at + 1));
            }
            lines.push(part_of(contents, start, at));
            proof {
                assert(lines_view(lines@) =~= before.push(text.subrange(start as int, at as int)));
                assert(lines_of(text) =~= lines_view(lines@) + lines_of(text.skip(at + 1)));
            }
            start = at + 1;
        }
        at = at + 1;
    }
    if start < count {
        let ghost before = lines_view(lines@);
        let ghost rest = text.skip(start as int);
        proof {
            assert forall|k: int| 0 <= k < rest.len() implies rest[k] != '\n' by {
                assert(rest[k] == text[start + k]);
            }
            lemma_first_of(rest, '\n', rest.len() as int);
            assert(rest =~= text.subrange(start as int, count as int));
        }
        lines.push(part_of(contents, start, count));
        proof {
            assert(lines_view(lines@) =~= before.push(rest));
        }
    } else {
        proof {
            assert(lines_of(text.skip(start as int)) =~= Seq::<Seq<char>>::empty());
            assert(lines_of(text) =~= lines_view(lines@));
        }
    }
    lines
}

/// Why a scheme was refused: the number of the first line that is at
/// fault, counted from one, and what is wrong with it.
#[derive(Clone, Copy, Debug, PartialEq, Eq, Structural)]
pub struct SchemeError {
    pub line_number: usize,
    pub fault: SchemeFault,
}

/// The rubric that the scheme `contents` writes down: one directive for each
/// line, in order. The first line at fault has the whole scheme refused.
pub fn parse_choices(contents: &str) -> (parsed: Result<Choices, SchemeError>)
    ensures
        match parsed {
            Ok(choices) => {
                &&& choices@.len() == lines_of(contents@).len()
                &&& forall|i: int|
                    0 <= i < choices@.len() ==> parsed_line(
                        trimmed(#[trigger] lines_of(contents@)[i]),
                    ) == Ok::<ChoiceView, SchemeFault>(choices@[i])
            },
            Err(error) => {
                &&& 1 <= error.line_number <= lines_of(contents@).len()
                &&& parsed_line(trimmed(lines_of(contents@)[error.line_number - 1])) == Err::<
                    ChoiceView,
                    SchemeFault,
                >(error.fault)
                &&& forall|i: int|
                    0 <= i < error.line_number - 1 ==> parsed_line(
                        trimmed(#[trigger] lines_of(contents@)[i]),
                    ) is Ok
            },
        },
{
    let chars = chars_of(contents);
    let lines = split_lines(chars.as_slice());
    let ghost all = lines_of(contents@);
    let mut choices: Vec<Choice> = Vec::new();
    let mut index: usize = 0;
    while index < lines.len()
        invariant
            index <= lines@.len(),
            all == lines_of(contents@),
            lines_view(lines@) == all,
            choices@.len() == index,
            forall|i: int|
                0 <= i < index ==> parsed_line(trimmed(#[trigger] all[i])) == Ok::<
                    ChoiceView,
                    SchemeFault,
                >(choices@[i]@),
        decreases lines.len() - index,
    {
        proof {
            assert(all[index as int] == lines@[index as int]@);
        }
        match parse_line(lines[index].as_slice()) {
            Ok(choice) => {
                choices.push(choice);
            },
            Err(fault) => {
                return Err(SchemeError { line_number: index + 1, fault });
            },
        }
        index = index + 1;
    }
    Ok(Choices { choices })
}

} // verus!
