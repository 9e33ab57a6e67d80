//! Text building blocks: decimal numerals, concatenation and the order of
//! strings, stated over `Seq<char>`.

use vstd::prelude::*;
use vstd::string::StringExecFns;

verus! {

/// `String::push` appends exactly one character.
pub assume_specification[ String::push ](text: &mut String, c: char)
    ensures
        final(text)@ == old(text)@.push(c),
;

/// Whether two texts hold the same characters in the same order.
pub fn same_text(a: &str, b: &str) -> (same: bool)
    ensures
        same == (a@ == b@),
{
    a.to_owned() == b.to_owned()
}

/// The character that writes the digit `d`.
pub open spec fn digit_char(d: nat) -> char {
    if d == 0 {
        '0'
    } else if d == 1 {
        '1'
    } else if d == 2 {
        '2'
    } else if d == 3 {
        '3'
    } else if d == 4 {
        '4'
    } else if d == 5 {
        '5'
    } else if d == 6 {
        '6'
    } else if d == 7 {
        '7'
    } else if d == 8 {
        '8'
    } else {
        '9'
    }
}

/// The decimal numeral of `n`, without leading zeros (`0` is "0").
pub open spec fn decimal(n: nat) -> Seq<char>
    decreases n,
{
    if n < 10 {
        seq![digit_char(n)]
    } else {
        decimal(n / 10).push(digit_char(n % 10))
    }
}

/// The last `places` decimal digits of `n`, padded with zeros on the left.
pub open spec fn padded_decimal(n: nat, places: nat) -> Seq<char>
    decreases places,
{
    if places == 0 {
        Seq::empty()
    } else {
        padded_decimal(n / 10, (places - 1) as nat).push(digit_char(n % 10))
    }
}

/// The characters of `s` in the opposite order.
pub open spec fn reversed(s: Seq<char>) -> Seq<char>
    decreases s.len(),
{
    if s.len() == 0 {
        Seq::empty()
    } else {
        seq![s.last()] + reversed(s.drop_last())
    }
}

pub fn digit_to_char(d: u8) -> (c: char)
    requires
        d < 10,
    ensures
        c == digit_char(d as nat),
{
    if d == 0 {
        '0'
    } else if d == 1 {
        '1'
    } else if d == 2 {
        '2'
    } else if d == 3 {
        '3'
    } else if d == 4 {
        '4'
    } else if d == 5 {
        '5'
    } else if d == 6 {
        '6'
    } else if d == 7 {
        '7'
    } else if d == 8 {
        '8'
    } else {
        '9'
    }
}

/// Appends to `text` the characters of `stack` from its top (its last
/// element) down to its bottom.
pub fn push_reversed(text: &mut String, stack: &Vec<char>)
    ensures
        final(text)@ == old(text)@ + reversed(stack@),
{
    let mut left: usize = stack.len();
    assert(stack@.take(left as int) =~= stack@);
    while left > 0
        invariant
            left <= stack.len(),
            text@ + reversed(stack@.take(left as int)) == old(text)@ + reversed(stack@),
        decreases left,
    {
        let ghost before = stack@.take(left as int);
        left = left - 1;
        text.push(stack[left]);
        proof {
            assert(before.drop_last() == stack@.take(left as int));
            assert(before.last() == stack@[left as int]);
            assert(reversed(before) == seq![before.last()] + reversed(before.drop_last()));
            assert((old(text)@ + reversed(stack@)) =~= text@ + reversed(stack@.take(left as int)));
        }
    }
    proof {
        assert(stack@.take(0).len() == 0);
        assert(text@ + reversed(stack@.take(0)) =~= text@);
    }
}

/// Appends the decimal numeral of `n` to `text`.
pub fn push_decimal(text: &mut String, n: u128)
    ensures
        final(text)@ == old(text)@ + decimal(n as nat),
{
    let mut stack: Vec<char> = Vec::new();
    let mut rest: u128 = n;
    while rest >= 10
        invariant
            decimal(rest as nat) + reversed(stack@) == decimal(n as nat),
        decreases rest,
    {
        let d: u8 = (rest % 10) as u8;
        let ghost before = stack@;
        let ghost whole = rest;
        stack.push(digit_to_char(d));
        rest = rest / 10;
        proof {
            assert(stack@.drop_last() == before);
            assert(reversed(stack@) == seq![stack@.last()] + reversed(before));
            assert(decimal(whole as nat) == decimal(rest as nat).push(stack@.last()));
            assert(decimal(rest as nat) + reversed(stack@) =~= decimal(whole as nat) + reversed(
                before,
            ));
        }
    }
    text.push(digit_to_char(rest as u8));
    push_reversed(text, &stack);
    proof {
        assert(decimal(rest as nat) == seq![digit_char(rest as nat)]);
        assert(text@ =~= old(text)@ + (decimal(rest as nat) + reversed(stack@)));
    }
}

/// Appends the last `places` decimal digits of `n` to `text`, zero-padded.
pub fn push_padded_decimal(text: &mut String, n: u64, places: u8)
    ensures
        final(text)@ == old(text)@ + padded_decimal(n as nat, places as nat),
{
    let mut stack: Vec<char> = Vec::new();
    let mut rest: u64 = n;
    let mut left: u8 = places;
    while left > 0
        invariant
            padded_decimal(rest as nat, left as nat) + reversed(stack@) == padded_decimal(
                n as nat,
                places as nat,
            ),
        decreases left,
    {
        let d: u8 = (rest % 10) as u8;
        let ghost before = stack@;
        let ghost whole = rest;
        let ghost width = left;
        stack.push(digit_to_char(d));
        rest = rest / 10;
        left = left - 1;
        proof {
            assert(stack@.drop_last() == before);
            assert(reversed(stack@) == seq![stack@.last()] + reversed(before));
            assert(padded_decimal(whole as nat, width as nat) == padded_decimal(
                rest as nat,
                left as nat,
            ).push(stack@.last()));
            assert(padded_decimal(rest as nat, left as nat) + reversed(stack@) =~= padded_decimal(
                whole as nat,
                width as nat,
            ) + reversed(before));
        }
    }
    push_reversed(text, &stack);
    proof {
        assert(padded_decimal(rest as nat, 0) + reversed(stack@) =~= reversed(stack@));
    }
}

/// The characters of `text`, in order.
pub fn chars_of(text: &str) -> (chars: Vec<char>)
    ensures
        chars@ == text@,
{
    let mut chars: Vec<char> = Vec::new();
    for c in it: text.chars()
        invariant
            it.seq() == text@,
            chars@ == it.seq().take(it.index() as int),
    {
        chars.push(c);
        proof {
            assert(chars@ =~= it.seq().take(it.index() + 1));
        }
    }
    proof {
        assert(chars@ =~= text@);
    }
    chars
}

/// The text that `chars` spell.
pub fn text_of(chars: &[char]) -> (text: String)
    ensures
        text@ == chars@,
{
    let mut text = String::new();
    let mut index: usize = 0;
    while index < chars.len()
        invariant
            index <= chars@.len(),
            text@ == chars@.take(index as int),
        decreases chars.len() - index,
    {
        text.push(chars[index]);
        proof {
            assert(text@ =~= chars@.take(index + 1));
        }
        index = index + 1;
    }
    proof {
        assert(chars@.take(index as int) =~= chars@);
    }
    text
}

/// Whether `needle` stands in `haystack` at place `at`.
pub open spec fn occurs_at(haystack: Seq<char>, needle: Seq<char>, at: int) -> bool {
    0 <= at && at + needle.len() <= haystack.len() && haystack.subrange(
        at,
        at + needle.len(),
    ) == needle
}

/// Whether `needle` stands somewhere in `haystack`.
pub open spec fn contains_text(haystack: Seq<char>, needle: Seq<char>) -> bool {
    exists|at: int| occurs_at(haystack, needle, at)
}

/// Whether `needle` stands in `haystack` at place `at`.
pub fn stands_at(haystack: &[char], needle: &[char], at: usize) -> (stands: bool)
    requires
        at + needle@.len() <= haystack@.len(),
    ensures
        stands == occurs_at(haystack@, needle@, at as int),
{
    let mut index: usize = 0;
    let total: usize = haystack.len();
    while index < needle.len()
        invariant
            index <= needle@.len(),
            total == haystack@.len(),
            at + needle@.len() <= haystack@.len(),
            forall|k: int| 0 <= k < index ==> haystack@[at + k] == needle@[k],
        decreases needle.len() - index,
    {
        if haystack[at + index] != needle[index] {
            proof {
                assert(haystack@.subrange(at as int, at + needle@.len())[index as int]
                    == haystack@[at + index]);
            }
            return false;
        }
        index = index + 1;
    }
    proof {
        assert(haystack@.subrange(at as int, at + needle@.len()) =~= needle@);
    }
    true
}

/// Whether `needle` stands somewhere in `haystack`.
pub fn contains_chars(haystack: &[char], needle: &[char]) -> (found: bool)
    ensures
        found == contains_text(haystack@, needle@),
{
    if needle.len() > haystack.len() {
        return false;
    }
    let last: usize = haystack.len() - needle.len();
    let mut at: usize = 0;
    while at < last
        invariant
            at <= last,
            last == haystack@.len() - needle@.len(),
            forall|k: int| 0 <= k < at ==> !occurs_at(haystack@, needle@, k),
        decreases last - at,
    {
        if stands_at(haystack, needle, at) {
            return true;
        }
        at = at + 1;
    }
    stands_at(haystack, needle, last)
}

/// `text` behind as many spaces as it takes to fill `width` places.
pub open spec fn right_aligned(text: Seq<char>, width: nat) -> Seq<char>
    decreases width - text.len(),
{
    if text.len() >= width {
        text
    } else {
        right_aligned(seq![' '] + text, width)
    }
}

/// `text` behind as many spaces as it takes to fill `width` places.
pub fn align_right(text: &str, width: usize) -> (aligned: String)
    ensures
        aligned@ == right_aligned(text@, width as nat),
{
    let chars = chars_of(text);
    let mut aligned = String::new();
    let mut filled: usize = chars.len();
    let ghost mut padded: Seq<char> = text@;
    while filled < width
        invariant
            filled == padded.len(),
            padded == aligned@ + text@,
            forall|k: int| 0 <= k < aligned@.len() ==> aligned@[k] == ' ',
            right_aligned(padded, width as nat) == right_aligned(text@, width as nat),
        decreases width - filled,
    {
        aligned.push(' ');
        proof {
            assert(aligned@ + text@ =~= seq![' '] + padded);
            padded = seq![' '] + padded;
        }
        filled = filled + 1;
    }
    aligned.append(text);
    aligned
}

} // verus!
