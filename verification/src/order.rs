//! The order of texts: character by character, a proper prefix first.

use vstd::prelude::*;
use crate::text::chars_of;

verus! {

/// Whether `a` comes strictly before `b`: at the first place where the two
/// differ `a` holds the character with the smaller code, or `a` ends there
/// and `b` goes on.
pub open spec fn text_precedes(a: Seq<char>, b: Seq<char>) -> bool
    decreases a.len(),
{
    if b.len() == 0 {
        false
    } else if a.len() == 0 {
        true
    } else if a[0] != b[0] {
        (a[0] as u32) < (b[0] as u32)
    } else {
        text_precedes(a.drop_first(), b.drop_first())
    }
}

/// Whether `a` comes strictly before `b`.
pub fn text_before(a: &str, b: &str) -> (before: bool)
    ensures
        before == text_precedes(a@, b@),
{
    let left = chars_of(a);
    let right = chars_of(b);
    let mut at: usize = 0;
    assert(left@.skip(0) =~= left@);
    assert(right@.skip(0) =~= right@);
    while at < left.len() && at < right.len() && left[at] == right[at]
        invariant
            at <= left@.len(),
            at <= right@.len(),
            text_precedes(left@, right@) == text_precedes(
                left@.skip(at as int),
                right@.skip(at as int),
            ),
        decreases left.len() - at,
    {
        proof {
            assert(left@.skip(at as int).drop_first() =~= left@.skip(at + 1));
            assert(right@.skip(at as int).drop_first() =~= right@.skip(at + 1));
        }
        at = at + 1;
    }
    if at >= right.len() {
        false
    } else if at >= left.len() {
        true
    } else {
        code_of(left[at]) < code_of(right[at])
    }
}

/// The code of a character.
pub fn code_of(c: char) -> (code: u32)
    ensures
        code == c as u32,
{
    c as u32
}

/// Different characters have different codes.
proof fn lemma_codes_differ(x: char, y: char)
    ensures
        x != y ==> (x as u32) != (y as u32),
{
    vstd::utf8::char_u32_cast(x, x as u32);
    vstd::utf8::char_u32_cast(y, y as u32);
}

/// No text comes before itself.
pub proof fn lemma_text_irreflexive(a: Seq<char>)
    ensures
        !text_precedes(a, a),
    decreases a.len(),
{
    if a.len() > 0 {
        lemma_text_irreflexive(a.drop_first());
    }
}

/// Of two different texts one comes before the other.
pub proof fn lemma_text_total(a: Seq<char>, b: Seq<char>)
    ensures
        a != b ==> text_precedes(a, b) || text_precedes(b, a),
    decreases a.len(),
{
    if a.len() > 0 && b.len() > 0 {
        if a[0] == b[0] {
            lemma_text_total(a.drop_first(), b.drop_first());
            if a.drop_first() == b.drop_first() {
                assert(a =~= seq![a[0]] + a.drop_first());
                assert(b =~= seq![b[0]] + b.drop_first());
            }
        } else {
            lemma_codes_differ(a[0], b[0]);
        }
    } else if a.len() == 0 && b.len() == 0 {
        assert(a =~= b);
    }
}

/// Two texts do not come before each other.
pub proof fn lemma_text_asymmetric(a: Seq<char>, b: Seq<char>)
    ensures
        !(text_precedes(a, b) && text_precedes(b, a)),
    decreases a.len(),
{
    if a.len() > 0 && b.len() > 0 && a[0] == b[0] {
        lemma_text_asymmetric(a.drop_first(), b.drop_first());
    }
}

/// What comes before a text comes before all that the text comes before.
pub proof fn lemma_text_transitive(a: Seq<char>, b: Seq<char>, c: Seq<char>)
    ensures
        text_precedes(a, b) && text_precedes(b, c) ==> text_precedes(a, c),
    decreases a.len(),
{
    if a.len() > 0 && b.len() > 0 && c.len() > 0 {
        if a[0] == b[0] && b[0] == c[0] {
            lemma_text_transitive(a.drop_first(), b.drop_first(), c.drop_first());
        }
    }
}

} // verus!
