//! Fixed-point numbers for rubric amounts and marks.
//!
//! Both count millionths of a mark, so that sums are exact and two numbers
//! compare as their counts do. An `Amount` is what one rubric line adds,
//! takes away or sets; a `Mark` is wide enough to hold the sum of as many
//! amounts as a machine can store.

use vstd::prelude::*;
use crate::text::{decimal, padded_decimal, push_decimal, push_padded_decimal};

verus! {

/// How many units make one mark.
pub const UNITS_PER_MARK: u64 = 1_000_000;

/// How many units make one hundredth of a mark.
pub const UNITS_PER_HUNDREDTH: u64 = 10_000;

/// How many decimal places one unit resolves.
pub const FRACTION_PLACES: u8 = 6;

/// A non-negative rubric amount, in millionths of a mark.
#[derive(Clone, Copy, Debug, PartialEq, Eq, Structural)]
pub struct Amount {
    units: u64,
}

/// A non-negative mark, in millionths of a mark.
#[derive(Clone, Copy, Debug, PartialEq, Eq, Structural)]
pub struct Mark {
    units: u128,
}

/// The fractional part of a fixed-point number as text: nothing when it is
/// zero, else a point and the digits up to the last one that is not zero.
pub open spec fn fraction_text(fraction: nat, places: nat) -> Seq<char>
    decreases places,
{
    if fraction == 0 || places == 0 {
        Seq::empty()
    } else if fraction % 10 == 0 {
        fraction_text(fraction / 10, (places - 1) as nat)
    } else {
        seq!['.'] + padded_decimal(fraction, places)
    }
}

/// A count of millionths written as a decimal number: "5" for five marks,
/// "2.5" for two and a half.
pub open spec fn fixed_text(units: nat) -> Seq<char> {
    decimal(units / 1_000_000) + fraction_text(units % 1_000_000, 6)
}

/// The multiple of a hundredth nearest to `units`; a tie goes up.
pub open spec fn round_to_hundredths(units: nat) -> nat {
    ((units + 5_000) / 10_000 * 10_000) as nat
}

/// How many hundredths of a mark are nearest to `units`; a tie goes up.
pub open spec fn nearest_hundredths(units: nat) -> nat {
    (units + 5_000) / 10_000
}

/// A count of millionths written with two decimal places, rounded to the
/// nearest hundredth: "3.00" for three marks, "0.13" for an eighth.
pub open spec fn two_places(units: nat) -> Seq<char> {
    decimal(nearest_hundredths(units) / 100) + seq!['.'] + padded_decimal(
        nearest_hundredths(units) % 100,
        2,
    )
}

/// Rounding lands on a multiple of a hundredth at most half a hundredth
/// away, and a value exactly between two multiples goes to the upper one.
pub proof fn lemma_round_to_hundredths(units: nat)
    ensures
        round_to_hundredths(units) % 10_000 == 0,
        round_to_hundredths(units) - units <= 5_000,
        units - round_to_hundredths(units) < 5_000,
        units % 10_000 == 0 ==> round_to_hundredths(units) == units,
        units % 10_000 == 5_000 ==> round_to_hundredths(units) == units + 5_000,
{
}

/// Appends `units`, written as a decimal number of marks, to `text`.
pub fn push_fixed(text: &mut String, units: u128)
    ensures
        final(text)@ == old(text)@ + fixed_text(units as nat),
{
    push_decimal(text, units / 1_000_000);
    let ghost whole = text@;
    let mut fraction: u64 = (units % 1_000_000) as u64;
    let mut places: u8 = FRACTION_PLACES;
    while places > 0 && fraction != 0 && fraction % 10 == 0
        invariant
            fraction_text(fraction as nat, places as nat) == fraction_text(
                (units % 1_000_000) as nat,
                6,
            ),
            text@ == whole,
        decreases places,
    {
        fraction = fraction / 10;
        places = places - 1;
    }
    if places > 0 && fraction != 0 {
        text.push('.');
        push_padded_decimal(text, fraction, places);
        proof {
            assert(text@ =~= whole + (seq!['.'] + padded_decimal(fraction as nat, places as nat)));
        }
    } else {
        proof {
            assert(text@ =~= whole + Seq::<char>::empty());
        }
    }
    proof {
        assert(text@ =~= old(text)@ + (decimal((units / 1_000_000) as nat) + fraction_text(
            (units % 1_000_000) as nat,
            6,
        )));
    }
}

impl View for Amount {
    type V = nat;

    closed spec fn view(&self) -> nat {
        self.units as nat
    }
}

impl View for Mark {
    type V = nat;

    closed spec fn view(&self) -> nat {
        self.units as nat
    }
}

impl Amount {
    /// The amount that counts `units` millionths of a mark.
    pub fn from_units(units: u64) -> (amount: Self)
        ensures
            amount@ == units,
    {
        Amount { units }
    }

    pub fn units(&self) -> (units: u64)
        ensures
            units == self@,
    {
        self.units
    }

    /// The amount as the rubric writes it.
    pub fn to_text(&self) -> (text: String)
        ensures
            text@ == fixed_text(self@),
    {
        let mut text = String::new();
        push_fixed(&mut text, self.units as u128);
        proof {
            assert(text@ =~= fixed_text(self@));
        }
        text
    }
}

impl Mark {
    /// The mark that counts `units` millionths.
    pub fn from_units(units: u128) -> (mark: Self)
        ensures
            mark@ == units,
    {
        Mark { units }
    }

    pub fn units(&self) -> (units: u128)
        ensures
            units == self@,
    {
        self.units
    }

    /// The mark nearest to `total` that is a whole number of hundredths.
    pub fn rounded(total: u128) -> (mark: Self)
        requires
            total + 5_000 <= u128::MAX,
        ensures
            mark@ == round_to_hundredths(total as nat),
    {
        Mark { units: (total + 5_000) / 10_000 * 10_000 }
    }

    /// The mark as a decimal number.
    pub fn to_text(&self) -> (text: String)
        ensures
            text@ == fixed_text(self@),
    {
        let mut text = String::new();
        push_fixed(&mut text, self.units);
        proof {
            assert(text@ =~= fixed_text(self@));
        }
        text
    }

    /// The mark with two decimal places, as lists show it.
    pub fn to_two_places(&self) -> (text: String)
        ensures
            text@ == two_places(self@),
    {
        let carry: u128 = if self.units % 10_000 >= 5_000 {
            1
        } else {
            0
        };
        let hundredths: u128 = self.units / 10_000 + carry;
        assert(hundredths == nearest_hundredths(self@));
        let mut text = String::new();
        push_decimal(&mut text, hundredths / 100);
        text.push('.');
        push_padded_decimal(&mut text, (hundredths % 100) as u64, 2);
        proof {
            assert(text@ =~= two_places(self@));
        }
        text
    }
}

} // verus!
