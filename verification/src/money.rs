//! Exact money amounts: a non-negative count of minor currency units
//! (cents), with a verified `$major.minor` display form.

use vstd::prelude::*;
use crate::digits::char_of_digit;
use crate::digits::dec_digits;
use crate::digits::digit_str;
use crate::digits::to_decimal;

verus! {

/// An exact amount of money, counted in minor units (cents).
/// The count is never negative and arithmetic on it never wraps.
#[derive(Clone, Copy, PartialEq, Eq, Structural, Debug)]
pub struct Money(pub u64);

/// The display form of an amount of `v` minor units:
/// a dollar sign, the major units in decimal, a point, and exactly
/// two minor-unit digits.
pub open spec fn money_display(v: nat) -> Seq<char> {
    seq!['$'] + dec_digits(v / 100) + seq!['.'] + seq![
        char_of_digit((v % 100) / 10),
        char_of_digit((v % 100) % 10),
    ]
}

impl Money {
    /// The amount as a mathematical count of minor units.
    pub open spec fn minor_units(self) -> nat {
        self.0 as nat
    }

    /// Renders the amount as `$<major>.<two-digit minor>`.
    pub fn to_display(&self) -> (s: String)
        ensures
            s@ == money_display(self.minor_units()),
    {
        let cents: u64 = self.0 % 100;
        let mut s = String::from_str("$");
        let major = to_decimal(self.0 / 100);
        s.append(major.as_str());
        s.append(".");
        s.append(digit_str(cents / 10));
        s.append(digit_str(cents % 10));
        proof {
            reveal_strlit("$");
            reveal_strlit(".");
            assert(s@ =~= money_display(self.minor_units()));
        }
        s
    }
}

} // verus!
