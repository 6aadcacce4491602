//! The user-visible report lines, built and pinned down exactly so the
//! display layer only has to print them.

use vstd::prelude::*;
use crate::digits::dec_digits;
use crate::digits::to_decimal;
use crate::money::Money;
use crate::money::money_display;
use crate::parse::ActionError;
use crate::parse::CurrencyError;

verus! {

/// The confirmation line for a successful deposit, showing the amount
/// and the new balance.
pub fn deposit_message(amount: Money, balance: Money) -> (s: String)
    ensures
        s@ == "Deposited "@ + money_display(amount.minor_units())
            + " into account. (Balance: "@ + money_display(balance.minor_units()) + ")"@,
{
    let mut s = String::from_str("Deposited ");
    let shown_amount = amount.to_display();
    s.append(shown_amount.as_str());
    s.append(" into account. (Balance: ");
    let shown_balance = balance.to_display();
    s.append(shown_balance.as_str());
    s.append(")");
    s
}

/// The report line for a withdrawal the balance could not cover,
/// showing the unchanged balance.
pub fn insufficient_funds_message(balance: Money) -> (s: String)
    ensures
        s@ == "Error: Funds not available in account. (Balance: "@ + money_display(
            balance.minor_units(),
        ) + ")"@,
{
    let mut s = String::from_str("Error: Funds not available in account. (Balance: ");
    let shown_balance = balance.to_display();
    s.append(shown_balance.as_str());
    s.append(")");
    s
}

impl ActionError {
    /// The user-visible error line for a rejected action input.
    pub fn message(&self) -> (s: String)
        ensures
            match self {
                ActionError::InvalidString(t) => s@ == "error: invalid input supplied: "@ + t@,
                ActionError::InvalidAction(v) => s@ == "error: no operation is mapped to "@
                    + dec_digits(*v as nat),
            },
    {
        match self {
            ActionError::InvalidString(t) => {
                let mut s = String::from_str("error: invalid input supplied: ");
                s.append(t.as_str());
                s
            },
            ActionError::InvalidAction(v) => {
                let mut s = String::from_str("error: no operation is mapped to ");
                let shown = to_decimal(*v);
                s.append(shown.as_str());
                s
            },
        }
    }
}

impl CurrencyError {
    /// The user-visible error line for a rejected amount input.
    pub fn message(&self) -> (s: String)
        ensures
            match self {
                CurrencyError::Invalid(t) => s@ == "error: "@ + t@ + " is not a valid amount"@,
            },
    {
        match self {
            CurrencyError::Invalid(t) => {
                let mut s = String::from_str("error: ");
                s.append(t.as_str());
                s.append(" is not a valid amount");
                s
            },
        }
    }
}

} // verus!
