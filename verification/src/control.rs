//! The control loop's decision step: given the pending action and the
//! amount line the user typed, parse it, move the money, and say what
//! happened. Prompting and printing stay outside; every decision and
//! every change to the account happens here.

use vstd::prelude::*;
use vstd::pervasive::unreached;
use crate::account::Account;
use crate::account::deposit_result;
use crate::account::withdraw_result;
use crate::money::Money;
use crate::parse::BankAction;
use crate::parse::CurrencyError;
use crate::parse::currency_val;
use crate::parse::currency_wellformed;
use crate::parse::parse_currency;

verus! {

/// What one amount line did to the account.
#[derive(Debug, PartialEq, Eq)]
pub enum AmountOutcome {
    /// The amount was deposited; carries it and the new balance.
    Deposited { amount: Money, balance: Money },
    /// Depositing would have left the balance unrepresentable; it is
    /// unchanged and carried here.
    DepositOverflow { balance: Money },
    /// The amount was withdrawn; carries it and the new balance.
    Withdrew { amount: Money, balance: Money },
    /// The funds were short; the balance is unchanged and carried here.
    InsufficientFunds { balance: Money },
    /// The line did not parse as an amount; nothing changed.
    BadAmount(CurrencyError),
}

/// Performs one deposit or withdrawal round on the account, driven by
/// the line the user typed as the amount.
pub fn apply_amount_line(account: &mut Account, action: BankAction, line: &str) -> (o:
    AmountOutcome)
    requires
        !(action is Exit),
    ensures
        final(account).name == old(account).name,
        ({
            let v = currency_val(line@);
            let before = old(account).balance.minor_units();
            let parses = currency_wellformed(line@) && v <= u64::MAX;
            match o {
                AmountOutcome::Deposited { amount, balance } => parses && action is Deposit
                    && amount.minor_units() == v && Some(balance.minor_units()) == deposit_result(
                    before,
                    v,
                ) && final(account).balance == balance,
                AmountOutcome::DepositOverflow { balance } => parses && action is Deposit
                    && deposit_result(before, v) is None && balance == old(account).balance
                    && final(account).balance == balance,
                AmountOutcome::Withdrew { amount, balance } => parses && action is Withdraw
                    && amount.minor_units() == v && Some(balance.minor_units()) == withdraw_result(
                    before,
                    v,
                ) && final(account).balance == balance,
                AmountOutcome::InsufficientFunds { balance } => parses && action is Withdraw
                    && withdraw_result(before, v) is None && balance == old(account).balance
                    && final(account).balance == balance,
                AmountOutcome::BadAmount(e) => !parses && (e matches CurrencyError::Invalid(t)
                    && t@ == line@) && final(account).balance == old(account).balance,
            }
        }),
{
    match parse_currency(line) {
        Err(e) => AmountOutcome::BadAmount(e),
        Ok(amount) => match action {
            BankAction::Deposit => {
                if account.deposit(amount) {
                    AmountOutcome::Deposited { amount, balance: account.balance }
                } else {
                    AmountOutcome::DepositOverflow { balance: account.balance }
                }
            },
            BankAction::Withdraw => {
                if account.withdraw(amount) {
                    AmountOutcome::Withdrew { amount, balance: account.balance }
                } else {
                    AmountOutcome::InsufficientFunds { balance: account.balance }
                }
            },
            BankAction::Exit => unreached(),
        },
    }
}

} // verus!
