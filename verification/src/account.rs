//! The bank account: a name and a balance in minor units, changed only
//! by deposits that never wrap and withdrawals that never go negative.

use vstd::prelude::*;
use crate::money::Money;

verus! {

/// The balance after depositing `amount` into `balance`, or nothing
/// when the sum would not be representable: the deposit is then
/// rejected rather than wrapped.
pub open spec fn deposit_result(balance: nat, amount: nat) -> Option<nat> {
    if balance + amount <= u64::MAX {
        Some((balance + amount) as nat)
    } else {
        None
    }
}

/// The balance after withdrawing `amount` from `balance`, or nothing
/// when the funds are short: the balance never goes negative.
pub open spec fn withdraw_result(balance: nat, amount: nat) -> Option<nat> {
    if amount <= balance {
        Some((balance - amount) as nat)
    } else {
        None
    }
}

/// A single bank account, owned by the control loop for the life of the
/// process.
pub struct Account {
    /// The holder's name, set once at startup.
    pub name: String,
    /// The current balance; never negative, never wrapped.
    pub balance: Money,
}

impl Account {
    /// A fresh account with an empty name and a zero balance.
    pub fn new() -> (a: Account)
        ensures
            a.name@ == Seq::<char>::empty(),
            a.balance.minor_units() == 0,
    {
        Account { name: String::new(), balance: Money(0) }
    }

    /// Adds `amount` to the balance. Succeeds exactly when the new
    /// balance is representable; on failure the balance is unchanged.
    pub fn deposit(&mut self, amount: Money) -> (ok: bool)
        ensures
            ok == (deposit_result(old(self).balance.minor_units(), amount.minor_units())
                is Some),
            ok ==> Some(final(self).balance.minor_units()) == deposit_result(
                old(self).balance.minor_units(),
                amount.minor_units(),
            ),
            !ok ==> final(self).balance == old(self).balance,
            final(self).name == old(self).name,
    {
        match self.balance.0.checked_add(amount.0) {
            Some(new_balance) => {
                self.balance = Money(new_balance);
                true
            },
            None => false,
        }
    }

    /// Subtracts `amount` from the balance. Succeeds exactly when the
    /// funds are available; on insufficient funds the balance is
    /// unchanged.
    pub fn withdraw(&mut self, amount: Money) -> (ok: bool)
        ensures
            ok == (withdraw_result(old(self).balance.minor_units(), amount.minor_units())
                is Some),
            ok ==> Some(final(self).balance.minor_units()) == withdraw_result(
                old(self).balance.minor_units(),
                amount.minor_units(),
            ),
            !ok ==> final(self).balance == old(self).balance,
            final(self).name == old(self).name,
    {
        match self.balance.0.checked_sub(amount.0) {
            Some(new_balance) => {
                self.balance = Money(new_balance);
                true
            },
            None => false,
        }
    }
}

/// Depositing an amount and then withdrawing the same amount returns
/// the balance to exactly its prior value, whenever the deposit is
/// representable at all.
pub proof fn lemma_deposit_withdraw_round_trip(balance: nat, amount: nat)
    requires
        balance + amount <= u64::MAX,
    ensures
        deposit_result(balance, amount) == Some((balance + amount) as nat),
        withdraw_result((balance + amount) as nat, amount) == Some(balance),
{
}

} // verus!
