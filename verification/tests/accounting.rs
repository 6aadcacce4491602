//! Behaviour of the account, the control step, and the display forms.

use bank_sim::account::Account;
use bank_sim::control::apply_amount_line;
use bank_sim::control::AmountOutcome;
use bank_sim::digits::to_decimal;
use bank_sim::messages::deposit_message;
use bank_sim::messages::insufficient_funds_message;
use bank_sim::money::Money;
use bank_sim::parse::parse_action;
use bank_sim::parse::ActionError;
use bank_sim::parse::BankAction;
use bank_sim::parse::CurrencyError;

#[test]
fn deposit_then_withdraw_restores_the_balance() {
    let mut account = Account::new();
    account.balance = Money(1234);
    assert!(account.deposit(Money(766)));
    assert_eq!(account.balance, Money(2000));
    assert!(account.withdraw(Money(766)));
    assert_eq!(account.balance, Money(1234));
}

#[test]
fn overdrawing_leaves_the_balance_unchanged() {
    let mut account = Account::new();
    account.balance = Money(550);
    assert!(!account.withdraw(Money(551)));
    assert_eq!(account.balance, Money(550));
}

#[test]
fn withdrawing_the_whole_balance_empties_it() {
    let mut account = Account::new();
    account.balance = Money(550);
    assert!(account.withdraw(Money(550)));
    assert_eq!(account.balance, Money(0));
}

#[test]
fn an_unrepresentable_deposit_is_rejected() {
    let mut account = Account::new();
    account.balance = Money(u64::MAX - 1);
    assert!(!account.deposit(Money(2)));
    assert_eq!(account.balance, Money(u64::MAX - 1));
    assert!(account.deposit(Money(1)));
    assert_eq!(account.balance, Money(u64::MAX));
}

#[test]
fn a_full_session_runs_as_expected() {
    let mut account = Account::new();
    assert_eq!(account.balance, Money(0));

    assert_eq!(parse_action("1"), Ok(BankAction::Deposit));
    assert_eq!(
        apply_amount_line(&mut account, BankAction::Deposit, "10.50"),
        AmountOutcome::Deposited { amount: Money(1050), balance: Money(1050) }
    );
    assert_eq!(account.balance, Money(1050));

    assert_eq!(parse_action("2"), Ok(BankAction::Withdraw));
    assert_eq!(
        apply_amount_line(&mut account, BankAction::Withdraw, "5"),
        AmountOutcome::Withdrew { amount: Money(500), balance: Money(550) }
    );
    assert_eq!(account.balance, Money(550));

    assert_eq!(
        apply_amount_line(&mut account, BankAction::Withdraw, "100"),
        AmountOutcome::InsufficientFunds { balance: Money(550) }
    );
    assert_eq!(account.balance, Money(550));

    assert_eq!(parse_action("3"), Ok(BankAction::Exit));
}

#[test]
fn a_bad_amount_line_changes_nothing() {
    let mut account = Account::new();
    account.balance = Money(75);
    assert_eq!(
        apply_amount_line(&mut account, BankAction::Deposit, "oops"),
        AmountOutcome::BadAmount(CurrencyError::Invalid("oops".to_string()))
    );
    assert_eq!(account.balance, Money(75));
}

#[test]
fn an_overflowing_deposit_line_is_reported() {
    let mut account = Account::new();
    account.balance = Money(u64::MAX);
    assert_eq!(
        apply_amount_line(&mut account, BankAction::Deposit, "1"),
        AmountOutcome::DepositOverflow { balance: Money(u64::MAX) }
    );
    assert_eq!(account.balance, Money(u64::MAX));
}

#[test]
fn amounts_display_with_two_minor_digits() {
    assert_eq!(Money(0).to_display(), "$0.00");
    assert_eq!(Money(5).to_display(), "$0.05");
    assert_eq!(Money(50).to_display(), "$0.50");
    assert_eq!(Money(550).to_display(), "$5.50");
    assert_eq!(Money(1050).to_display(), "$10.50");
    assert_eq!(Money(u64::MAX).to_display(), "$184467440737095516.15");
}

#[test]
fn numbers_display_in_plain_decimal() {
    assert_eq!(to_decimal(0), "0");
    assert_eq!(to_decimal(10), "10");
    assert_eq!(to_decimal(12345), "12345");
    assert_eq!(to_decimal(u64::MAX), "18446744073709551615");
}

#[test]
fn report_lines_read_as_printed() {
    assert_eq!(
        deposit_message(Money(1050), Money(1050)),
        "Deposited $10.50 into account. (Balance: $10.50)"
    );
    assert_eq!(
        insufficient_funds_message(Money(550)),
        "Error: Funds not available in account. (Balance: $5.50)"
    );
    assert_eq!(
        ActionError::InvalidString("x".to_string()).message(),
        "error: invalid input supplied: x"
    );
    assert_eq!(
        ActionError::InvalidAction(4).message(),
        "error: no operation is mapped to 4"
    );
    assert_eq!(
        CurrencyError::Invalid("abc".to_string()).message(),
        "error: abc is not a valid amount"
    );
}

#[test]
fn a_new_account_is_empty() {
    let account = Account::new();
    assert_eq!(account.balance, Money(0));
    assert_eq!(account.name, "");
}
