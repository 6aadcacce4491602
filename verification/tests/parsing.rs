//! Behaviour of the two line parsers on concrete input.

use bank_sim::money::Money;
use bank_sim::parse::parse_action;
use bank_sim::parse::parse_currency;
use bank_sim::parse::ActionError;
use bank_sim::parse::BankAction;
use bank_sim::parse::CurrencyError;

#[test]
fn whole_numbers_are_major_units() {
    assert_eq!(parse_currency("0"), Ok(Money(0)));
    assert_eq!(parse_currency("7"), Ok(Money(700)));
    assert_eq!(parse_currency("10"), Ok(Money(1000)));
    assert_eq!(parse_currency("007"), Ok(Money(700)));
}

#[test]
fn two_fractional_digits_are_minor_units() {
    assert_eq!(parse_currency("5.25"), Ok(Money(525)));
    assert_eq!(parse_currency("10.50"), Ok(Money(1050)));
    assert_eq!(parse_currency("0.00"), Ok(Money(0)));
    assert_eq!(parse_currency("0.99"), Ok(Money(99)));
}

#[test]
fn one_fractional_digit_counts_tenths() {
    assert_eq!(parse_currency("5.5"), Ok(Money(550)));
    assert_eq!(parse_currency("0.5"), Ok(Money(50)));
    assert_eq!(parse_currency("3.0"), Ok(Money(300)));
}

#[test]
fn long_fractions_worth_at_most_99_pass() {
    // extra leading zeroes keep the fractional value small enough
    assert_eq!(parse_currency("5.099"), Ok(Money(599)));
    assert_eq!(parse_currency("5.0099"), Ok(Money(599)));
}

#[test]
fn overlarge_fractions_fail() {
    assert_eq!(
        parse_currency("5.999"),
        Err(CurrencyError::Invalid("5.999".to_string()))
    );
    assert_eq!(
        parse_currency("0.100"),
        Err(CurrencyError::Invalid("0.100".to_string()))
    );
}

#[test]
fn non_numeric_amounts_fail() {
    assert_eq!(
        parse_currency("abc"),
        Err(CurrencyError::Invalid("abc".to_string()))
    );
    assert_eq!(
        parse_currency("5.5.5"),
        Err(CurrencyError::Invalid("5.5.5".to_string()))
    );
    assert_eq!(parse_currency(""), Err(CurrencyError::Invalid("".to_string())));
    assert_eq!(
        parse_currency("5."),
        Err(CurrencyError::Invalid("5.".to_string()))
    );
    assert_eq!(
        parse_currency(".5"),
        Err(CurrencyError::Invalid(".5".to_string()))
    );
    assert_eq!(
        parse_currency("+5"),
        Err(CurrencyError::Invalid("+5".to_string()))
    );
    assert_eq!(
        parse_currency("5,5"),
        Err(CurrencyError::Invalid("5,5".to_string()))
    );
    assert_eq!(
        parse_currency(" 5"),
        Err(CurrencyError::Invalid(" 5".to_string()))
    );
}

#[test]
fn amounts_at_the_edge_of_the_range() {
    // the largest representable amount, written with a fraction
    assert_eq!(
        parse_currency("184467440737095516.15"),
        Ok(Money(u64::MAX))
    );
    // the same digits as whole major units cannot be represented
    assert_eq!(
        parse_currency("18446744073709551615"),
        Err(CurrencyError::Invalid("18446744073709551615".to_string()))
    );
}

#[test]
fn action_numbers_map_to_actions() {
    assert_eq!(parse_action("1"), Ok(BankAction::Deposit));
    assert_eq!(parse_action("2"), Ok(BankAction::Withdraw));
    assert_eq!(parse_action("3"), Ok(BankAction::Exit));
}

#[test]
fn unmapped_action_numbers_fail() {
    assert_eq!(parse_action("4"), Err(ActionError::InvalidAction(4)));
    assert_eq!(parse_action("0"), Err(ActionError::InvalidAction(0)));
    assert_eq!(parse_action("255"), Err(ActionError::InvalidAction(255)));
}

#[test]
fn action_lines_are_trimmed() {
    assert_eq!(parse_action(" 1 "), Ok(BankAction::Deposit));
    assert_eq!(parse_action("\t2"), Ok(BankAction::Withdraw));
    assert_eq!(parse_action("3\r\n"), Ok(BankAction::Exit));
    assert_eq!(parse_action("  4  "), Err(ActionError::InvalidAction(4)));
    // the rejection carries the line as read, untrimmed
    assert_eq!(
        parse_action(" x "),
        Err(ActionError::InvalidString(" x ".to_string()))
    );
    // a line of nothing but whitespace trims to nothing
    assert_eq!(
        parse_action("   "),
        Err(ActionError::InvalidString("   ".to_string()))
    );
    // trimming happens at the ends only
    assert_eq!(
        parse_action("1 2"),
        Err(ActionError::InvalidString("1 2".to_string()))
    );
}

#[test]
fn non_numeric_actions_fail() {
    assert_eq!(
        parse_action("x"),
        Err(ActionError::InvalidString("x".to_string()))
    );
    assert_eq!(
        parse_action(""),
        Err(ActionError::InvalidString("".to_string()))
    );
    assert_eq!(
        parse_action("256"),
        Err(ActionError::InvalidString("256".to_string()))
    );
    assert_eq!(
        parse_action("1.0"),
        Err(ActionError::InvalidString("1.0".to_string()))
    );
}

#[test]
fn the_display_form_parses_back() {
    for v in [0u64, 5, 99, 100, 550, 1050, 123456, u64::MAX] {
        let shown = Money(v).to_display();
        assert_eq!(parse_currency(&shown[1..]), Ok(Money(v)));
    }
}
