//! Parsers for the two kinds of input line: a bank action chosen by a
//! small integer, and a monetary amount with an optional fractional part.

use vstd::prelude::*;
use crate::digits::all_digits;
use crate::digits::digit_val;
use crate::digits::digits_val;
use crate::digits::is_digit_char;
use crate::digits::is_number;
use crate::digits::lemma_digits_val_prefix;
use crate::digits::lemma_digits_val_push;
use crate::digits::char_of_digit;
use crate::digits::dec_digits;
use crate::digits::lemma_char_of_digit_val;
use crate::digits::lemma_dec_digits_are_digits;
use crate::digits::lemma_dec_digits_val;
use crate::money::Money;
use crate::money::money_display;

verus! {

/// The three operations the control loop supports.
#[derive(Clone, Copy, PartialEq, Eq, Structural, Debug)]
pub enum BankAction {
    Deposit,
    Withdraw,
    Exit,
}

/// Why a line was rejected as a bank action.
#[derive(Debug, PartialEq, Eq)]
pub enum ActionError {
    /// The text is not a small non-negative integer; carries the text.
    InvalidString(String),
    /// The integer named no action; carries the integer.
    InvalidAction(u64),
}

/// The largest integer accepted as an action number.
pub const ACTION_NUMBER_MAX: u64 = 255;

/// The text is a well-formed action number: a non-empty run of digits
/// whose value is small enough to be an action number at all.
pub open spec fn action_number_wellformed(s: Seq<char>) -> bool {
    is_number(s) && digits_val(s) <= ACTION_NUMBER_MAX
}

/// The action a well-formed action number in one to three selects.
pub open spec fn action_of(v: nat) -> BankAction {
    if v == 1 {
        BankAction::Deposit
    } else if v == 2 {
        BankAction::Withdraw
    } else {
        BankAction::Exit
    }
}

/// Why a line was rejected as a monetary amount.
#[derive(Debug, PartialEq, Eq)]
pub enum CurrencyError {
    /// The text is not a well-formed, representable amount; carries the text.
    Invalid(String),
}

/// `i` is the position of the first decimal point in `s`.
pub open spec fn is_first_dot(s: Seq<char>, i: int) -> bool {
    &&& 0 <= i < s.len()
    &&& s[i] == '.'
    &&& forall|j: int| 0 <= j < i ==> s[j] != '.'
}

/// `s` contains a decimal point.
pub open spec fn has_dot(s: Seq<char>) -> bool {
    exists|i: int| is_first_dot(s, i)
}

/// The worth of a fractional part in minor units: a single digit counts
/// tenths, two or more digits count as written.
pub open spec fn scaled_minor(minor: Seq<char>) -> nat {
    if minor.len() == 1 {
        digits_val(minor) * 10
    } else {
        digits_val(minor)
    }
}

/// The text is a well-formed amount: either a plain number, or a number,
/// one decimal point, and a fractional part of digits worth at most 99
/// minor units.
pub open spec fn currency_wellformed(s: Seq<char>) -> bool {
    if has_dot(s) {
        let p = choose|i: int| is_first_dot(s, i);
        &&& is_number(s.subrange(0, p))
        &&& is_number(s.subrange(p + 1, s.len() as int))
        &&& scaled_minor(s.subrange(p + 1, s.len() as int)) <= 99
    } else {
        is_number(s)
    }
}

/// The amount in minor units that a well-formed text denotes.
pub open spec fn currency_val(s: Seq<char>) -> nat {
    if has_dot(s) {
        let p = choose|i: int| is_first_dot(s, i);
        digits_val(s.subrange(0, p)) * 100 + scaled_minor(s.subrange(p + 1, s.len() as int))
    } else {
        digits_val(s) * 100
    }
}

/// There is at most one first decimal point.
pub proof fn lemma_first_dot_unique(s: Seq<char>, i: int, j: int)
    requires
        is_first_dot(s, i),
        is_first_dot(s, j),
    ensures
        i == j,
{
    if i < j {
        assert(s[i] == '.');
    } else if j < i {
        assert(s[j] == '.');
    }
}

/// The position of the first decimal point, if any.
fn find_dot(s: &str) -> (r: Option<usize>)
    ensures
        match r {
            Some(p) => is_first_dot(s@, p as int),
            None => !has_dot(s@),
        },
{
    let n = s.unicode_len();
    let mut i: usize = 0;
    while i < n
        invariant
            i <= n,
            n == s@.len(),
            forall|j: int| 0 <= j < i ==> s@[j] != '.',
        decreases n - i,
    {
        if s.get_char(i) == '.' {
            return Some(i);
        }
        i = i + 1;
    }
    None
}

/// Parses the characters `s[from..to]` as a run of decimal digits.
/// Yields the value exactly when the run is a non-empty, all-digit
/// number that fits in the result type.
fn parse_digits_range(s: &str, from: usize, to: usize) -> (r: Option<u64>)
    requires
        from <= to <= s@.len(),
    ensures
        ({
            let seg = s@.subrange(from as int, to as int);
            match r {
                Some(v) => is_number(seg) && v == digits_val(seg),
                None => !(is_number(seg) && digits_val(seg) <= u64::MAX),
            }
        }),
{
    let ghost seg = s@.subrange(from as int, to as int);
    if from == to {
        return None;
    }
    let mut acc: u64 = 0;
    let mut i: usize = from;
    while i < to
        invariant
            from <= i <= to <= s@.len(),
            seg == s@.subrange(from as int, to as int),
            all_digits(s@.subrange(from as int, i as int)),
            acc == digits_val(s@.subrange(from as int, i as int)),
        decreases to - i,
    {
        let ghost pref = s@.subrange(from as int, i as int);
        let ghost next = s@.subrange(from as int, i as int + 1);
        proof {
            assert(next =~= pref.push(s@[i as int]));
            lemma_digits_val_push(pref, s@[i as int]);
            assert(next =~= seg.subrange(0, i - from + 1));
            lemma_digits_val_prefix(seg, i - from + 1);
        }
        let c = s.get_char(i);
        let code = c as u32;
        if code < 48 || code > 57 {
            proof {
                assert(!is_digit_char(seg[i - from]));
            }
            return None;
        }
        let d: u64 = (code - 48) as u64;
        proof {
            assert(is_digit_char(s@[i as int]));
            assert(digit_val(s@[i as int]) == d);
        }
        let acc10 = match acc.checked_mul(10) {
            Some(x) => x,
            None => {
                return None;
            },
        };
        acc = match acc10.checked_add(d) {
            Some(x) => x,
            None => {
                return None;
            },
        };
        i = i + 1;
    }
    proof {
        assert(seg =~= s@.subrange(from as int, i as int));
    }
    Some(acc)
}

/// Interprets a line of text as a monetary amount.
///
/// Succeeds exactly on well-formed amounts whose value in minor units is
/// representable; any other line is rejected with `Invalid`, carrying the
/// line unchanged.
pub fn parse_currency(s: &str) -> (r: Result<Money, CurrencyError>)
    ensures
        match r {
            Ok(m) => currency_wellformed(s@) && currency_val(s@) <= u64::MAX && m.minor_units()
                == currency_val(s@),
            Err(CurrencyError::Invalid(t)) => t@ == s@ && !(currency_wellformed(s@)
                && currency_val(s@) <= u64::MAX),
        },
{
    let n = s.unicode_len();
    match find_dot(s) {
        None => {
            proof {
                assert(s@.subrange(0, n as int) =~= s@);
            }
            match parse_digits_range(s, 0, n) {
                Some(v) => match v.checked_mul(100) {
                    Some(total) => Ok(Money(total)),
                    None => Err(CurrencyError::Invalid(s.to_owned())),
                },
                None => Err(CurrencyError::Invalid(s.to_owned())),
            }
        },
        Some(p) => {
            proof {
                let q = choose|i: int| is_first_dot(s@, i);
                lemma_first_dot_unique(s@, p as int, q);
            }
            let ghost major_seg = s@.subrange(0, p as int);
            let ghost minor_seg = s@.subrange(p as int + 1, n as int);
            match parse_digits_range(s, 0, p) {
                None => {
                    proof {
                        if is_number(major_seg) {
                            // the major part alone already exceeds the range
                            assert(currency_val(s@) >= digits_val(major_seg) * 100);
                        }
                    }
                    Err(CurrencyError::Invalid(s.to_owned()))
                },
                Some(mj) => {
                    match parse_digits_range(s, p + 1, n) {
                        None => {
                            proof {
                                if is_number(minor_seg) {
                                    // a one-digit fraction always fits, so an
                                    // unrepresentable fraction has several digits
                                    // and is worth far more than 99
                                    if minor_seg.len() == 1 {
                                        assert(minor_seg.drop_last() =~= Seq::<char>::empty());
                                        assert(digits_val(Seq::<char>::empty()) == 0);
                                        assert(digits_val(minor_seg) == digit_val(
                                            minor_seg.last(),
                                        ));
                                        assert(is_digit_char(minor_seg.last()));
                                    }
                                }
                            }
                            Err(CurrencyError::Invalid(s.to_owned()))
                        },
                        Some(mn) => {
                            let minor_len = n - (p + 1);
                            proof {
                                if minor_seg.len() == 1 {
                                    assert(minor_seg.drop_last() =~= Seq::<char>::empty());
                                    assert(digits_val(Seq::<char>::empty()) == 0);
                                    assert(digits_val(minor_seg) == digit_val(minor_seg.last()));
                                    assert(is_digit_char(minor_seg.last()));
                                }
                            }
                            let scaled = if minor_len == 1 {
                                mn * 10
                            } else {
                                mn
                            };
                            if scaled > 99 {
                                return Err(CurrencyError::Invalid(s.to_owned()));
                            }
                            match mj.checked_mul(100) {
                                None => Err(CurrencyError::Invalid(s.to_owned())),
                                Some(base) => match base.checked_add(scaled) {
                                    None => Err(CurrencyError::Invalid(s.to_owned())),
                                    Some(total) => Ok(Money(total)),
                                },
                            }
                        },
                    }
                },
            }
        },
    }
}

/// A character that trimming an input line removes.
pub open spec fn is_space_char(c: char) -> bool {
    c == ' ' || c == '\t' || c == '\r' || c == '\n'
}

/// `s` without its leading whitespace.
pub open spec fn trim_front(s: Seq<char>) -> Seq<char>
    decreases s.len(),
{
    if s.len() > 0 && is_space_char(s[0]) {
        trim_front(s.drop_first())
    } else {
        s
    }
}

/// `s` without its trailing whitespace.
pub open spec fn trim_back(s: Seq<char>) -> Seq<char>
    decreases s.len(),
{
    if s.len() > 0 && is_space_char(s.last()) {
        trim_back(s.drop_last())
    } else {
        s
    }
}

/// `s` without leading and trailing whitespace: what the action parser
/// reads.
pub open spec fn trimmed(s: Seq<char>) -> Seq<char> {
    trim_back(trim_front(s))
}

/// Leading whitespace up to `lo`, and no whitespace at `lo`, put the
/// front-trimmed text at `lo`.
proof fn lemma_trim_front_subrange(s: Seq<char>, lo: int)
    requires
        0 <= lo <= s.len(),
        forall|j: int| 0 <= j < lo ==> is_space_char(s[j]),
        lo == s.len() || !is_space_char(s[lo]),
    ensures
        trim_front(s) == s.subrange(lo, s.len() as int),
    decreases lo,
{
    if lo == 0 {
        assert(trim_front(s) =~= s.subrange(0, s.len() as int));
    } else {
        let t = s.drop_first();
        lemma_trim_front_subrange(t, lo - 1);
        assert(t.subrange(lo - 1, t.len() as int) =~= s.subrange(lo, s.len() as int));
    }
}

/// Trailing whitespace from `hi` on, and none right before `hi`, put
/// the back-trimmed text before `hi`.
proof fn lemma_trim_back_subrange(s: Seq<char>, hi: int)
    requires
        0 <= hi <= s.len(),
        forall|j: int| hi <= j < s.len() ==> is_space_char(s[j]),
        hi == 0 || !is_space_char(s[hi - 1]),
    ensures
        trim_back(s) == s.subrange(0, hi),
    decreases s.len() - hi,
{
    if hi == s.len() {
        assert(trim_back(s) =~= s.subrange(0, hi));
    } else {
        let t = s.drop_last();
        lemma_trim_back_subrange(t, hi);
        assert(t.subrange(0, hi) =~= s.subrange(0, hi));
    }
}

/// Whether trimming an input line removes `c`.
fn is_space(c: char) -> (b: bool)
    ensures
        b == is_space_char(c),
{
    c == ' ' || c == '\t' || c == '\r' || c == '\n'
}

/// Interprets a line of text as a bank action.
///
/// The line, with surrounding whitespace trimmed away, must be a small
/// non-negative integer; one maps to deposit, two to withdraw, three to
/// exit, and any other integer names no action. Both rejections carry
/// the line as it was read, untrimmed.
pub fn parse_action(s: &str) -> (r: Result<BankAction, ActionError>)
    ensures
        match r {
            Ok(a) => action_number_wellformed(trimmed(s@)) && 1 <= digits_val(trimmed(s@)) <= 3
                && a == action_of(digits_val(trimmed(s@))),
            Err(ActionError::InvalidString(t)) => t@ == s@ && !action_number_wellformed(
                trimmed(s@),
            ),
            Err(ActionError::InvalidAction(v)) => action_number_wellformed(trimmed(s@)) && v
                == digits_val(trimmed(s@)) && !(1 <= digits_val(trimmed(s@)) <= 3),
        },
{
    let n = s.unicode_len();
    let mut lo: usize = 0;
    while lo < n && is_space(s.get_char(lo))
        invariant
            lo <= n,
            n == s@.len(),
            forall|j: int| 0 <= j < lo ==> is_space_char(s@[j]),
        decreases n - lo,
    {
        lo = lo + 1;
    }
    let mut hi: usize = n;
    while hi > lo && is_space(s.get_char(hi - 1))
        invariant
            lo <= hi <= n,
            n == s@.len(),
            forall|j: int| hi <= j < n ==> is_space_char(s@[j]),
        decreases hi,
    {
        hi = hi - 1;
    }
    proof {
        lemma_trim_front_subrange(s@, lo as int);
        let front = s@.subrange(lo as int, n as int);
        lemma_trim_back_subrange(front, hi - lo);
        assert(front.subrange(0, hi - lo) =~= s@.subrange(lo as int, hi as int));
        assert(trimmed(s@) == s@.subrange(lo as int, hi as int));
    }
    match parse_digits_range(s, lo, hi) {
        None => Err(ActionError::InvalidString(s.to_owned())),
        Some(v) => {
            if v > ACTION_NUMBER_MAX {
                Err(ActionError::InvalidString(s.to_owned()))
            } else if v == 1 {
                Ok(BankAction::Deposit)
            } else if v == 2 {
                Ok(BankAction::Withdraw)
            } else if v == 3 {
                Ok(BankAction::Exit)
            } else {
                Err(ActionError::InvalidAction(v))
            }
        },
    }
}

/// No digit character is a decimal point.
proof fn lemma_digits_have_no_dot(s: Seq<char>)
    requires
        all_digits(s),
    ensures
        !has_dot(s),
{
    if has_dot(s) {
        let i = choose|i: int| is_first_dot(s, i);
        assert(is_first_dot(s, i));
        assert(is_digit_char(s[i]));
    }
}

/// The value of a one-character digit run.
proof fn lemma_digits_val_single(c: char)
    ensures
        digits_val(seq![c]) == digit_val(c),
{
    let empty = Seq::<char>::empty();
    assert(digits_val(empty) == 0);
    assert(seq![c] =~= empty.push(c));
    lemma_digits_val_push(empty, c);
}

/// The value of a two-character digit run.
proof fn lemma_digits_val_pair(c1: char, c2: char)
    ensures
        digits_val(seq![c1, c2]) == digit_val(c1) * 10 + digit_val(c2),
{
    lemma_digits_val_single(c1);
    assert(seq![c1, c2] =~= seq![c1].push(c2));
    lemma_digits_val_push(seq![c1], c2);
}

/// The decimal form of any number `m`, taken whole, denotes exactly
/// `m * 100` minor units.
pub proof fn lemma_whole_number_form(m: nat)
    ensures
        currency_wellformed(dec_digits(m)),
        currency_val(dec_digits(m)) == m * 100,
{
    lemma_dec_digits_are_digits(m);
    lemma_dec_digits_val(m);
    lemma_digits_have_no_dot(dec_digits(m));
}

/// The first decimal point of a number followed by a point and a digit
/// run stands right after the number.
proof fn lemma_number_dot_fraction_split(m: nat, frac: Seq<char>)
    ensures
        ({
            let s = dec_digits(m) + seq!['.'] + frac;
            let p = dec_digits(m).len() as int;
            &&& is_first_dot(s, p)
            &&& has_dot(s)
            &&& (choose|i: int| is_first_dot(s, i)) == p
            &&& s.subrange(0, p) =~= dec_digits(m)
            &&& s.subrange(p + 1, s.len() as int) =~= frac
        }),
{
    let s = dec_digits(m) + seq!['.'] + frac;
    let p = dec_digits(m).len() as int;
    lemma_dec_digits_are_digits(m);
    assert(s[p] == '.');
    assert forall|j: int| 0 <= j < p implies s[j] != '.' by {
        assert(s[j] == dec_digits(m)[j]);
        assert(is_digit_char(dec_digits(m)[j]));
    }
    assert(is_first_dot(s, p));
    let q = choose|i: int| is_first_dot(s, i);
    lemma_first_dot_unique(s, p, q);
}

/// A number, a point and two fractional digits denote the number in
/// major units plus the two digits in minor units.
pub proof fn lemma_two_digit_fraction_form(m: nat, d1: nat, d2: nat)
    requires
        d1 < 10,
        d2 < 10,
    ensures
        ({
            let s = dec_digits(m) + seq!['.'] + seq![
                char_of_digit(d1),
                char_of_digit(d2),
            ];
            currency_wellformed(s) && currency_val(s) == m * 100 + d1 * 10 + d2
        }),
{
    let c1 = char_of_digit(d1);
    let c2 = char_of_digit(d2);
    let frac = seq![c1, c2];
    lemma_char_of_digit_val(d1);
    lemma_char_of_digit_val(d2);
    lemma_dec_digits_are_digits(m);
    lemma_dec_digits_val(m);
    lemma_number_dot_fraction_split(m, frac);
    lemma_digits_val_pair(c1, c2);
}

/// A number, a point and one fractional digit denote the number in
/// major units plus the digit in tenths of a major unit.
pub proof fn lemma_one_digit_fraction_form(m: nat, d: nat)
    requires
        d < 10,
    ensures
        ({
            let s = dec_digits(m) + seq!['.'] + seq![char_of_digit(d)];
            currency_wellformed(s) && currency_val(s) == m * 100 + d * 10
        }),
{
    let c = char_of_digit(d);
    let frac = seq![c];
    lemma_char_of_digit_val(d);
    lemma_dec_digits_are_digits(m);
    lemma_dec_digits_val(m);
    lemma_number_dot_fraction_split(m, frac);
    lemma_digits_val_single(c);
}

/// A text whose fractional part is worth more than 99 minor units is
/// never a well-formed amount.
pub proof fn lemma_overlarge_fraction_rejected(s: Seq<char>, p: int)
    requires
        is_first_dot(s, p),
        scaled_minor(s.subrange(p + 1, s.len() as int)) > 99,
    ensures
        !currency_wellformed(s),
{
    let q = choose|i: int| is_first_dot(s, i);
    lemma_first_dot_unique(s, p, q);
}

/// The displayed form of an amount, taken back without its leading
/// dollar sign, parses to exactly the displayed amount.
pub proof fn lemma_display_form_parses_back(v: nat)
    ensures
        ({
            let shown = money_display(v).subrange(1, money_display(v).len() as int);
            currency_wellformed(shown) && currency_val(shown) == v
        }),
{
    let d1 = (v % 100) / 10;
    let d2 = (v % 100) % 10;
    lemma_two_digit_fraction_form(v / 100, d1, d2);
    let s = dec_digits(v / 100) + seq!['.'] + seq![char_of_digit(d1), char_of_digit(d2)];
    assert(money_display(v).subrange(1, money_display(v).len() as int) =~= s);
    vstd::arithmetic::div_mod::lemma_fundamental_div_mod(v as int, 100);
    vstd::arithmetic::div_mod::lemma_fundamental_div_mod((v % 100) as int, 10);
}

} // verus!
