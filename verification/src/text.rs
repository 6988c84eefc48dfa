//! Writing numbers, amounts and dates as text.
//!
//! Every writer appends to a text under construction and says exactly which
//! characters it adds.

use crate::calendar::{lemma_day_number_bounds, Date, Timestamp};
use crate::money::{div_round, divide_rounded, round_to_cent};
use crate::ratio::Ratio;
use vstd::prelude::*;

verus! {

/// The character that writes the digit `digit`.
pub open spec fn digit_char(digit: int) -> char {
    if digit == 0 {
        '0'
    } else if digit == 1 {
        '1'
    } else if digit == 2 {
        '2'
    } else if digit == 3 {
        '3'
    } else if digit == 4 {
        '4'
    } else if digit == 5 {
        '5'
    } else if digit == 6 {
        '6'
    } else if digit == 7 {
        '7'
    } else if digit == 8 {
        '8'
    } else {
        '9'
    }
}

/// The digits of a number in base ten, without leading zeros.
pub open spec fn natural_text(n: nat) -> Seq<char>
    decreases n,
{
    if n < 10 {
        seq![digit_char(n as int)]
    } else {
        natural_text(n / 10).push(digit_char((n % 10) as int))
    }
}

/// A whole number in base ten, with a minus sign where it is negative.
pub open spec fn integer_text(n: int) -> Seq<char> {
    if n < 0 {
        seq!['-'] + natural_text((-n) as nat)
    } else {
        natural_text(n as nat)
    }
}

/// A number in base ten on at least two places, with a zero in front where needed.
pub open spec fn two_places_text(n: nat) -> Seq<char> {
    if n < 10 {
        seq!['0'] + natural_text(n)
    } else {
        natural_text(n)
    }
}

/// A number of hundredths as a decimal number with two places after the point.
pub open spec fn hundredths_text(hundredths: int) -> Seq<char> {
    if hundredths < 0 {
        seq!['-'] + natural_text(((-hundredths) / 100) as nat) + seq!['.'] + two_places_text(
            ((-hundredths) % 100) as nat,
        )
    } else {
        natural_text((hundredths / 100) as nat) + seq!['.'] + two_places_text(
            (hundredths % 100) as nat,
        )
    }
}

/// An amount in ticks as dollars with two places after the point, rounded to the cent.
pub open spec fn cents_text(ticks: int) -> Seq<char> {
    hundredths_text(round_to_cent(ticks) / 100)
}

/// The places after the point of an amount whose ticks beyond whole dollars are
/// `ticks` (1 to 9999): up to four digits, as many as are needed.
pub open spec fn fraction_text(ticks: nat) -> Seq<char> {
    let first = seq![digit_char((ticks / 1000) as int)];
    if ticks % 1000 == 0 {
        first
    } else {
        let second = first.push(digit_char((ticks / 100 % 10) as int));
        if ticks % 100 == 0 {
            second
        } else {
            let third = second.push(digit_char((ticks / 10 % 10) as int));
            if ticks % 10 == 0 {
                third
            } else {
                third.push(digit_char((ticks % 10) as int))
            }
        }
    }
}

/// An amount that is not negative, in ticks, as dollars with as many places after the
/// point as it needs, and no point where it needs none.
pub open spec fn plain_amount_text(ticks: nat) -> Seq<char> {
    if ticks % 10_000 == 0 {
        natural_text(ticks / 10_000)
    } else {
        natural_text(ticks / 10_000) + seq!['.'] + fraction_text(ticks % 10_000)
    }
}

/// An amount in ticks as dollars with as many places after the point as it needs.
pub open spec fn amount_text(ticks: int) -> Seq<char> {
    if ticks < 0 {
        seq!['-'] + plain_amount_text((-ticks) as nat)
    } else {
        plain_amount_text(ticks as nat)
    }
}

/// The last two digits of a year, with the sign of the year.
pub open spec fn short_year(year: int) -> int {
    if year >= 0 {
        year % 100
    } else {
        -((-year) % 100)
    }
}

/// A date as month, day and short year with strokes between them.
pub open spec fn date_text(date: Date) -> Seq<char> {
    natural_text(date.month as nat) + seq!['/'] + natural_text(date.day as nat) + seq!['/']
        + integer_text(short_year(date.year as int))
}

/// A month as its year, a hyphen and its number on two places.
pub open spec fn month_id_text(year: i32, month: u32) -> Seq<char> {
    integer_text(year as int) + seq!['-'] + two_places_text(month as nat)
}

/// The English name of the month `month`.
pub open spec fn month_name_text(month: u32) -> Seq<char> {
    if month == 1 {
        "January"@
    } else if month == 2 {
        "February"@
    } else if month == 3 {
        "March"@
    } else if month == 4 {
        "April"@
    } else if month == 5 {
        "May"@
    } else if month == 6 {
        "June"@
    } else if month == 7 {
        "July"@
    } else if month == 8 {
        "August"@
    } else if month == 9 {
        "September"@
    } else if month == 10 {
        "October"@
    } else if month == 11 {
        "November"@
    } else {
        "December"@
    }
}

/// A fraction as a percentage with two places after the point, rounded.
pub open spec fn percent_text(ratio: Ratio) -> Seq<char> {
    hundredths_text(div_round(ratio.numerator * 10_000, ratio.denominator as int))
}

/// The text that writes one digit.
fn digit_text(digit: u8) -> (r: &'static str)
    requires
        digit < 10,
    ensures
        r@ == seq![digit_char(digit as int)],
{
    proof {
        reveal_strlit("0");
        reveal_strlit("1");
        reveal_strlit("2");
        reveal_strlit("3");
        reveal_strlit("4");
        reveal_strlit("5");
        reveal_strlit("6");
        reveal_strlit("7");
        reveal_strlit("8");
        reveal_strlit("9");
    }
    let r = if digit == 0 {
        "0"
    } else if digit == 1 {
        "1"
    } else if digit == 2 {
        "2"
    } else if digit == 3 {
        "3"
    } else if digit == 4 {
        "4"
    } else if digit == 5 {
        "5"
    } else if digit == 6 {
        "6"
    } else if digit == 7 {
        "7"
    } else if digit == 8 {
        "8"
    } else {
        "9"
    };
    assert(r@ =~= seq![digit_char(digit as int)]);
    r
}

/// Appends a number in base ten.
pub fn push_natural(out: &mut String, n: u128)
    ensures
        final(out)@ == old(out)@ + natural_text(n as nat),
    decreases n,
{
    if n >= 10 {
        push_natural(out, n / 10);
    }
    let digit: u8 = (n % 10) as u8;
    out.append(digit_text(digit));
    assert(out@ =~= old(out)@ + natural_text(n as nat));
}

/// Appends a whole number in base ten.
pub fn push_integer(out: &mut String, n: i128)
    requires
        n > i128::MIN,
    ensures
        final(out)@ == old(out)@ + integer_text(n as int),
{
    if n < 0 {
        proof {
            reveal_strlit("-");
        }
        out.append("-");
        push_natural(out, (-n) as u128);
        assert(out@ =~= old(out)@ + integer_text(n as int));
    } else {
        push_natural(out, n as u128);
    }
}

/// Appends a number on at least two places.
pub fn push_two_places(out: &mut String, n: u128)
    ensures
        final(out)@ == old(out)@ + two_places_text(n as nat),
{
    if n < 10 {
        proof {
            reveal_strlit("0");
        }
        out.append("0");
    }
    push_natural(out, n);
    assert(out@ =~= old(out)@ + two_places_text(n as nat));
}

/// Appends a number of hundredths as a decimal number with two places.
pub fn push_hundredths(out: &mut String, hundredths: i128)
    requires
        hundredths > i128::MIN,
    ensures
        final(out)@ == old(out)@ + hundredths_text(hundredths as int),
{
    proof {
        reveal_strlit("-");
        reveal_strlit(".");
    }
    let size: u128 = if hundredths < 0 {
        out.append("-");
        (-hundredths) as u128
    } else {
        hundredths as u128
    };
    push_natural(out, size / 100);
    out.append(".");
    push_two_places(out, size % 100);
    assert(out@ =~= old(out)@ + hundredths_text(hundredths as int));
}

/// Appends an amount in ticks as dollars and cents.
pub fn push_cents(out: &mut String, ticks: i128)
    requires
        -i128::MAX + 50 <= ticks <= i128::MAX - 50,
    ensures
        final(out)@ == old(out)@ + cents_text(ticks as int),
{
    let cents: i128 = if ticks >= 0 {
        (ticks + 50) / 100
    } else {
        -((-ticks + 50) / 100)
    };
    assert(cents == round_to_cent(ticks as int) / 100);
    push_hundredths(out, cents);
}

/// Appends an amount in ticks as dollars with as many places as it needs.
pub fn push_amount(out: &mut String, ticks: i128)
    requires
        ticks > i128::MIN,
    ensures
        final(out)@ == old(out)@ + amount_text(ticks as int),
{
    proof {
        reveal_strlit("-");
        reveal_strlit(".");
    }
    let size: u128 = if ticks < 0 {
        out.append("-");
        (-ticks) as u128
    } else {
        ticks as u128
    };
    push_natural(out, size / 10_000);
    let rest: u128 = size % 10_000;
    if rest != 0 {
        out.append(".");
        out.append(digit_text((rest / 1000) as u8));
        if rest % 1000 != 0 {
            out.append(digit_text((rest / 100 % 10) as u8));
            if rest % 100 != 0 {
                out.append(digit_text((rest / 10 % 10) as u8));
                if rest % 10 != 0 {
                    out.append(digit_text((rest % 10) as u8));
                }
            }
        }
    }
    assert(out@ =~= old(out)@ + amount_text(ticks as int));
}

/// Appends a date as month, day and short year.
pub fn push_date(out: &mut String, date: &Date)
    ensures
        final(out)@ == old(out)@ + date_text(*date),
{
    proof {
        reveal_strlit("/");
    }
    push_natural(out, date.month as u128);
    out.append("/");
    push_natural(out, date.day as u128);
    out.append("/");
    let year: i128 = date.year as i128;
    let short: i128 = if year >= 0 {
        year % 100
    } else {
        -((-year) % 100)
    };
    push_integer(out, short);
    assert(out@ =~= old(out)@ + date_text(*date));
}

/// Appends the year and the number of a month.
pub fn push_month_id(out: &mut String, year: i32, month: u32)
    ensures
        final(out)@ == old(out)@ + month_id_text(year, month),
{
    proof {
        reveal_strlit("-");
    }
    push_integer(out, year as i128);
    out.append("-");
    push_two_places(out, month as u128);
    assert(out@ =~= old(out)@ + month_id_text(year, month));
}

/// The English name of a month.
pub fn month_name(month: u32) -> (r: &'static str)
    requires
        1 <= month <= 12,
    ensures
        r@ == month_name_text(month),
{
    if month == 1 {
        "January"
    } else if month == 2 {
        "February"
    } else if month == 3 {
        "March"
    } else if month == 4 {
        "April"
    } else if month == 5 {
        "May"
    } else if month == 6 {
        "June"
    } else if month == 7 {
        "July"
    } else if month == 8 {
        "August"
    } else if month == 9 {
        "September"
    } else if month == 10 {
        "October"
    } else if month == 11 {
        "November"
    } else {
        "December"
    }
}

/// Appends a fraction as a percentage with two places.
pub fn push_percent(out: &mut String, ratio: &Ratio)
    requires
        ratio.wf(),
        -1_000_000_000_000_000_000_000_000_000_000 <= ratio.numerator
            <= 1_000_000_000_000_000_000_000_000_000_000,
        ratio.denominator <= 1_000_000_000_000_000_000_000_000_000_000,
    ensures
        final(out)@ == old(out)@ + percent_text(*ratio),
{
    let scaled: i128 = ratio.numerator * 10_000;
    proof {
        crate::money::lemma_div_round_bound(
            scaled as int,
            ratio.denominator as int,
            10_000_000_000_000_000_000_000_000_000_000_000,
        );
        let d = ratio.denominator as int;
        assert(10_000_000_000_000_000_000_000_000_000_000_000 * d
            >= 10_000_000_000_000_000_000_000_000_000_000_000) by (nonlinear_arith)
            requires
                d >= 1,
        ;
    }
    let hundredths: i128 = divide_rounded(scaled, ratio.denominator);
    push_hundredths(out, hundredths);
}

/// Seconds from the start of 1970 to an instant.
pub fn unix_seconds(instant: &Timestamp) -> (r: i64)
    requires
        instant.wf(),
    ensures
        r == instant.epoch_second(),
{
    let epoch = Date { year: 1970, month: 1, day: 1 };
    assert(epoch.day_number() == 0) by {
        reveal_with_fuel(crate::calendar::days_before_month, 2);
    }
    proof {
        lemma_day_number_bounds(instant.date);
    }
    let days: i64 = instant.date.days_since(&epoch);
    days * 86_400 + instant.second_of_day as i64
}

} // verus!
