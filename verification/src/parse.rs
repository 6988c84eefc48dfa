//! Reading numbers out of the texts a form hands over.
//!
//! A text is read as its bytes. A whole number is a run of decimal digits, with a
//! sign in front where the kind of number allows one. A price is a run of digits that
//! may hold one point; it is read in ticks, rounded on its fifth decimal place.

use crate::money::MAX_PRICE;
use vstd::prelude::*;
use vstd::string::StringSliceAdditionalSpecFns;

verus! {

pub open spec fn is_digit(byte: u8) -> bool {
    48 <= byte <= 57
}

/// Whether every byte is a decimal digit.
pub open spec fn all_digits(bytes: Seq<u8>) -> bool {
    forall|i: int| 0 <= i < bytes.len() ==> is_digit(#[trigger] bytes[i])
}

/// The number that a run of digits writes in base ten; zero for the empty run.
pub open spec fn digits_value(bytes: Seq<u8>) -> int
    decreases bytes.len(),
{
    if bytes.len() == 0 {
        0
    } else {
        digits_value(bytes.drop_last()) * 10 + (bytes.last() - 48)
    }
}

/// The number that a non-empty run of digits writes, where it is at most `limit`.
pub open spec fn unsigned_value(bytes: Seq<u8>, limit: int) -> Option<int> {
    if bytes.len() >= 1 && all_digits(bytes) && digits_value(bytes) <= limit {
        Some(digits_value(bytes))
    } else {
        None
    }
}

/// The text without a plus sign in front of it.
pub open spec fn without_plus(bytes: Seq<u8>) -> Seq<u8> {
    if bytes.len() > 0 && bytes[0] == 43 {
        bytes.skip(1)
    } else {
        bytes
    }
}

/// The whole number from 0 to `limit` that a text writes: digits, with or without a
/// plus sign in front.
pub open spec fn natural_value(bytes: Seq<u8>, limit: int) -> Option<int> {
    unsigned_value(without_plus(bytes), limit)
}

/// The whole number that a text writes: digits, with or without a plus or a minus sign
/// in front, from -2147483648 to 2147483647.
pub open spec fn integer_value(bytes: Seq<u8>) -> Option<int> {
    if bytes.len() > 0 && bytes[0] == 45 {
        match unsigned_value(bytes.skip(1), 2_147_483_648) {
            Some(v) => Some(-v),
            None => None,
        }
    } else {
        unsigned_value(without_plus(bytes), 2_147_483_647)
    }
}

/// Where the first point of a text stands; the length of the text where it has none.
pub open spec fn point_place(bytes: Seq<u8>) -> int
    decreases bytes.len(),
{
    if bytes.len() == 0 || bytes[0] == 46 {
        0
    } else {
        1 + point_place(bytes.skip(1))
    }
}

/// Ten to the power `exponent`.
pub open spec fn power_of_ten(exponent: nat) -> int
    decreases exponent,
{
    if exponent == 0 {
        1
    } else {
        10 * power_of_ten((exponent - 1) as nat)
    }
}

/// What the digits after the point are worth in ticks: the first four digits, and one
/// tick more where the fifth digit is five or higher.
pub open spec fn fraction_ticks(digits: Seq<u8>) -> int {
    if digits.len() <= 4 {
        digits_value(digits) * power_of_ten((4 - digits.len()) as nat)
    } else {
        digits_value(digits.take(4)) + if digits[4] >= 53 {
            1int
        } else {
            0int
        }
    }
}

/// The digits in front of the point of a price, sign removed.
pub open spec fn whole_part(bytes: Seq<u8>) -> Seq<u8> {
    let body = without_plus(bytes);
    body.take(point_place(body))
}

/// The digits after the point of a price; empty where it has no point.
pub open spec fn fraction_part(bytes: Seq<u8>) -> Seq<u8> {
    let body = without_plus(bytes);
    if point_place(body) < body.len() {
        body.skip(point_place(body) + 1)
    } else {
        Seq::empty()
    }
}

/// The price in ticks that a text writes: digits with at most one point among them and
/// at least one digit, with or without a plus sign in front, worth at most the highest
/// price the ledger records.
pub open spec fn decimal_ticks(bytes: Seq<u8>) -> Option<int> {
    let whole = whole_part(bytes);
    let fraction = fraction_part(bytes);
    if whole.len() + fraction.len() == 0 || !all_digits(whole) || !all_digits(fraction) {
        None
    } else {
        let ticks = digits_value(whole) * 10_000 + fraction_ticks(fraction);
        if ticks > MAX_PRICE {
            None
        } else {
            Some(ticks)
        }
    }
}

/// A run of digits is worth no less than any run it starts with.
pub proof fn lemma_digits_value_grows(bytes: Seq<u8>, n: int)
    requires
        all_digits(bytes),
        0 <= n <= bytes.len(),
    ensures
        0 <= digits_value(bytes.take(n)) <= digits_value(bytes),
    decreases bytes.len() - n,
{
    if n == bytes.len() {
        assert(bytes.take(n) =~= bytes);
        lemma_digits_value_nonnegative(bytes);
    } else {
        lemma_digits_value_grows(bytes, n + 1);
        assert(bytes.take(n + 1).drop_last() =~= bytes.take(n));
        assert(is_digit(bytes.take(n + 1).last()));
        assert forall|i: int| 0 <= i < n implies is_digit(#[trigger] bytes.take(n)[i]) by {}
        lemma_digits_value_nonnegative(bytes.take(n));
    }
}

pub proof fn lemma_digits_value_nonnegative(bytes: Seq<u8>)
    requires
        all_digits(bytes),
    ensures
        digits_value(bytes) >= 0,
    decreases bytes.len(),
{
    if bytes.len() > 0 {
        assert(is_digit(bytes.last()));
        assert forall|i: int| 0 <= i < bytes.len() - 1 implies is_digit(
            #[trigger] bytes.drop_last()[i],
        ) by {}
        lemma_digits_value_nonnegative(bytes.drop_last());
    }
}

/// In a text whose first `n` bytes are no point, the first point stands at `n` where
/// the text ends there or has a point there.
pub proof fn lemma_point_place(bytes: Seq<u8>, n: int)
    requires
        0 <= n <= bytes.len(),
        forall|i: int| 0 <= i < n ==> #[trigger] bytes[i] != 46,
        n == bytes.len() || bytes[n] == 46,
    ensures
        point_place(bytes) == n,
    decreases n,
{
    if n > 0 {
        let rest = bytes.skip(1);
        assert forall|i: int| 0 <= i < n - 1 implies #[trigger] rest[i] != 46 by {
            assert(rest[i] == bytes[i + 1]);
        }
        lemma_point_place(rest, n - 1);
    }
}

/// Reads the digits of `bytes` from `from` to `to` as a number of at most `limit`.
fn read_digits(bytes: &[u8], from: usize, to: usize, limit: u64) -> (r: Option<u64>)
    requires
        from <= to <= bytes.len(),
        limit <= 1_000_000_000_000_000,
    ensures
        r matches Some(v) ==> all_digits(bytes@.subrange(from as int, to as int)) && v
            == digits_value(bytes@.subrange(from as int, to as int)) && v <= limit,
        r is None ==> !all_digits(bytes@.subrange(from as int, to as int)) || digits_value(
            bytes@.subrange(from as int, to as int),
        ) > limit,
{
    let ghost run = bytes@.subrange(from as int, to as int);
    let mut value: u64 = 0;
    let mut i: usize = from;
    while i < to
        invariant
            from <= i <= to <= bytes.len(),
            run == bytes@.subrange(from as int, to as int),
            limit <= 1_000_000_000_000_000,
            all_digits(run.take(i - from)),
            value == digits_value(run.take(i - from)),
            value <= limit,
        decreases to - i,
    {
        let byte: u8 = bytes[i];
        assert(run[i - from] == byte);
        if byte < 48 || byte > 57 {
            return None;
        }
        proof {
            assert(run.take(i - from + 1).drop_last() =~= run.take(i - from));
            assert(run.take(i - from + 1).last() == byte);
            assert forall|j: int| 0 <= j < i - from + 1 implies is_digit(
                #[trigger] run.take(i - from + 1)[j],
            ) by {
                if j < i - from {
                    assert(run.take(i - from + 1)[j] == run.take(i - from)[j]);
                }
            }
        }
        value = value * 10 + (byte - 48) as u64;
        if value > limit {
            proof {
                if all_digits(run) {
                    lemma_digits_value_grows(run, i - from + 1);
                }
            }
            return None;
        }
        i += 1;
    }
    assert(run.take(to - from) =~= run);
    Some(value)
}

/// Reads a whole number from 0 to `limit`, written with or without a plus sign.
pub fn parse_natural(bytes: &[u8], limit: u64) -> (r: Option<u64>)
    requires
        limit <= 1_000_000_000_000_000,
    ensures
        r matches Some(v) ==> natural_value(bytes@, limit as int) == Some(v as int) && v <= limit,
        r is None ==> natural_value(bytes@, limit as int) is None,
{
    let n: usize = bytes.len();
    let from: usize = if n > 0 && bytes[0] == 43 {
        1
    } else {
        0
    };
    assert(bytes@.subrange(from as int, n as int) =~= without_plus(bytes@));
    if from == n {
        return None;
    }
    read_digits(bytes, from, n, limit)
}

/// Reads a quantity of contracts: a whole number from 0 to 65535.
pub fn parse_quantity(text: &str) -> (r: Option<u16>)
    ensures
        r matches Some(v) ==> natural_value(text.spec_bytes(), 65_535) == Some(v as int),
        r is None ==> natural_value(text.spec_bytes(), 65_535) is None,
{
    match parse_natural(text.as_bytes(), 65_535) {
        Some(v) => Some(v as u16),
        None => None,
    }
}

/// Reads the number of a month or of a day: a whole number from 0 to 4294967295.
pub fn parse_field(text: &str) -> (r: Option<u32>)
    ensures
        r matches Some(v) ==> natural_value(text.spec_bytes(), 4_294_967_295) == Some(v as int),
        r is None ==> natural_value(text.spec_bytes(), 4_294_967_295) is None,
{
    match parse_natural(text.as_bytes(), 4_294_967_295) {
        Some(v) => Some(v as u32),
        None => None,
    }
}

/// Reads a year: a whole number with or without a sign.
pub fn parse_year(text: &str) -> (r: Option<i32>)
    ensures
        r matches Some(v) ==> integer_value(text.spec_bytes()) == Some(v as int),
        r is None ==> integer_value(text.spec_bytes()) is None,
{
    let bytes = text.as_bytes();
    let n: usize = bytes.len();
    if n > 0 && bytes[0] == 45 {
        assert(bytes@.subrange(1, n as int) =~= bytes@.skip(1));
        if n == 1 {
            return None;
        }
        match read_digits(bytes, 1, n, 2_147_483_648) {
            Some(v) => {
                let size: i64 = v as i64;
                Some((-size) as i32)
            },
            None => None,
        }
    } else {
        match parse_natural(bytes, 2_147_483_647) {
            Some(v) => Some(v as i32),
            None => None,
        }
    }
}

/// Finds the first point of `bytes` at or after `from`.
fn find_point(bytes: &[u8], from: usize) -> (point: usize)
    requires
        from <= bytes.len(),
    ensures
        from <= point <= bytes.len(),
        point - from == point_place(bytes@.subrange(from as int, bytes.len() as int)),
        point < bytes.len() ==> bytes@[point as int] == 46,
{
    let n: usize = bytes.len();
    let ghost body = bytes@.subrange(from as int, n as int);
    let mut point: usize = from;
    while point < n && bytes[point] != 46
        invariant
            from <= point <= n == bytes.len(),
            body == bytes@.subrange(from as int, n as int),
            forall|i: int| 0 <= i < point - from ==> #[trigger] body[i] != 46,
        decreases n - point,
    {
        point += 1;
    }
    proof {
        lemma_point_place(body, point - from);
    }
    point
}

/// Reads the digits of `bytes` from `from` on as the part of a price after its point.
fn read_fraction(bytes: &[u8], from: usize) -> (r: Option<u64>)
    requires
        from <= bytes.len(),
    ensures
        r matches Some(v) ==> all_digits(bytes@.subrange(from as int, bytes.len() as int)) && v
            == fraction_ticks(bytes@.subrange(from as int, bytes.len() as int)) && v <= 10_000,
        r is None ==> !all_digits(bytes@.subrange(from as int, bytes.len() as int)),
{
    let n: usize = bytes.len();
    let ghost fraction = bytes@.subrange(from as int, n as int);
    let kept: usize = if n - from < 4 {
        n - from
    } else {
        4
    };
    let ghost head = bytes@.subrange(from as int, from + kept);
    assert(head =~= fraction.take(kept as int));
    proof {
        if all_digits(fraction) {
            assert forall|i: int| 0 <= i < head.len() implies is_digit(#[trigger] head[i]) by {
                assert(head[i] == fraction[i]);
            }
            lemma_digits_value_below_power(head);
            reveal_with_fuel(power_of_ten, 5);
        }
    }
    let head_value: u64 = match read_digits(bytes, from, from + kept, 9_999) {
        Some(v) => v,
        None => {
            return None;
        },
    };
    let mut i: usize = from + kept;
    while i < n
        invariant
            from + kept <= i <= n == bytes.len(),
            fraction == bytes@.subrange(from as int, n as int),
            forall|j: int| kept <= j < i - from ==> is_digit(#[trigger] fraction[j]),
        decreases n - i,
    {
        let byte: u8 = bytes[i];
        assert(fraction[i - from] == byte);
        if byte < 48 || byte > 57 {
            return None;
        }
        i += 1;
    }
    proof {
        assert forall|j: int| 0 <= j < fraction.len() implies is_digit(#[trigger] fraction[j]) by {
            if j < kept {
                assert(head[j] == fraction[j]);
            }
        }
        lemma_fraction_ticks_bounds(fraction);
        reveal_with_fuel(power_of_ten, 5);
        if n - from > 4 {
            assert(fraction[4] == bytes@[from + 4]);
        } else {
            assert(head =~= fraction);
        }
    }
    if n - from > 4 {
        if bytes[from + 4] >= 53 {
            Some(head_value + 1)
        } else {
            Some(head_value)
        }
    } else if kept == 0 {
        Some(head_value * 10_000)
    } else if kept == 1 {
        Some(head_value * 1_000)
    } else if kept == 2 {
        Some(head_value * 100)
    } else if kept == 3 {
        Some(head_value * 10)
    } else {
        Some(head_value)
    }
}

/// Reads a price and returns it in ticks.
pub fn parse_decimal(text: &str) -> (r: Option<i64>)
    ensures
        r matches Some(v) ==> decimal_ticks(text.spec_bytes()) == Some(v as int) && 0 <= v
            <= MAX_PRICE,
        r is None ==> decimal_ticks(text.spec_bytes()) is None,
{
    let bytes = text.as_bytes();
    let n: usize = bytes.len();
    let from: usize = if n > 0 && bytes[0] == 43 {
        1
    } else {
        0
    };
    let ghost body = without_plus(bytes@);
    assert(bytes@.subrange(from as int, n as int) =~= body);
    let point: usize = find_point(bytes, from);
    let fraction_from: usize = if point < n {
        point + 1
    } else {
        n
    };
    let ghost whole = whole_part(bytes@);
    let ghost fraction = fraction_part(bytes@);
    assert(bytes@.subrange(from as int, point as int) =~= whole);
    assert(bytes@.subrange(fraction_from as int, n as int) =~= fraction);
    if (point - from) + (n - fraction_from) == 0 {
        return None;
    }
    let fraction_value: u64 = match read_fraction(bytes, fraction_from) {
        Some(v) => v,
        None => {
            return None;
        },
    };
    let whole_value: u64 = match read_digits(bytes, from, point, 100_000) {
        Some(v) => v,
        None => {
            return None;
        },
    };
    let ticks: u64 = whole_value * 10_000 + fraction_value;
    if ticks > MAX_PRICE as u64 {
        return None;
    }
    Some(ticks as i64)
}

/// What the digits after the point are worth is at most a dollar.
pub proof fn lemma_fraction_ticks_bounds(digits: Seq<u8>)
    requires
        all_digits(digits),
    ensures
        0 <= fraction_ticks(digits) <= 10_000,
{
    reveal_with_fuel(power_of_ten, 5);
    if digits.len() <= 4 {
        lemma_digits_value_below_power(digits);
        let v = digits_value(digits);
        let p = power_of_ten(digits.len());
        let q = power_of_ten((4 - digits.len()) as nat);
        assert(p * q == 10_000) by {
            if digits.len() == 0 {
                assert(p == 1 && q == 10_000);
                assert(p * q == 10_000) by (nonlinear_arith)
                    requires
                        p == 1,
                        q == 10_000,
                ;
            } else if digits.len() == 1 {
                assert(p == 10 && q == 1_000);
                assert(p * q == 10_000) by (nonlinear_arith)
                    requires
                        p == 10,
                        q == 1_000,
                ;
            } else if digits.len() == 2 {
                assert(p == 100 && q == 100);
                assert(p * q == 10_000) by (nonlinear_arith)
                    requires
                        p == 100,
                        q == 100,
                ;
            } else if digits.len() == 3 {
                assert(p == 1_000 && q == 10);
                assert(p * q == 10_000) by (nonlinear_arith)
                    requires
                        p == 1_000,
                        q == 10,
                ;
            } else {
                assert(p == 10_000 && q == 1);
                assert(p * q == 10_000) by (nonlinear_arith)
                    requires
                        p == 10_000,
                        q == 1,
                ;
            }
        }
        assert(0 <= v * q <= p * q) by (nonlinear_arith)
            requires
                0 <= v < p,
                q >= 1,
        ;
    } else {
        let head = digits.take(4);
        assert forall|i: int| 0 <= i < head.len() implies is_digit(#[trigger] head[i]) by {
            assert(head[i] == digits[i]);
        }
        lemma_digits_value_below_power(head);
    }
}

/// A run of digits is worth less than ten to the power of its length.
pub proof fn lemma_digits_value_below_power(digits: Seq<u8>)
    requires
        all_digits(digits),
    ensures
        0 <= digits_value(digits) < power_of_ten(digits.len()),
    decreases digits.len(),
{
    if digits.len() > 0 {
        let init = digits.drop_last();
        assert(is_digit(digits.last()));
        assert forall|i: int| 0 <= i < init.len() implies is_digit(#[trigger] init[i]) by {}
        lemma_digits_value_below_power(init);
    }
}

} // verus!
