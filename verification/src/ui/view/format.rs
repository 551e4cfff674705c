//! Text formatting.

use vstd::prelude::*;

use crate::text::{decimal, digits_value, lemma_decimal, to_decimal};

verus! {

/// Number with at least two digits.
pub open spec fn two_digits(number: int) -> Seq<char> {
    if number < 10 {
        seq!['0'] + decimal(number)
    } else {
        decimal(number)
    }
}

/// Write a number with at least two digits.
fn push_two_digits(text: &mut String, number: u64)
    ensures
        final(text)@ == old(text)@ + two_digits(number as int),
{
    let ghost before = text@;
    if number < 10 {
        text.push('0');
    }
    text.append(to_decimal(number).as_str());
    proof {
        assert(text@ =~= before + two_digits(number as int));
    }
}

/// Travel time in hours and minutes, rounded to the closest minute.
pub open spec fn duration_text(seconds: int) -> Seq<char> {
    two_digits(seconds / 3600) + seq![':'] + two_digits((seconds % 3600 + 30) / 60)
}

/// Write the travel time in hours and minutes.
pub fn format_duration(seconds: u64) -> (text: String)
    ensures
        text@ == duration_text(seconds as int),
{
    let hours: u64 = seconds / 3600;
    let minutes: u64 = (seconds % 3600 + 30) / 60;
    let mut text = String::new();
    push_two_digits(&mut text, hours);
    text.push(':');
    push_two_digits(&mut text, minutes);
    proof {
        assert(text@ =~= duration_text(seconds as int));
    }
    text
}

/// Size unit.
#[derive(Copy, Clone, Debug, PartialEq, Eq, Structural)]
pub enum SizeUnit {
    Byte,
    Kilobyte,
    Megabyte,
    Gigabyte,
}

/// Unit of a byte size.
///
/// Kilobytes and megabytes end at 999.5 units, so the number in front of the
/// unit is at most 999 after rounding.
pub open spec fn unit_of(size: int) -> SizeUnit {
    if size < 1_000 {
        SizeUnit::Byte
    } else if size < 1_023_488 {
        SizeUnit::Kilobyte
    } else if size < 1_048_051_712 {
        SizeUnit::Megabyte
    } else {
        SizeUnit::Gigabyte
    }
}

impl SizeUnit {
    /// Symbol of the unit.
    pub open spec fn symbol(self) -> Seq<char> {
        match self {
            SizeUnit::Byte => "B"@,
            SizeUnit::Kilobyte => "KB"@,
            SizeUnit::Megabyte => "MB"@,
            SizeUnit::Gigabyte => "GB"@,
        }
    }

    /// Number of bytes in the unit.
    pub open spec fn bytes(self) -> int {
        match self {
            SizeUnit::Byte => 1,
            SizeUnit::Kilobyte => 0x400,
            SizeUnit::Megabyte => 0x10_0000,
            SizeUnit::Gigabyte => 0x4000_0000,
        }
    }
}

/// Closest integer to a fraction, or the even one if there are two.
pub open spec fn rounded(dividend: int, divisor: int) -> int {
    let quotient = dividend / divisor;
    let rest = 2 * (dividend % divisor);
    if rest > divisor || rest == divisor && quotient % 2 == 1 {
        quotient + 1
    } else {
        quotient
    }
}

/// Value of the lowest bit which is retained when a number is rounded to 53
/// significant bits.
pub open spec fn lowest_bit(size: int, bit: int) -> int
    decreases size - bit,
{
    if bit <= 0 || size / bit < 0x20_0000_0000_0000 || size < 2 * bit {
        bit
    } else {
        lowest_bit(size, 2 * bit)
    }
}

/// Size with 53 significant bits.
pub open spec fn significant(size: int) -> int {
    rounded(size, lowest_bit(size, 1)) * lowest_bit(size, 1)
}

/// Number of decimal places which are required for three digits after rounding.
pub open spec fn decimal_places(size: int, unit: int) -> int {
    if rounded(100 * size, unit) < 1_000 {
        2
    } else if rounded(10 * size, unit) < 1_000 {
        1
    } else {
        0
    }
}

/// Fraction with some decimal places.
pub open spec fn fraction_text(dividend: int, divisor: int, places: int) -> Seq<char> {
    if places == 2 {
        let number = rounded(100 * dividend, divisor);
        decimal(number / 100) + seq!['.'] + two_digits(number % 100)
    } else if places == 1 {
        let number = rounded(10 * dividend, divisor);
        decimal(number / 10) + seq!['.'] + decimal(number % 10)
    } else {
        decimal(rounded(dividend, divisor))
    }
}

/// Byte size as a human-readable size.
pub open spec fn size_text(size: int) -> Seq<char> {
    let unit = unit_of(size);
    let size = significant(size);
    fraction_text(size, unit.bytes(), decimal_places(size, unit.bytes())) + seq![' ']
        + unit.symbol()
}

/// Round a fraction to the closest integer.
fn round(dividend: u128, divisor: u128) -> (number: u128)
    requires
        0 < divisor <= 0x1_0000_0000_0000_0000,
        dividend <= 0x100_0000_0000_0000_0000,
    ensures
        number == rounded(dividend as int, divisor as int),
{
    proof {
        vstd::arithmetic::div_mod::lemma_mod_bound(dividend as int, divisor as int);
        vstd::arithmetic::div_mod::lemma_div_is_ordered_by_denominator(
            dividend as int,
            1,
            divisor as int,
        );
    }
    let quotient: u128 = dividend / divisor;
    let rest: u128 = 2 * (dividend % divisor);
    if rest > divisor || rest == divisor && quotient % 2 == 1 {
        quotient + 1
    } else {
        quotient
    }
}

/// Round a size to 53 significant bits.
fn round_significant(size: u64) -> (rounded_size: u128)
    ensures
        rounded_size == significant(size as int),
        rounded_size <= 0x1_0000_0000_0000_0000,
        size < 0x20_0000_0000_0000 ==> rounded_size == size,
{
    let size: u128 = size as u128;
    let mut bit: u128 = 1;
    while size / bit >= 0x20_0000_0000_0000
        invariant
            size <= u64::MAX,
            lowest_bit(size as int, bit as int) == lowest_bit(size as int, 1),
            bit == 1 || bit == 2 || bit == 4 || bit == 8 || bit == 0x10 || bit == 0x20 || bit
                == 0x40 || bit == 0x80 || bit == 0x100 || bit == 0x200 || bit == 0x400 || bit
                == 0x800,
        decreases size - bit,
    {
        assert(size > 2 * bit && bit < 0x800) by (nonlinear_arith)
            requires
                size / bit >= 0x20_0000_0000_0000,
                size <= u64::MAX,
                0 < bit <= 0x800,
        ;
        bit = bit * 2;
    }
    let number: u128 = round(size, bit);
    proof {
        assert(lowest_bit(size as int, 1) == bit);
        lemma_significant(size as int, bit as int);
    }
    number * bit
}

/// Rounding to a power of two does not exceed the next bigger one.
proof fn lemma_significant(size: int, bit: int)
    requires
        0 <= size <= u64::MAX,
        bit == 1 || bit == 2 || bit == 4 || bit == 8 || bit == 0x10 || bit == 0x20 || bit == 0x40
            || bit == 0x80 || bit == 0x100 || bit == 0x200 || bit == 0x400 || bit == 0x800,
    ensures
        0 <= rounded(size, bit) * bit <= 0x1_0000_0000_0000_0000,
        bit == 1 ==> rounded(size, bit) * bit == size,
{
    if bit == 1 {
    } else if bit == 2 {
    } else if bit == 4 {
    } else if bit == 8 {
    } else if bit == 0x10 {
    } else if bit == 0x20 {
    } else if bit == 0x40 {
    } else if bit == 0x80 {
    } else if bit == 0x100 {
    } else if bit == 0x200 {
    } else if bit == 0x400 {
    } else {
    }
}

/// Write a fraction with three digits.
fn format_fraction(dividend: u128, divisor: u128) -> (text: String)
    requires
        0 < divisor <= 0x1_0000_0000_0000_0000,
        dividend <= 0x1_0000_0000_0000_0000,
        divisor == 1 ==> dividend <= 0xffff_ffff,
    ensures
        text@ == fraction_text(
            dividend as int,
            divisor as int,
            decimal_places(dividend as int, divisor as int),
        ),
{
    let hundredths: u128 = round(100 * dividend, divisor);
    let tenths: u128 = round(10 * dividend, divisor);
    if hundredths < 1_000 {
        let mut text = to_decimal((hundredths / 100) as u64);
        text.push('.');
        push_two_digits(&mut text, (hundredths % 100) as u64);
        text
    } else if tenths < 1_000 {
        let mut text = to_decimal((tenths / 10) as u64);
        text.push('.');
        text.append(to_decimal((tenths % 10) as u64).as_str());
        proof {
            assert(text@ =~= fraction_text(dividend as int, divisor as int, 1));
        }
        text
    } else {
        let number: u128 = round(dividend, divisor);
        proof {
            if divisor > 1 {
                assert(dividend <= 0x8000_0000_0000_0000 * divisor) by (nonlinear_arith)
                    requires
                        dividend <= 0x1_0000_0000_0000_0000,
                        divisor >= 2,
                ;
                lemma_rounded_bound(dividend as int, divisor as int, 0x8000_0000_0000_0000);
            } else {
                lemma_rounded_bound(dividend as int, divisor as int, 0xffff_ffff);
            }
        }
        to_decimal(number as u64)
    }
}

/// Rounding does not exceed an integer which is not smaller than the fraction.
proof fn lemma_rounded_bound(dividend: int, divisor: int, bound: int)
    requires
        0 < divisor,
        0 <= dividend <= bound * divisor,
    ensures
        0 <= rounded(dividend, divisor) <= bound,
{
    let quotient = dividend / divisor;
    let rest = dividend % divisor;
    vstd::arithmetic::div_mod::lemma_fundamental_div_mod(dividend, divisor);
    vstd::arithmetic::div_mod::lemma_mod_bound(dividend, divisor);
    assert(0 <= quotient <= bound && (quotient == bound ==> rest == 0)) by (nonlinear_arith)
        requires
            0 < divisor,
            0 <= dividend <= bound * divisor,
            dividend == divisor * quotient + rest,
            0 <= rest < divisor,
    ;
}

/// Format a byte size into a 3 digit human-readable size.
pub fn format_size(size: u64) -> (text: String)
    ensures
        text@ == size_text(size as int),
{
    // Define bounds to ensure maximum value is 999 after rounding.
    let (unit, divisor): (&str, u128) = if size < 1_000 {
        ("B", 1)
    } else if size < 1_023_488 {
        ("KB", 0x400)
    } else if size < 1_048_051_712 {
        ("MB", 0x10_0000)
    } else {
        ("GB", 0x4000_0000)
    };

    let mut text = format_fraction(round_significant(size), divisor);
    text.push(' ');
    text.append(unit);
    proof {
        assert(text@ =~= size_text(size as int));
    }
    text
}

/// Number of digits in a text.
pub open spec fn digit_count(text: Seq<char>) -> nat
    decreases text.len(),
{
    if text.len() == 0 {
        0
    } else {
        digit_count(text.drop_last()) + (if '0' <= text.last() <= '9' {
            1nat
        } else {
            0
        })
    }
}

/// Sizes below a thousand gigabytes are written as a number with three digits,
/// which is at most 999, followed by its unit.
pub proof fn law_size_has_three_digits(size: int)
    requires
        0 <= size < 1_073_204_953_088,
    ensures
        ({
            let unit = unit_of(size).bytes();
            let number = fraction_text(size, unit, decimal_places(size, unit));
            &&& size_text(size) == number + seq![' '] + unit_of(size).symbol()
            &&& digit_count(number) == 3
            &&& rounded(size, unit) <= 999
        }),
{
    let unit = unit_of(size).bytes();
    let hundredths = rounded(100 * size, unit);
    let tenths = rounded(10 * size, unit);
    let whole = rounded(size, unit);
    assert(significant(size) == size) by {
        assert(lowest_bit(size, 1) == 1);
        lemma_significant(size, 1);
    }
    lemma_rounds_below(size, unit, 1_000);
    let places = decimal_places(size, unit);
    let number = fraction_text(size, unit, places);
    reveal_with_fuel(decimal, 3);
    if places == 2 {
        lemma_rounds_above(100 * size, unit, 0);
        lemma_fraction_digits(hundredths / 100, two_digits(hundredths % 100));
        lemma_decimal_digits(hundredths % 100);
        if hundredths % 100 < 10 {
            lemma_digit_count_concat(seq!['0'], decimal(hundredths % 100));
            assert(digit_count(seq!['0']) == 1) by {
                reveal_with_fuel(digit_count, 2);
            }
        }
        assert(decimal(hundredths / 100).len() == 1);
    } else if places == 1 {
        if 200 * size < 1_999 * unit {
            lemma_rounds_below(100 * size, unit, 1_000);
        }
        lemma_rounds_above(10 * size, unit, 100);
        lemma_fraction_digits(tenths / 10, decimal(tenths % 10));
        lemma_decimal_digits(tenths % 10);
        assert(decimal(tenths / 10).len() == 2);
    } else {
        if 20 * size < 1_999 * unit {
            lemma_rounds_below(10 * size, unit, 1_000);
        }
        lemma_rounds_above(size, unit, 100);
        lemma_decimal_digits(whole);
        assert(decimal(whole).len() == 3);
    }
}

/// All characters of a decimal number are digits.
proof fn lemma_decimal_digits(number: int)
    requires
        0 <= number,
    ensures
        digit_count(decimal(number)) == decimal(number).len(),
    decreases number,
{
    if number >= 10 {
        lemma_decimal_digits(number / 10);
        assert(decimal(number).drop_last() =~= decimal(number / 10));
    } else {
        reveal_with_fuel(digit_count, 2);
    }
}

proof fn lemma_digit_count_concat(a: Seq<char>, b: Seq<char>)
    ensures
        digit_count(a + b) == digit_count(a) + digit_count(b),
    decreases b.len(),
{
    if b.len() == 0 {
        assert(a + b =~= a);
    } else {
        lemma_digit_count_concat(a, b.drop_last());
        assert((a + b).drop_last() =~= a + b.drop_last());
    }
}

proof fn lemma_fraction_digits(whole: int, places: Seq<char>)
    requires
        0 <= whole,
    ensures
        digit_count(decimal(whole) + seq!['.'] + places) == decimal(whole).len() + digit_count(
            places,
        ),
{
    lemma_decimal_digits(whole);
    lemma_digit_count_concat(decimal(whole), seq!['.']);
    lemma_digit_count_concat(decimal(whole) + seq!['.'], places);
    reveal_with_fuel(digit_count, 2);
}

proof fn lemma_rounds_below(dividend: int, divisor: int, bound: int)
    requires
        0 < divisor,
        0 <= dividend,
        2 * dividend < (2 * bound - 1) * divisor,
    ensures
        rounded(dividend, divisor) < bound,
{
    let quotient = dividend / divisor;
    let rest = dividend % divisor;
    vstd::arithmetic::div_mod::lemma_fundamental_div_mod(dividend, divisor);
    vstd::arithmetic::div_mod::lemma_mod_bound(dividend, divisor);
    assert(quotient < bound && (quotient == bound - 1 ==> 2 * rest < divisor)) by (nonlinear_arith)
        requires
            0 < divisor,
            2 * dividend < (2 * bound - 1) * divisor,
            dividend == divisor * quotient + rest,
            0 <= rest < divisor,
    ;
}

proof fn lemma_rounds_above(dividend: int, divisor: int, bound: int)
    requires
        0 < divisor,
        (2 * bound - 1) * divisor < 2 * dividend,
    ensures
        bound <= rounded(dividend, divisor),
{
    let quotient = dividend / divisor;
    let rest = dividend % divisor;
    vstd::arithmetic::div_mod::lemma_fundamental_div_mod(dividend, divisor);
    vstd::arithmetic::div_mod::lemma_mod_bound(dividend, divisor);
    assert(quotient >= bound - 1 && (quotient == bound - 1 ==> 2 * rest > divisor))
        by (nonlinear_arith)
        requires
            0 < divisor,
            (2 * bound - 1) * divisor < 2 * dividend,
            dividend == divisor * quotient + rest,
            0 <= rest < divisor,
    ;
}

/// Rounding never moves a number by more than half a step.
pub proof fn law_rounded_is_closest(dividend: int, divisor: int)
    requires
        0 < divisor,
        0 <= dividend,
    ensures
        -divisor <= 2 * (rounded(dividend, divisor) * divisor - dividend) <= divisor,
{
    let quotient = dividend / divisor;
    let rest = dividend % divisor;
    vstd::arithmetic::div_mod::lemma_fundamental_div_mod(dividend, divisor);
    vstd::arithmetic::div_mod::lemma_mod_bound(dividend, divisor);
    assert(quotient * divisor == dividend - rest && (quotient + 1) * divisor == dividend - rest
        + divisor) by (nonlinear_arith)
        requires
            dividend == divisor * quotient + rest,
    ;
}

/// Numbers with at least two digits are the number itself, after a zero if there
/// is just one digit.
proof fn lemma_two_digits(number: int)
    requires
        0 <= number,
    ensures
        digits_value(two_digits(number)) == number,
        two_digits(number).len() >= 2,
        number < 100 ==> two_digits(number).len() == 2,
{
    lemma_decimal(number);
    if number < 10 {
        let digits = two_digits(number);
        assert(digits.drop_last() =~= seq!['0']);
        assert(seq!['0'].drop_last() =~= Seq::<char>::empty());
        reveal_with_fuel(digits_value, 3);
    } else {
        reveal_with_fuel(decimal, 3);
    }
}

/// Durations have hours and minutes with at least two digits, and differ from the
/// exact time by at most half a minute.
pub proof fn law_duration_is_rounded(seconds: int)
    requires
        0 <= seconds,
    ensures
        exists|hours: Seq<char>, minutes: Seq<char>|
            {
                &&& duration_text(seconds) == #[trigger] (hours + seq![':'] + minutes)
                &&& hours.len() >= 2 && minutes.len() == 2
                &&& digits_value(hours) == seconds / 3600
                &&& -30 <= seconds - 60 * (60 * digits_value(hours) + digits_value(minutes)) <= 30
            },
{
    let hours = two_digits(seconds / 3600);
    let minutes = two_digits((seconds % 3600 + 30) / 60);
    lemma_two_digits(seconds / 3600);
    lemma_two_digits((seconds % 3600 + 30) / 60);
    assert(duration_text(seconds) == hours + seq![':'] + minutes);
}

/// Numbers right between two steps are rounded to the even one.
pub proof fn law_ties_are_rounded_to_even(dividend: int, divisor: int)
    requires
        0 < divisor,
        0 <= dividend,
        2 * (dividend % divisor) == divisor,
    ensures
        rounded(dividend, divisor) % 2 == 0,
{
}

/// Sizes have at most 53 significant bits, and none of them is lost without need.
pub proof fn law_sizes_have_significant_bits(size: int)
    requires
        0 <= size,
    ensures
        ({
            let bit = lowest_bit(size, 1);
            &&& bit > 0
            &&& size / bit < 0x20_0000_0000_0000
            &&& bit == 1 || size / bit >= 0x10_0000_0000_0000
        }),
        size < 0x20_0000_0000_0000 ==> significant(size) == size,
{
    lemma_lowest_bit(size, 1);
    if size < 0x20_0000_0000_0000 {
        assert(size / 1 == size && size % 1 == 0);
        assert(lowest_bit(size, 1) == 1);
        assert(rounded(size, 1) == size);
    }
}

proof fn lemma_lowest_bit(size: int, bit: int)
    requires
        0 <= size,
        0 < bit,
        bit == 1 || size / bit >= 0x10_0000_0000_0000,
    ensures
        ({
            let lowest = lowest_bit(size, bit);
            &&& lowest > 0
            &&& size / lowest < 0x20_0000_0000_0000
            &&& lowest == 1 || size / lowest >= 0x10_0000_0000_0000
        }),
    decreases size - bit,
{
    if size / bit >= 0x20_0000_0000_0000 {
        vstd::arithmetic::div_mod::lemma_fundamental_div_mod(size, bit);
        vstd::arithmetic::div_mod::lemma_mod_bound(size, bit);
        let quotient = size / bit;
        assert(size >= 2 * bit) by (nonlinear_arith)
            requires
                size == bit * quotient + size % bit,
                size % bit >= 0,
                quotient >= 2,
                bit > 0,
        ;
        vstd::arithmetic::div_mod::lemma_div_denominator(size, bit, 2);
        assert(size / (2 * bit) == quotient / 2) by {
            assert(bit * 2 == 2 * bit);
        }
        lemma_lowest_bit(size, 2 * bit);
    }
}

} // verus!
