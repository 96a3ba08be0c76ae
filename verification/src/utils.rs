//! Number bases and the rendering of a number's digits in base ten.

use vstd::prelude::*;

verus! {

/// The three radixes in which a literal can be written.
#[derive(Debug, Clone, Copy, PartialEq, Eq, Structural)]
pub enum Base {
    Bin,
    Dec,
    Hex,
}

impl Base {
    /// The radix as a number: 2, 10 or 16.
    pub open spec fn radix(self) -> int {
        match self {
            Base::Bin => 2,
            Base::Dec => 10,
            Base::Hex => 16,
        }
    }

    /// The radix as a number: 2, 10 or 16.
    pub fn get_base_numeric(&self) -> (n: i64)
        ensures
            n == self.radix(),
    {
        match self {
            Base::Bin => 2,
            Base::Dec => 10,
            Base::Hex => 16,
        }
    }
}

/// The number whose decimal digits are the digits of `n` in the given base:
/// 5, which is 101 in base 2, gives 101. Each digit is taken as a number, so
/// that a hexadecimal digit above 9 carries into the next decimal place: 255,
/// which is ff in base 16, gives 15 * 10 + 15.
pub open spec fn digits_as_decimal(n: nat, base: nat) -> nat
    decreases n,
    via digits_as_decimal_decreases
{
    if n == 0 || base < 2 {
        0
    } else {
        n % base + 10 * digits_as_decimal(n / base, base)
    }
}

#[via_fn]
proof fn digits_as_decimal_decreases(n: nat, base: nat) {
    if n > 0 && base >= 2 {
        vstd::arithmetic::div_mod::lemma_div_decreases(n as int, base as int);
    }
}

/// The largest result for a number of at most `places` digits: every digit
/// is `digit`.
spec fn repeated_digit(digit: nat, places: nat) -> nat
    decreases places,
{
    if places == 0 {
        0
    } else {
        digit + 10 * repeated_digit(digit, (places - 1) as nat)
    }
}

/// Whether `n` has at most `places` digits in the given base.
spec fn has_places(n: nat, base: nat, places: nat) -> bool
    decreases places,
{
    if places == 0 {
        n == 0
    } else {
        has_places(n / base, base, (places - 1) as nat)
    }
}

/// A number of at most `places` digits gives no more than the result for
/// the largest digit in every place.
proof fn lemma_digits_as_decimal_bound(n: nat, base: nat, places: nat)
    requires
        base >= 2,
        has_places(n, base, places),
    ensures
        digits_as_decimal(n, base) <= repeated_digit((base - 1) as nat, places),
    decreases places,
{
    if places > 0 && n > 0 {
        lemma_digits_as_decimal_bound(n / base, base, (places - 1) as nat);
    }
}

/// Every number but zero gives a result that is not zero.
proof fn lemma_digits_as_decimal_positive(n: nat, base: nat)
    requires
        base >= 2,
        n > 0,
    ensures
        digits_as_decimal(n, base) > 0,
    decreases n,
{
    if n % base == 0 {
        vstd::arithmetic::div_mod::lemma_div_decreases(n as int, base as int);
        vstd::arithmetic::div_mod::lemma_fundamental_div_mod(n as int, base as int);
        assert(n / base > 0) by (nonlinear_arith)
            requires
                n == base * (n / base),
                n > 0,
        ;
        lemma_digits_as_decimal_positive(n / base, base);
    }
}

/// The digits of `n` in the given base, written as a decimal number.
fn render(n: u64, base: u64) -> (result: u64)
    requires
        base >= 2,
        digits_as_decimal(n as nat, base as nat) <= u64::MAX,
    ensures
        result == digits_as_decimal(n as nat, base as nat),
{
    let ghost whole = digits_as_decimal(n as nat, base as nat);
    let mut rest = n;
    let mut result: u64 = 0;
    let mut place: u64 = 1;
    while rest >= 1
        invariant
            base >= 2,
            whole <= u64::MAX,
            place >= 1,
            whole == result + place * digits_as_decimal(rest as nat, base as nat),
        decreases rest,
    {
        let digit = rest % base;
        let ghost upper = digits_as_decimal((rest / base) as nat, base as nat);
        assert(whole == result + place * digit + place * 10 * upper) by (nonlinear_arith)
            requires
                whole == result + place * (digit + 10 * upper),
        ;
        assert(place * digit >= 0 && place * 10 * upper >= 0) by (nonlinear_arith)
            requires
                place >= 1,
                digit >= 0,
                upper >= 0,
        ;
        result = result + place * digit;
        rest = rest / base;
        if rest >= 1 {
            proof {
                lemma_digits_as_decimal_positive(rest as nat, base as nat);
            }
            assert(place * 10 <= place * 10 * upper) by (nonlinear_arith)
                requires
                    place >= 1,
                    upper >= 1,
            ;
            place = place * 10;
        } else {
            assert(place * 10 * upper == 0) by (nonlinear_arith)
                requires
                    upper == 0,
            ;
        }
    }
    assert(place * 0 == 0);
    result
}

/// The binary digits of `dec`, written as a decimal number: 5 gives 101.
/// Only numbers of at most 20 binary digits have a result that fits.
pub fn to_bin(dec: u64) -> (result: u64)
    requires
        dec < 0x10_0000,
    ensures
        result == digits_as_decimal(dec as nat, 2),
{
    proof {
        reveal_with_fuel(has_places, 21);
        reveal_with_fuel(repeated_digit, 21);
        lemma_digits_as_decimal_bound(dec as nat, 2, 20);
    }
    render(dec, 2)
}

/// The hexadecimal digits of `dec`, each written as a number and weighted by
/// a power of ten: 0x1f gives 1 * 10 + 15.
pub fn to_hex(dec: u64) -> (result: u64)
    ensures
        result == digits_as_decimal(dec as nat, 16),
{
    proof {
        reveal_with_fuel(has_places, 17);
        reveal_with_fuel(repeated_digit, 17);
        lemma_digits_as_decimal_bound(dec as nat, 16, 16);
    }
    render(dec, 16)
}

} // verus!
