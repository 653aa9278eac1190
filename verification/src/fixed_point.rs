//! Scaled-integer arithmetic: every value `v` stands for the real number
//! `v / SCALING_FACTOR`.
//!
//! Products and quotients are formed in 128 bits and rounded toward zero once,
//! at the final division. A result that does not fit in 64 bits is reported as
//! a fault; nothing ever wraps around.

use vstd::prelude::*;
use vstd::arithmetic::div_mod::{lemma_fundamental_div_mod, lemma_fundamental_div_mod_converse};
use vstd::arithmetic::power::{lemma0_pow, lemma_pow_adds, lemma_pow_multiplies, pow};

verus! {

/// Number of fractional units in one whole unit.
pub const SCALING_FACTOR: i64 = 10000;

/// Why a fixed-point computation could not produce a value.
#[derive(Clone, Copy, Debug, PartialEq, Eq)]
pub enum ArithmeticFault {
    /// A result lies outside the range of `i64`.
    Overflow,
    /// A divisor was zero.
    DivisionByZero,
}

/// The quotient of `a` by `b` rounded toward zero, for `b != 0`: the quotient
/// of the magnitudes, carrying the sign of `a * b`.
pub open spec fn truncating_div(a: int, b: int) -> int {
    if a >= 0 && b > 0 {
        a / b
    } else if a >= 0 {
        -(a / (-b))
    } else if b > 0 {
        -((-a) / b)
    } else {
        (-a) / (-b)
    }
}

/// `v` as a 64-bit value, or the overflow fault when it does not fit.
pub open spec fn narrow(v: int) -> Result<i64, ArithmeticFault> {
    if i64::MIN <= v <= i64::MAX {
        Ok(v as i64)
    } else {
        Err(ArithmeticFault::Overflow)
    }
}

/// The scaled product: `a * b / SCALING_FACTOR`, rounded toward zero.
pub open spec fn scaled_product(a: i64, b: i64) -> Result<i64, ArithmeticFault> {
    narrow(truncating_div(a * b, SCALING_FACTOR as int))
}

/// The scaled quotient: `a * SCALING_FACTOR / b`, rounded toward zero.
pub open spec fn scaled_quotient(a: i64, b: i64) -> Result<i64, ArithmeticFault> {
    if b == 0 {
        Err(ArithmeticFault::DivisionByZero)
    } else {
        narrow(truncating_div(a * SCALING_FACTOR, b as int))
    }
}

/// The plain quotient `a / b`, rounded toward zero: a scaled value divided by
/// a count.
pub open spec fn plain_quotient(a: i64, b: i64) -> Result<i64, ArithmeticFault> {
    if b == 0 {
        Err(ArithmeticFault::DivisionByZero)
    } else {
        narrow(truncating_div(a as int, b as int))
    }
}

/// The absolute value of `x`, which overflows only for `i64::MIN`.
pub open spec fn magnitude(x: i64) -> Result<i64, ArithmeticFault> {
    narrow(if x < 0 { -x } else { x as int })
}

/// What square-and-multiply still has to add to `result`: `result` times
/// `base` to the power `exponent`, one scaled product per step, starting with
/// the lowest bit of the exponent. `base` is squared only while higher bits
/// remain.
pub open spec fn square_and_multiply(result: i64, base: i64, exponent: nat) -> Result<
    i64,
    ArithmeticFault,
>
    decreases exponent,
{
    if exponent == 0 {
        Ok(result)
    } else {
        let taken = if exponent % 2 == 1 {
            scaled_product(result, base)
        } else {
            Ok(result)
        };
        match taken {
            Err(fault) => Err(fault),
            Ok(next) => if exponent / 2 == 0 {
                Ok(next)
            } else {
                match scaled_product(base, base) {
                    Err(fault) => Err(fault),
                    Ok(squared) => square_and_multiply(next, squared, exponent / 2),
                }
            },
        }
    }
}

/// The scaled value `x` raised to the whole power `n`. A negative power is the
/// scaled reciprocal of the positive one.
pub open spec fn fixed_power(x: i64, n: i64) -> Result<i64, ArithmeticFault> {
    if n >= 0 {
        square_and_multiply(SCALING_FACTOR, x, n as nat)
    } else {
        match square_and_multiply(SCALING_FACTOR, x, (-n) as nat) {
            Err(fault) => Err(fault),
            Ok(power) => scaled_quotient(SCALING_FACTOR, power),
        }
    }
}

/// The integer nearest to `p / d` for `d > 0`, a half rounded up.
pub open spec fn nearest_quotient(p: int, d: int) -> int {
    (2 * p + d) / (2 * d)
}

/// The whole number `v` can be held as a scaled value.
pub open spec fn whole_fits(v: int) -> bool {
    i64::MIN <= v * SCALING_FACTOR <= i64::MAX
}

/// The product of two 64-bit values uses at most half the range of 128 bits,
/// with room to spare on the negative side.
pub(crate) proof fn lemma_product_fits_i128(a: int, b: int)
    by (nonlinear_arith)
    requires
        i64::MIN <= a <= i64::MAX,
        i64::MIN <= b <= i64::MAX,
    ensures
        -0x4000_0000_0000_0000_0000_0000_0000_0000 + 0x8000_0000_0000_0000 <= a * b
            <= 0x4000_0000_0000_0000_0000_0000_0000_0000,
{
}

/// Brings a 128-bit intermediate back to 64 bits.
pub(crate) fn narrow_i128(v: i128) -> (r: Result<i64, ArithmeticFault>)
    ensures
        r == narrow(v as int),
{
    if v < i64::MIN as i128 || v > i64::MAX as i128 {
        Err(ArithmeticFault::Overflow)
    } else {
        Ok(v as i64)
    }
}

/// Divides in 128 bits, rounding toward zero.
pub(crate) fn divide_i128(a: i128, b: i128) -> (q: i128)
    requires
        b != 0,
        i128::MIN < a,
        i128::MIN < b,
    ensures
        q == truncating_div(a as int, b as int),
{
    if b > 0 {
        a / b
    } else {
        (-a) / (-b)
    }
}

/// The next decimal of a quotient: `rem * 10 / d` and what is left over, for
/// a remainder `rem` below `d`. The product `rem * 10` is never formed, so
/// nothing overflows however large `d` is.
fn next_decimal(rem: u128, d: u128) -> (r: (u128, u128))
    requires
        rem < d,
        d <= i128::MAX,
    ensures
        rem * 10 == r.0 * d + r.1,
        r.0 <= 9,
        r.1 < d,
{
    let mut digit: u128 = 0;
    let mut left: u128 = 0;
    let mut added: u8 = 0;
    while added < 10
        invariant
            rem < d,
            d <= i128::MAX,
            added <= 10,
            digit <= added,
            left < d,
            added * rem == digit * d + left,
        decreases 10 - added,
    {
        proof {
            assert((added + 1) * rem == added * rem + rem) by (nonlinear_arith);
            assert((digit + 1) * d == digit * d + d) by (nonlinear_arith);
        }
        left = left + rem;
        if left >= d {
            left = left - d;
            digit = digit + 1;
        }
        added = added + 1;
    }
    assert(digit <= 9) by (nonlinear_arith)
        requires
            10 * rem == digit * d + left,
            rem < d,
            digit <= 10,
    ;
    (digit, left)
}

/// The magnitude of a 128-bit value other than the least.
fn magnitude_i128(v: i128) -> (r: u128)
    requires
        i128::MIN < v,
    ensures
        r == if v < 0 { -v } else { v as int },
        r <= i128::MAX,
{
    if v < 0 {
        (-v) as u128
    } else {
        v as u128
    }
}

/// The scaled quotient of two 128-bit values: `a * SCALING_FACTOR / b`,
/// rounded toward zero. The quotient is formed one decimal at a time, so that
/// it is exact even where `a * SCALING_FACTOR` itself would not fit in 128
/// bits.
pub(crate) fn scaled_divide_i128(a: i128, b: i128) -> (r: Result<i64, ArithmeticFault>)
    requires
        b != 0,
        i128::MIN < a,
        i128::MIN < b,
    ensures
        r == narrow(truncating_div(a * SCALING_FACTOR, b as int)),
{
    let n = magnitude_i128(a);
    let d = magnitude_i128(b);
    let whole = n / d;
    let rest = n % d;
    let (first, rest_1) = next_decimal(rest, d);
    let (second, rest_2) = next_decimal(rest_1, d);
    let (third, rest_3) = next_decimal(rest_2, d);
    let (fourth, rest_4) = next_decimal(rest_3, d);
    let fraction = first * 1000 + second * 100 + third * 10 + fourth;
    let ghost quotient = whole * 10000 + fraction;
    proof {
        lemma_fundamental_div_mod(n as int, d as int);
        assert(fraction * d == 1000 * (first * d) + 100 * (second * d) + 10 * (third * d) + fourth
            * d) by (nonlinear_arith)
            requires
                fraction == first * 1000 + second * 100 + third * 10 + fourth,
        ;
        assert(rest * 10000 == fraction * d + rest_4);
        assert(n * 10000 == quotient * d + rest_4) by (nonlinear_arith)
            requires
                n == d * whole + rest,
                rest * 10000 == fraction * d + rest_4,
                quotient == whole * 10000 + fraction,
        ;
        lemma_fundamental_div_mod_converse(n * 10000, d as int, quotient, rest_4 as int);
        assert(quotient == (n * 10000) / (d as int));
        assert(n * 10000 == if a < 0 { -(a * SCALING_FACTOR) } else { a * SCALING_FACTOR });
        assert(truncating_div(a * SCALING_FACTOR, b as int) == if (a < 0) == (b < 0) || a == 0 {
            quotient
        } else {
            -quotient
        });
    }
    if whole > 922337203685477 {
        // Already the whole part is beyond the range once it is scaled.
        return Err(ArithmeticFault::Overflow);
    }
    let size: u128 = whole * 10000 + fraction;
    if (a < 0) == (b < 0) || size == 0 {
        if size > 0x7fff_ffff_ffff_ffff {
            Err(ArithmeticFault::Overflow)
        } else {
            Ok(size as i64)
        }
    } else if size > 0x8000_0000_0000_0000 {
        Err(ArithmeticFault::Overflow)
    } else if size == 0x8000_0000_0000_0000 {
        Ok(i64::MIN)
    } else {
        Ok(-(size as i64))
    }
}

/// Multiplies two scaled values.
pub fn scaled_multiply(a: i64, b: i64) -> (r: Result<i64, ArithmeticFault>)
    ensures
        r == scaled_product(a, b),
        r matches Ok(v) ==> -1 <= v - nearest_quotient(a * b, SCALING_FACTOR as int) <= 1,
{
    proof {
        lemma_product_fits_i128(a as int, b as int);
        lemma_scaled_product_within_one_unit(a, b);
    }
    let wide: i128 = (a as i128) * (b as i128);
    narrow_i128(wide / (SCALING_FACTOR as i128))
}

/// Divides one scaled value by another.
pub fn scaled_divide(a: i64, b: i64) -> (r: Result<i64, ArithmeticFault>)
    ensures
        r == scaled_quotient(a, b),
{
    if b == 0 {
        return Err(ArithmeticFault::DivisionByZero);
    }
    proof {
        lemma_product_fits_i128(a as int, SCALING_FACTOR as int);
    }
    let wide: i128 = (a as i128) * (SCALING_FACTOR as i128);
    narrow_i128(divide_i128(wide, b as i128))
}

/// Divides a scaled value by a count.
pub fn divide(a: i64, b: i64) -> (r: Result<i64, ArithmeticFault>)
    ensures
        r == plain_quotient(a, b),
{
    if b == 0 {
        return Err(ArithmeticFault::DivisionByZero);
    }
    narrow_i128(divide_i128(a as i128, b as i128))
}

/// The absolute value of `x`.
pub fn abs(x: i64) -> (r: Result<i64, ArithmeticFault>)
    ensures
        r == magnitude(x),
{
    if x == i64::MIN {
        Err(ArithmeticFault::Overflow)
    } else if x < 0 {
        Ok(-x)
    } else {
        Ok(x)
    }
}

/// Raises the scaled value `x` to the whole power `n` by repeated squaring.
pub fn powf_fixed(x: i64, n: i64) -> (r: Result<i64, ArithmeticFault>)
    ensures
        r == fixed_power(x, n),
{
    let mut exponent: u64 = if n >= 0 {
        n as u64
    } else if n == i64::MIN {
        0x8000_0000_0000_0000
    } else {
        (-n) as u64
    };
    let ghost whole = exponent as nat;
    let mut result: i64 = SCALING_FACTOR;
    let mut base: i64 = x;
    while exponent > 0
        invariant
            whole == if n >= 0 { n as nat } else { (-n) as nat },
            square_and_multiply(result, base, exponent as nat) == square_and_multiply(
                SCALING_FACTOR,
                x,
                whole,
            ),
        decreases exponent,
    {
        if exponent % 2 == 1 {
            result = scaled_multiply(result, base)?;
        }
        exponent = exponent / 2;
        if exponent > 0 {
            base = scaled_multiply(base, base)?;
        }
    }
    if n >= 0 {
        Ok(result)
    } else {
        scaled_divide(SCALING_FACTOR, result)
    }
}

/// A scaled product is within one unit in the last place of the exact product
/// of the two reals rounded to the nearest unit, and off from the exact
/// product itself by less than one unit.
pub proof fn lemma_scaled_product_within_one_unit(a: i64, b: i64)
    ensures
        scaled_product(a, b) matches Ok(v) ==> {
            &&& -1 <= v - nearest_quotient(a * b, SCALING_FACTOR as int) <= 1
            &&& -SCALING_FACTOR < v * SCALING_FACTOR - a * b < SCALING_FACTOR
        },
{
    let p = a * b;
    let t = truncating_div(p, 10000);
    assert(-10000 < t * 10000 - p < 10000);
    assert(-1 <= t - (2 * p + 10000) / 20000 <= 1);
}

/// The zeroth power of anything is the scaled one, and the first power of a
/// value is the value.
pub proof fn lemma_power_of_zero_and_one(x: i64)
    ensures
        fixed_power(x, 0) == Ok::<i64, ArithmeticFault>(SCALING_FACTOR),
        fixed_power(x, 1) == Ok::<i64, ArithmeticFault>(x),
{
    assert(truncating_div(SCALING_FACTOR * x, SCALING_FACTOR as int) == x);
}

/// A power of a whole number other than zero is not zero.
proof fn lemma_pow_nonzero(b: int, e: nat)
    requires
        b != 0,
    ensures
        pow(b, e) != 0,
    decreases e,
{
    reveal(pow);
    if e > 0 {
        lemma_pow_nonzero(b, (e - 1) as nat);
        assert(b * pow(b, (e - 1) as nat) != 0) by (nonlinear_arith)
            requires
                b != 0,
                pow(b, (e - 1) as nat) != 0,
        ;
    }
}

/// A factor of a whole number that can be held can be held too.
proof fn lemma_factor_fits(v: int, w: int)
    requires
        w != 0,
        whole_fits(v * w),
    ensures
        whole_fits(v),
{
    let product = v * w;
    assert(-product <= v <= product || product <= v <= -product) by (nonlinear_arith)
        requires
            w != 0,
            product == v * w,
    ;
}

/// An exponent splits into its lowest bit and the rest, which counts
/// squares.
proof fn lemma_pow_halves(b: int, e: nat)
    ensures
        pow(b, e) == pow(b, e % 2) * pow(b * b, e / 2),
        pow(b, 1) == b,
        pow(b, 0) == 1,
{
    lemma_pow_adds(b, e % 2, 2 * (e / 2));
    lemma_pow_multiplies(b, 2, e / 2);
    reveal_with_fuel(pow, 3);
    assert(pow(b, 2) == b * b) by (nonlinear_arith)
        requires
            pow(b, 2) == b * (b * 1),
    ;
}

/// The scaled product of two whole numbers is their product, exactly.
proof fn lemma_scaled_product_of_wholes(r: int, b: int)
    requires
        whole_fits(r),
        whole_fits(b),
        whole_fits(r * b),
    ensures
        scaled_product((r * SCALING_FACTOR) as i64, (b * SCALING_FACTOR) as i64) == Ok::<
            i64,
            ArithmeticFault,
        >((r * b * SCALING_FACTOR) as i64),
{
    let product = r * b;
    assert((r * 10000) * (b * 10000) == (product * 10000) * 10000) by (nonlinear_arith)
        requires
            product == r * b,
    ;
    assert(truncating_div((product * 10000) * 10000, 10000) == product * 10000);
}

/// Square-and-multiply on whole numbers is exact wherever its result can be
/// held: no step on the way leaves the range or rounds.
proof fn lemma_square_and_multiply_of_wholes(r: int, b: int, e: nat)
    requires
        whole_fits(r),
        whole_fits(b),
        b == 0 || (r != 0 && whole_fits(r * pow(b, e))),
    ensures
        whole_fits(r * pow(b, e)),
        square_and_multiply((r * SCALING_FACTOR) as i64, (b * SCALING_FACTOR) as i64, e) == Ok::<
            i64,
            ArithmeticFault,
        >((r * pow(b, e) * SCALING_FACTOR) as i64),
    decreases e,
{
    lemma_pow_halves(b, e);
    if e == 0 {
        assert(r * pow(b, e) == r) by (nonlinear_arith)
            requires
                pow(b, e) == 1,
        ;
    } else {
        let low = pow(b, e % 2);
        let high = pow(b * b, e / 2);
        let next = r * low;
        assert(r * pow(b, e) == next * high) by (nonlinear_arith)
            requires
                pow(b, e) == low * high,
                next == r * low,
        ;
        if b == 0 {
            lemma0_pow(e);
            assert(r * pow(b, e) == 0) by (nonlinear_arith)
                requires
                    pow(b, e) == 0,
            ;
            assert(r * b == 0) by (nonlinear_arith)
                requires
                    b == 0,
            ;
            assert(b * b == 0) by (nonlinear_arith)
                requires
                    b == 0,
            ;
            if e % 2 == 1 {
                assert(next == 0);
            } else {
                assert(next == r) by (nonlinear_arith)
                    requires
                        next == r * low,
                        low == 1,
                ;
            }
        } else {
            assert(b * b != 0) by (nonlinear_arith)
                requires
                    b != 0,
            ;
            lemma_pow_nonzero(b * b, e / 2);
            lemma_factor_fits(next, high);
            assert(next != 0) by {
                lemma_pow_nonzero(b, e % 2);
                assert(r * low != 0) by (nonlinear_arith)
                    requires
                        r != 0,
                        low != 0,
                ;
            }
            if e / 2 > 0 {
                // The square is a factor of what is still to come.
                let rest = next * pow(b * b, (e / 2 - 1) as nat);
                lemma_pow_nonzero(b * b, (e / 2 - 1) as nat);
                assert(high == (b * b) * pow(b * b, (e / 2 - 1) as nat)) by {
                    reveal(pow);
                }
                assert(rest != 0) by (nonlinear_arith)
                    requires
                        next != 0,
                        pow(b * b, (e / 2 - 1) as nat) != 0,
                        rest == next * pow(b * b, (e / 2 - 1) as nat),
                ;
                assert(next * high == (b * b) * rest) by (nonlinear_arith)
                    requires
                        high == (b * b) * pow(b * b, (e / 2 - 1) as nat),
                        rest == next * pow(b * b, (e / 2 - 1) as nat),
                ;
                lemma_factor_fits(b * b, rest);
            }
        }
        if e % 2 == 1 {
            assert(next == r * b);
            lemma_scaled_product_of_wholes(r, b);
        } else {
            assert(next == r) by (nonlinear_arith)
                requires
                    next == r * low,
                    low == 1,
            ;
        }
        if e / 2 > 0 {
            lemma_scaled_product_of_wholes(b, b);
            lemma_square_and_multiply_of_wholes(next, b * b, e / 2);
        } else {
            assert(high == 1) by {
                reveal(pow);
            }
            assert(next * high == next) by (nonlinear_arith)
                requires
                    high == 1,
            ;
        }
    }
}

/// On whole numbers the power routine is exact: where the true power can be
/// held, it is the result, and no step overflows before it is reached.
pub proof fn lemma_power_of_whole_number(k: int, n: nat)
    requires
        whole_fits(k),
        n <= i64::MAX,
        whole_fits(pow(k, n)),
    ensures
        fixed_power((k * SCALING_FACTOR) as i64, n as i64) == Ok::<i64, ArithmeticFault>(
            (pow(k, n) * SCALING_FACTOR) as i64,
        ),
{
    assert(1 * pow(k, n) == pow(k, n));
    lemma_square_and_multiply_of_wholes(1, k, n);
}

} // verus!
