//! The Laplace mechanism that perturbs a fitted intercept.
//!
//! The mechanism evaluates the density twice: first for a sensitivity that
//! depends on the sample count alone, then for the sensitivity of the
//! intercept, into which that first value and the slope enter. The second
//! value is the noise.
//!
//! No randomness is drawn: each perturbation is the Laplace density evaluated
//! in closed form, so the noise is a fixed function of the sample count and
//! the slope. That keeps a run reproducible, which an attested execution
//! needs, but it is a weakness: whoever knows the count and the slope can
//! take the noise off again.
//!
//! The exponential in the density is Euler's number, to four decimals, raised
//! to a whole power. That is coarse by design, and cheap.

use vstd::prelude::*;
use vstd::arithmetic::div_mod::{lemma_div_nonincreasing, lemma_div_pos_is_pos};
use crate::fixed_point::{
    abs, divide, fixed_power, magnitude, narrow, narrow_i128, plain_quotient, powf_fixed,
    scaled_divide, scaled_multiply, scaled_product, scaled_quotient, truncating_div,
    ArithmeticFault, SCALING_FACTOR,
};

verus! {

/// Euler's number as a scaled value.
pub const EULER: i64 = 27183;

/// The privacy budget of a training run: two, as a scaled value.
pub const EPSILON: i64 = 20000;

/// The Laplace density with location zero and scale `b`, at `x`:
/// `1 / (2 b) * e^(-|x / b|)`, with `|x / b|` cut to whole units before the
/// exponential is taken. A zero scale gives zero.
pub open spec fn laplace_value(x: i64, b: i64) -> Result<i64, ArithmeticFault> {
    if b == 0 {
        Ok(0)
    } else {
        match scaled_quotient(x, b) {
            Err(fault) => Err(fault),
            Ok(ratio) => match magnitude(ratio) {
                Err(fault) => Err(fault),
                Ok(distance) => laplace_value_at(distance, b),
            },
        }
    }
}

/// The density at a scaled, non-negative distance from the location, counted
/// in multiples of the scale `b`.
pub open spec fn laplace_value_at(distance: i64, b: i64) -> Result<i64, ArithmeticFault> {
    match fixed_power(EULER, (-(distance / SCALING_FACTOR)) as i64) {
        Err(fault) => Err(fault),
        Ok(decay) => match scaled_quotient((SCALING_FACTOR / 2) as i64, b) {
            Err(fault) => Err(fault),
            Ok(peak) => scaled_product(peak, decay),
        },
    }
}

/// At the location itself the density is `1 / (2 b)`: nothing decays.
pub proof fn lemma_laplace_value_at_location(b: i64)
    requires
        b != 0,
    ensures
        laplace_value(0, b) == scaled_quotient((SCALING_FACTOR / 2) as i64, b),
{
    assert(truncating_div(0int * SCALING_FACTOR, b as int) == 0);
    assert(fixed_power(EULER, 0) == Ok::<i64, ArithmeticFault>(SCALING_FACTOR));
    if let Ok(peak) = scaled_quotient((SCALING_FACTOR / 2) as i64, b) {
        assert(truncating_div(peak * SCALING_FACTOR, SCALING_FACTOR as int) == peak);
    }
}

/// The density at the location itself, for the scale `3 * sensitivity /
/// epsilon` that the mechanism gives to a statistic of that sensitivity.
pub open spec fn perturbation(sensitivity: i64, epsilon: i64) -> Result<i64, ArithmeticFault> {
    match narrow(3 * sensitivity) {
        Err(fault) => Err(fault),
        Ok(tripled) => match scaled_quotient(tripled, epsilon) {
            Err(fault) => Err(fault),
            Ok(scale) => laplace_value(0, scale),
        },
    }
}

/// The sensitivity of the intercept: `share * (1 + |alpha| + l)`, where
/// `share` is the scaled `1 / n`, `alpha` the slope, and `l` the density that
/// was evaluated first.
pub open spec fn intercept_sensitivity(share: i64, alpha: i64, l: i64) -> Result<
    i64,
    ArithmeticFault,
> {
    match magnitude(alpha) {
        Err(fault) => Err(fault),
        Ok(steepness) => match narrow(SCALING_FACTOR + steepness + l) {
            Err(fault) => Err(fault),
            Ok(reach) => scaled_product(share, reach),
        },
    }
}

/// The noise that the mechanism adds to the intercept of a fit with slope
/// `alpha` over `n` samples, under the privacy budget `epsilon`. With `share`
/// for the scaled `1 / n`, it is the perturbation for the sensitivity
/// `share * (1 + |alpha| + l)`, where `l` in turn is the perturbation for the
/// sensitivity `1 - share`.
pub open spec fn intercept_noise(epsilon: i64, n: i64, alpha: i64) -> Result<
    i64,
    ArithmeticFault,
> {
    match plain_quotient(SCALING_FACTOR, n) {
        Err(fault) => Err(fault),
        Ok(share) => match perturbation((SCALING_FACTOR - share) as i64, epsilon) {
            Err(fault) => Err(fault),
            Ok(l) => match intercept_sensitivity(share, alpha, l) {
                Err(fault) => Err(fault),
                Ok(sensitivity) => perturbation(sensitivity, epsilon),
            },
        },
    }
}

/// The noise depends on the slope through its magnitude alone: a rising and
/// a falling line of one steepness get the same noise.
pub proof fn lemma_noise_ignores_the_sign_of_the_slope(epsilon: i64, n: i64, alpha: i64)
    requires
        alpha != i64::MIN,
    ensures
        intercept_noise(epsilon, n, alpha) == intercept_noise(epsilon, n, (-alpha) as i64),
{
    assert(magnitude(alpha) == magnitude((-alpha) as i64));
}

/// The scaled `1 / n` lies between minus one and one.
proof fn lemma_share_is_at_most_one(n: i64)
    requires
        n != 0,
    ensures
        -SCALING_FACTOR <= truncating_div(SCALING_FACTOR as int, n as int) <= SCALING_FACTOR,
{
    if n > 0 {
        lemma_div_nonincreasing(SCALING_FACTOR as int, n as int);
        lemma_div_pos_is_pos(SCALING_FACTOR as int, n as int);
    } else {
        lemma_div_nonincreasing(SCALING_FACTOR as int, -n);
        lemma_div_pos_is_pos(SCALING_FACTOR as int, -n);
    }
}

/// Evaluates the Laplace density with location zero and scale `b` at `x`.
pub fn laplace_noise(x: i64, b: i64) -> (r: Result<i64, ArithmeticFault>)
    ensures
        r == laplace_value(x, b),
{
    if b == 0 {
        return Ok(0);
    }
    let ratio = scaled_divide(x, b)?;
    let distance = abs(ratio)?;
    let decay = powf_fixed(EULER, -(distance / SCALING_FACTOR))?;
    let peak = scaled_divide(SCALING_FACTOR / 2, b)?;
    scaled_multiply(peak, decay)
}

/// The density at the location for the scale `3 * sensitivity / epsilon`.
fn perturb(sensitivity: i64, epsilon: i64) -> (r: Result<i64, ArithmeticFault>)
    ensures
        r == perturbation(sensitivity, epsilon),
{
    let tripled = narrow_i128(3 * (sensitivity as i128))?;
    let scale = scaled_divide(tripled, epsilon)?;
    laplace_noise(0, scale)
}

/// The noise to add to the intercept of a fit with slope `alpha` over `n`
/// samples, under the privacy budget `epsilon`.
pub fn laplace_mechanism(epsilon: i64, n: i64, alpha: i64) -> (r: Result<i64, ArithmeticFault>)
    ensures
        r == intercept_noise(epsilon, n, alpha),
{
    let share = divide(SCALING_FACTOR, n)?;
    proof {
        lemma_share_is_at_most_one(n);
    }
    let l = perturb(SCALING_FACTOR - share, epsilon)?;
    let steepness = abs(alpha)?;
    let reach = narrow_i128((SCALING_FACTOR as i128) + (steepness as i128) + (l as i128))?;
    let sensitivity = scaled_multiply(share, reach)?;
    perturb(sensitivity, epsilon)
}

} // verus!

