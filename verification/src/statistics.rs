//! The aggregates of a set of samples, and the line derived from them.
//!
//! Five aggregates are kept: the count, the sums of `x` and of `y`, and the
//! sums of the products `x * x` and `x * y`. The products are summed unscaled,
//! so those two sums are exact and carry the square of the scale. The line is
//! the least-squares line in closed form; its slope and intercept are scaled
//! values. The intercept that is released is the fitted one plus the noise of
//! the Laplace mechanism.
//!
//! While the samples determine no line, none is derived: nothing is ever
//! divided by a zero denominator.

use vstd::prelude::*;
use vstd::arithmetic::div_mod::{lemma_div_nonincreasing, lemma_div_pos_is_pos};
use crate::fixed_point::{
    lemma_product_fits_i128, narrow, narrow_i128, scaled_divide_i128, truncating_div,
    ArithmeticFault, SCALING_FACTOR,
};
use crate::noise::{intercept_noise, laplace_mechanism, EPSILON};

verus! {

/// The sum of the `x` coordinates of `samples`.
pub open spec fn sum_x(samples: Seq<(i64, i64)>) -> int
    decreases samples.len(),
{
    if samples.len() == 0 {
        0
    } else {
        sum_x(samples.drop_last()) + samples.last().0
    }
}

/// The sum of the `y` coordinates of `samples`.
pub open spec fn sum_y(samples: Seq<(i64, i64)>) -> int
    decreases samples.len(),
{
    if samples.len() == 0 {
        0
    } else {
        sum_y(samples.drop_last()) + samples.last().1
    }
}

/// The sum of the squares `x * x` over `samples`.
pub open spec fn sum_x_squared(samples: Seq<(i64, i64)>) -> int
    decreases samples.len(),
{
    if samples.len() == 0 {
        0
    } else {
        sum_x_squared(samples.drop_last()) + samples.last().0 * samples.last().0
    }
}

/// The sum of the products `x * y` over `samples`.
pub open spec fn sum_xy(samples: Seq<(i64, i64)>) -> int
    decreases samples.len(),
{
    if samples.len() == 0 {
        0
    } else {
        sum_xy(samples.drop_last()) + samples.last().0 * samples.last().1
    }
}

/// A fitted line: both numbers are scaled values.
#[derive(Clone, Copy, Debug, PartialEq, Eq)]
pub struct Model {
    /// Rise of `y` per unit of `x`.
    pub slope: i64,
    /// Value of `y` at `x = 0`, with the noise of the mechanism added.
    pub intercept: i64,
}

/// The aggregates from which the line is derived.
#[derive(Clone, Copy, Debug, PartialEq, Eq)]
pub struct Statistics {
    /// Number of samples.
    pub n: i64,
    /// Sum of `x`, scaled.
    pub sum_x: i64,
    /// Sum of `y`, scaled.
    pub sum_y: i64,
    /// Sum of `x * x`, in squared scale.
    pub sum_x_squared: i64,
    /// Sum of `x * y`, in squared scale.
    pub sum_xy: i64,
}

impl Statistics {
    /// These aggregates are exactly the count and the sums of `samples`,
    /// computed from the samples themselves.
    pub open spec fn describes(self, samples: Seq<(i64, i64)>) -> bool {
        &&& self.n == samples.len()
        &&& self.sum_x == sum_x(samples)
        &&& self.sum_y == sum_y(samples)
        &&& self.sum_x_squared == sum_x_squared(samples)
        &&& self.sum_xy == sum_xy(samples)
    }

    /// The aggregates after one more sample, or the overflow fault when one of
    /// them leaves the range of `i64`.
    pub open spec fn with_sample(self, x: i64, y: i64) -> Result<Statistics, ArithmeticFault> {
        if narrow(self.n + 1) is Ok && narrow(self.sum_x + x) is Ok && narrow(self.sum_y + y) is Ok
            && narrow(self.sum_x_squared + x * x) is Ok && narrow(self.sum_xy + x * y) is Ok {
            Ok(
                Statistics {
                    n: (self.n + 1) as i64,
                    sum_x: (self.sum_x + x) as i64,
                    sum_y: (self.sum_y + y) as i64,
                    sum_x_squared: (self.sum_x_squared + x * x) as i64,
                    sum_xy: (self.sum_xy + x * y) as i64,
                },
            )
        } else {
            Err(ArithmeticFault::Overflow)
        }
    }

    /// `n * sum_xy - sum_x * sum_y`.
    pub open spec fn slope_numerator(self) -> int {
        self.n * self.sum_xy - self.sum_x * self.sum_y
    }

    /// `n * sum_x_squared - sum_x * sum_x`.
    pub open spec fn slope_denominator(self) -> int {
        self.n * self.sum_x_squared - self.sum_x * self.sum_x
    }

    /// A line is determined: there are at least two samples, and the
    /// denominator of the slope is not zero.
    pub open spec fn determined(self) -> bool {
        self.n >= 2 && self.slope_denominator() != 0
    }

    /// The least-squares slope, numerator over denominator, as a scaled value.
    pub open spec fn slope(self) -> Result<i64, ArithmeticFault> {
        narrow(truncating_div(self.slope_numerator() * SCALING_FACTOR, self.slope_denominator()))
    }

    /// The least-squares intercept that goes with `slope`:
    /// `(sum_y - slope * sum_x) / n`, where the product is a scaled one.
    pub open spec fn intercept(self, slope: i64) -> int {
        truncating_div(
            self.sum_y - truncating_div(slope * self.sum_x, SCALING_FACTOR as int),
            self.n as int,
        )
    }

    /// The intercept that is released: the least-squares intercept plus the
    /// noise of the Laplace mechanism.
    pub open spec fn released_intercept(self, slope: i64) -> Result<i64, ArithmeticFault> {
        match intercept_noise(EPSILON, self.n, slope) {
            Err(fault) => Err(fault),
            Ok(noise) => narrow(self.intercept(slope) + noise),
        }
    }

    /// The line that these aggregates give: none while no line is determined.
    pub open spec fn model(self) -> Result<Option<Model>, ArithmeticFault> {
        if !self.determined() {
            Ok(None)
        } else {
            match self.slope() {
                Err(fault) => Err(fault),
                Ok(slope) => match self.released_intercept(slope) {
                    Err(fault) => Err(fault),
                    Ok(intercept) => Ok(Some(Model { slope, intercept })),
                },
            }
        }
    }

    /// The aggregates of no samples.
    pub fn new() -> (r: Statistics)
        ensures
            r.describes(Seq::empty()),
            r == (Statistics { n: 0, sum_x: 0, sum_y: 0, sum_x_squared: 0, sum_xy: 0 }),
    {
        Statistics { n: 0, sum_x: 0, sum_y: 0, sum_x_squared: 0, sum_xy: 0 }
    }

    /// Folds one sample in.
    pub fn add(&self, x: i64, y: i64) -> (r: Result<Statistics, ArithmeticFault>)
        ensures
            r == self.with_sample(x, y),
    {
        proof {
            lemma_product_fits_i128(x as int, x as int);
            lemma_product_fits_i128(x as int, y as int);
        }
        let n = narrow_i128(self.n as i128 + 1)?;
        let sum_x = narrow_i128(self.sum_x as i128 + x as i128)?;
        let sum_y = narrow_i128(self.sum_y as i128 + y as i128)?;
        let sum_x_squared = narrow_i128(self.sum_x_squared as i128 + (x as i128) * (x as i128))?;
        let sum_xy = narrow_i128(self.sum_xy as i128 + (x as i128) * (y as i128))?;
        Ok(Statistics { n, sum_x, sum_y, sum_x_squared, sum_xy })
    }

    /// Derives the line in closed form, and perturbs its intercept. While no
    /// line is determined the answer is `None`, and nothing is divided.
    pub fn estimate(&self) -> (r: Result<Option<Model>, ArithmeticFault>)
        ensures
            r == self.model(),
    {
        if self.n < 2 {
            return Ok(None);
        }
        proof {
            lemma_product_fits_i128(self.n as int, self.sum_xy as int);
            lemma_product_fits_i128(self.sum_x as int, self.sum_y as int);
            lemma_product_fits_i128(self.n as int, self.sum_x_squared as int);
            lemma_product_fits_i128(self.sum_x as int, self.sum_x as int);
        }
        let n = self.n as i128;
        let sum_x = self.sum_x as i128;
        let numerator = n * (self.sum_xy as i128) - sum_x * (self.sum_y as i128);
        let denominator = n * (self.sum_x_squared as i128) - sum_x * sum_x;
        if denominator == 0 {
            return Ok(None);
        }
        let slope = scaled_divide_i128(numerator, denominator)?;
        let noise = laplace_mechanism(EPSILON, self.n, slope)?;
        proof {
            lemma_product_fits_i128(slope as int, self.sum_x as int);
        }
        let explained = (slope as i128) * sum_x / (SCALING_FACTOR as i128);
        let rest = self.sum_y as i128 - explained;
        proof {
            lemma_quotient_is_no_larger(rest as int, n as int);
        }
        let exact = rest / n;
        let intercept = narrow_i128(exact + noise as i128)?;
        Ok(Some(Model { slope, intercept }))
    }
}

/// Dividing by a count does not take a value further from zero.
proof fn lemma_quotient_is_no_larger(a: int, n: int)
    requires
        n > 0,
    ensures
        a >= 0 ==> 0 <= truncating_div(a, n) <= a,
        a <= 0 ==> a <= truncating_div(a, n) <= 0,
{
    if a >= 0 {
        lemma_div_nonincreasing(a, n);
        lemma_div_pos_is_pos(a, n);
    } else {
        lemma_div_nonincreasing(-a, n);
        lemma_div_pos_is_pos(-a, n);
    }
}

/// One more sample extends each sum by its term.
pub proof fn lemma_sums_push(samples: Seq<(i64, i64)>, x: i64, y: i64)
    ensures
        sum_x(samples.push((x, y))) == sum_x(samples) + x,
        sum_y(samples.push((x, y))) == sum_y(samples) + y,
        sum_x_squared(samples.push((x, y))) == sum_x_squared(samples) + x * x,
        sum_xy(samples.push((x, y))) == sum_xy(samples) + x * y,
{
    assert(samples.push((x, y)).drop_last() == samples);
}

/// Folding a sample into aggregates that describe `samples` gives aggregates
/// that describe `samples` with that sample appended.
pub proof fn lemma_add_describes(before: Statistics, samples: Seq<(i64, i64)>, x: i64, y: i64)
    requires
        before.describes(samples),
    ensures
        before.with_sample(x, y) matches Ok(after) ==> after.describes(samples.push((x, y))),
{
    lemma_sums_push(samples, x, y);
}

/// The aggregates that come of folding `samples` in one by one, from first to
/// last, or the overflow fault if one of them leaves the range of `i64` on
/// the way.
pub open spec fn running_statistics(samples: Seq<(i64, i64)>) -> Result<
    Statistics,
    ArithmeticFault,
>
    decreases samples.len(),
{
    if samples.len() == 0 {
        Ok(Statistics { n: 0, sum_x: 0, sum_y: 0, sum_x_squared: 0, sum_xy: 0 })
    } else {
        match running_statistics(samples.drop_last()) {
            Err(fault) => Err(fault),
            Ok(before) => before.with_sample(samples.last().0, samples.last().1),
        }
    }
}

/// The running count and sums, kept one sample at a time, equal the count
/// and the sums computed from the whole sequence at once.
pub proof fn lemma_running_statistics_are_exact(samples: Seq<(i64, i64)>)
    ensures
        running_statistics(samples) matches Ok(statistics) ==> statistics.describes(samples),
    decreases samples.len(),
{
    if samples.len() > 0 {
        let before = samples.drop_last();
        lemma_running_statistics_are_exact(before);
        if let Ok(statistics) = running_statistics(before) {
            lemma_add_describes(statistics, before, samples.last().0, samples.last().1);
            assert(before.push(samples.last()) == samples);
        }
    }
}

/// Once a prefix has overflowed, every longer prefix has.
pub proof fn lemma_running_statistics_fault_stays(samples: Seq<(i64, i64)>, prefix: int)
    requires
        0 <= prefix <= samples.len(),
    ensures
        running_statistics(samples.take(prefix)) matches Err(fault) ==> running_statistics(samples)
            == Err::<Statistics, ArithmeticFault>(fault),
    decreases samples.len() - prefix,
{
    if prefix < samples.len() {
        assert(samples.take(prefix + 1).drop_last() == samples.take(prefix));
        lemma_running_statistics_fault_stays(samples, prefix + 1);
    } else {
        assert(samples.take(prefix) == samples);
    }
}

} // verus!
