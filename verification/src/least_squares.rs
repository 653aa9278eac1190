//! What the least-squares line is worth: when the samples determine one, and
//! that a line on which all samples lie is found again without error.

use vstd::prelude::*;
use vstd::arithmetic::div_mod::lemma_div_by_multiple;
use crate::fixed_point::{truncating_div, SCALING_FACTOR};
use crate::statistics::{sum_x, sum_x_squared, sum_xy, sum_y, Statistics};

verus! {

/// All samples have one and the same `x`.
pub open spec fn abscissas_equal(samples: Seq<(i64, i64)>) -> bool {
    forall|i: int, j: int|
        0 <= i < samples.len() && 0 <= j < samples.len() ==> (#[trigger] samples[i]).0
            == (#[trigger] samples[j]).0
}

/// The sum of the squares `(x - at) * (x - at)` over `samples`.
pub open spec fn squared_distance(samples: Seq<(i64, i64)>, at: int) -> int
    decreases samples.len(),
{
    if samples.len() == 0 {
        0
    } else {
        squared_distance(samples.drop_last(), at) + (samples.last().0 - at) * (samples.last().0
            - at)
    }
}

/// The squared distance is never negative, is zero only where every `x` is
/// `at`, and is made of the sums.
proof fn lemma_squared_distance(samples: Seq<(i64, i64)>, at: int)
    ensures
        squared_distance(samples, at) >= 0,
        squared_distance(samples, at) == 0 <==> forall|i: int|
            0 <= i < samples.len() ==> (#[trigger] samples[i]).0 == at,
        squared_distance(samples, at) == sum_x_squared(samples) - 2 * at * sum_x(samples)
            + samples.len() * (at * at),
    decreases samples.len(),
{
    if samples.len() > 0 {
        let before = samples.drop_last();
        let x = samples.last().0 as int;
        lemma_squared_distance(before, at);
        assert((x - at) * (x - at) >= 0 && ((x - at) * (x - at) == 0 <==> x == at))
            by (nonlinear_arith);
        assert forall|i: int| 0 <= i < before.len() implies before[i] == samples[i] by {}
        if squared_distance(samples, at) == 0 {
            assert forall|i: int| 0 <= i < samples.len() implies (#[trigger] samples[i]).0
                == at by {
                if i < before.len() {
                    assert(before[i].0 == at);
                }
            }
        }
        if forall|i: int| 0 <= i < samples.len() ==> (#[trigger] samples[i]).0 == at {
            assert(samples[samples.len() - 1].0 == at);
            assert forall|i: int| 0 <= i < before.len() implies (#[trigger] before[i]).0 == at by {
                assert(samples[i].0 == at);
            }
        }
        assert((x - at) * (x - at) == x * x - 2 * at * x + at * at) by (nonlinear_arith);
        assert(2 * at * (sum_x(before) + x) == 2 * at * sum_x(before) + 2 * at * x)
            by (nonlinear_arith);
        assert(samples.len() * (at * at) == before.len() * (at * at) + at * at)
            by (nonlinear_arith)
            requires
                samples.len() == before.len() + 1,
        ;
    }
}

/// `n * sum_x_squared - sum_x * sum_x` over `samples`.
pub open spec fn spread(samples: Seq<(i64, i64)>) -> int {
    samples.len() * sum_x_squared(samples) - sum_x(samples) * sum_x(samples)
}

/// The denominator of the slope is never negative, and it is zero exactly
/// where all samples have the same `x`: two samples with different `x`
/// determine a line, and more samples never take it away.
pub proof fn lemma_spread(samples: Seq<(i64, i64)>)
    ensures
        spread(samples) >= 0,
        spread(samples) == 0 <==> abscissas_equal(samples),
    decreases samples.len(),
{
    if samples.len() > 0 {
        let before = samples.drop_last();
        let x = samples.last().0 as int;
        let n = before.len() as int;
        let sx = sum_x(before);
        let sxx = sum_x_squared(before);
        lemma_spread(before);
        lemma_squared_distance(before, x);
        assert forall|i: int| 0 <= i < before.len() implies before[i] == samples[i] by {}
        assert(spread(samples) == spread(before) + squared_distance(before, x)) by {
            assert((n + 1) * (sxx + x * x) == n * sxx + sxx + n * (x * x) + x * x)
                by (nonlinear_arith);
            assert((sx + x) * (sx + x) == sx * sx + 2 * x * sx + x * x) by (nonlinear_arith);
        }
        if spread(samples) == 0 {
            assert forall|i: int, j: int|
                0 <= i < samples.len() && 0 <= j < samples.len() implies (#[trigger] samples[i]).0
                == (#[trigger] samples[j]).0 by {
                if i < before.len() {
                    assert(before[i].0 == x);
                }
                if j < before.len() {
                    assert(before[j].0 == x);
                }
            }
        }
        if abscissas_equal(samples) {
            assert forall|i: int| 0 <= i < before.len() implies (#[trigger] before[i]).0 == x by {
                assert(samples[i].0 == samples[samples.len() - 1].0);
            }
            assert forall|i: int, j: int|
                0 <= i < before.len() && 0 <= j < before.len() implies (#[trigger] before[i]).0
                == (#[trigger] before[j]).0 by {
                assert(samples[i].0 == samples[j].0);
            }
        }
    }
}

/// A line is determined exactly when there are two samples or more and their
/// `x` are not all the same.
pub proof fn lemma_determined(statistics: Statistics, samples: Seq<(i64, i64)>)
    requires
        statistics.describes(samples),
    ensures
        statistics.slope_denominator() >= 0,
        statistics.determined() <==> samples.len() >= 2 && !abscissas_equal(samples),
{
    lemma_spread(samples);
}

/// Every sample lies on the line `y = slope * x + intercept`, where `slope`
/// is a whole number and `intercept` a scaled one.
pub open spec fn on_line(samples: Seq<(i64, i64)>, slope: int, intercept: int) -> bool {
    forall|k: int|
        0 <= k < samples.len() ==> (#[trigger] samples[k]).1 == slope * samples[k].0 + intercept
}

/// The sums of samples on a line are on that line too.
proof fn lemma_sums_on_line(samples: Seq<(i64, i64)>, slope: int, intercept: int)
    requires
        on_line(samples, slope, intercept),
    ensures
        sum_y(samples) == slope * sum_x(samples) + samples.len() * intercept,
        sum_xy(samples) == slope * sum_x_squared(samples) + intercept * sum_x(samples),
    decreases samples.len(),
{
    if samples.len() > 0 {
        let before = samples.drop_last();
        let x = samples.last().0 as int;
        let y = samples.last().1 as int;
        assert(on_line(before, slope, intercept)) by {
            assert forall|k: int| 0 <= k < before.len() implies (#[trigger] before[k]).1 == slope
                * before[k].0 + intercept by {
                assert(before[k] == samples[k]);
            }
        }
        lemma_sums_on_line(before, slope, intercept);
        assert(y == slope * x + intercept);
        assert(slope * (sum_x(before) + x) == slope * sum_x(before) + slope * x)
            by (nonlinear_arith);
        assert(samples.len() * intercept == before.len() * intercept + intercept)
            by (nonlinear_arith)
            requires
                samples.len() == before.len() + 1,
        ;
        assert(x * y == slope * (x * x) + intercept * x) by (nonlinear_arith)
            requires
                y == slope * x + intercept,
        ;
        assert(slope * (sum_x_squared(before) + x * x) == slope * sum_x_squared(before) + slope * (x
            * x)) by (nonlinear_arith);
        assert(intercept * (sum_x(before) + x) == intercept * sum_x(before) + intercept * x)
            by (nonlinear_arith);
    }
}

/// A multiple of `d` divided by `d` is the factor, whatever the signs.
proof fn lemma_truncating_div_of_multiple(k: int, d: int)
    requires
        d != 0,
    ensures
        truncating_div(k * d, d) == k,
{
    let dividend = k * d;
    if k >= 0 && d > 0 {
        assert(dividend >= 0) by (nonlinear_arith)
            requires
                k >= 0,
                d > 0,
                dividend == k * d,
        ;
        lemma_div_by_multiple(k, d);
    } else if k >= 0 {
        assert(dividend <= 0 && -dividend == k * (-d)) by (nonlinear_arith)
            requires
                k >= 0,
                d < 0,
                dividend == k * d,
        ;
        lemma_div_by_multiple(k, -d);
    } else if d > 0 {
        assert(dividend < 0 && -dividend == (-k) * d) by (nonlinear_arith)
            requires
                k < 0,
                d > 0,
                dividend == k * d,
        ;
        lemma_div_by_multiple(-k, d);
    } else {
        assert(dividend > 0 && dividend == (-k) * (-d)) by (nonlinear_arith)
            requires
                k < 0,
                d < 0,
                dividend == k * d,
        ;
        lemma_div_by_multiple(-k, -d);
    }
}

/// Samples that lie on one line give that line back: where the slope can be
/// held at all, it is the slope of the line, scaled, and the intercept before
/// the noise is the intercept of the line, both without any error.
pub proof fn lemma_exact_line_is_recovered(
    statistics: Statistics,
    samples: Seq<(i64, i64)>,
    slope: int,
    intercept: int,
)
    requires
        statistics.describes(samples),
        statistics.determined(),
        on_line(samples, slope, intercept),
    ensures
        statistics.slope() matches Ok(fitted) ==> {
            &&& fitted == slope * SCALING_FACTOR
            &&& statistics.intercept(fitted) == intercept
        },
{
    lemma_sums_on_line(samples, slope, intercept);
    let n = statistics.n as int;
    let sx = statistics.sum_x as int;
    let sy = statistics.sum_y as int;
    let sxx = statistics.sum_x_squared as int;
    let sxy = statistics.sum_xy as int;
    let denominator = statistics.slope_denominator();
    assert(statistics.slope_numerator() == slope * denominator) by {
        assert(n * sxy == n * (slope * sxx) + n * (intercept * sx)) by (nonlinear_arith)
            requires
                sxy == slope * sxx + intercept * sx,
        ;
        assert(sx * sy == sx * (slope * sx) + sx * (n * intercept)) by (nonlinear_arith)
            requires
                sy == slope * sx + n * intercept,
        ;
        assert(n * (intercept * sx) == sx * (n * intercept)) by (nonlinear_arith);
        assert(n * (slope * sxx) == slope * (n * sxx)) by (nonlinear_arith);
        assert(sx * (slope * sx) == slope * (sx * sx)) by (nonlinear_arith);
        assert(slope * (n * sxx) - slope * (sx * sx) == slope * (n * sxx - sx * sx))
            by (nonlinear_arith);
    }
    let scaled = statistics.slope_numerator() * SCALING_FACTOR;
    assert(scaled == (slope * SCALING_FACTOR) * denominator) by (nonlinear_arith)
        requires
            scaled == statistics.slope_numerator() * SCALING_FACTOR,
            statistics.slope_numerator() == slope * denominator,
    ;
    lemma_truncating_div_of_multiple(slope * SCALING_FACTOR, denominator);
    if let Ok(fitted) = statistics.slope() {
        assert(fitted == slope * SCALING_FACTOR);
        assert(fitted * sx == (slope * sx) * 10000) by (nonlinear_arith)
            requires
                fitted == slope * 10000,
        ;
        lemma_truncating_div_of_multiple(slope * sx, 10000);
        assert(sy - slope * sx == intercept * n) by (nonlinear_arith)
            requires
                sy == slope * sx + n * intercept,
        ;
        lemma_truncating_div_of_multiple(intercept, n);
    }
}

} // verus!
