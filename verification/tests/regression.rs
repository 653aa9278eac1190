use dp_regression::fixed_point::ArithmeticFault;
use dp_regression::noise::{laplace_mechanism, EPSILON};
use dp_regression::regression::{fit_batch, LinearRegression};
use dp_regression::statistics::{Model, Statistics};

fn trained(samples: &[(i64, i64)]) -> LinearRegression {
    let mut regression = LinearRegression::new();
    for &(x, y) in samples {
        regression.train(x, y).unwrap();
    }
    regression
}

#[test]
fn new_regression_has_seen_nothing() {
    let regression = LinearRegression::new();
    assert_eq!(
        regression.statistics(),
        Statistics { n: 0, sum_x: 0, sum_y: 0, sum_x_squared: 0, sum_xy: 0 }
    );
    assert_eq!(regression.model(), None);
}

#[test]
fn running_sums_equal_a_direct_recomputation() {
    let samples =
        [(10000, 31000), (20000, 49000), (-30000, 72000), (40000, -88000), (50000, 111000)];
    let regression = trained(&samples);
    let statistics = regression.statistics();
    assert_eq!(statistics.n, samples.len() as i64);
    assert_eq!(statistics.sum_x, samples.iter().map(|s| s.0).sum::<i64>());
    assert_eq!(statistics.sum_y, samples.iter().map(|s| s.1).sum::<i64>());
    assert_eq!(statistics.sum_x_squared, samples.iter().map(|s| s.0 * s.0).sum::<i64>());
    assert_eq!(statistics.sum_xy, samples.iter().map(|s| s.0 * s.1).sum::<i64>());
}

#[test]
fn statistics_of_five_points() {
    let samples = [(10000, 31000), (20000, 49000), (30000, 72000), (40000, 88000), (50000, 111000)];
    assert_eq!(
        trained(&samples).statistics(),
        Statistics {
            n: 5,
            sum_x: 150000,
            sum_y: 351000,
            sum_x_squared: 5500000000,
            sum_xy: 12520000000,
        }
    );
}

#[test]
fn ols_closed_form_on_a_straight_line() {
    // (1, 2), (2, 4), (3, 6): slope 2, intercept 0 before the noise.
    let regression = trained(&[(10000, 20000), (20000, 40000), (30000, 60000)]);
    let model = regression.model().unwrap();
    assert_eq!(model.slope, 20000);
    let noise = laplace_mechanism(EPSILON, 3, model.slope).unwrap();
    assert_eq!(model.intercept - noise, 0);
    assert_eq!(model, Model { slope: 20000, intercept: 2857 });
}

#[test]
fn one_sample_determines_no_line() {
    let regression = trained(&[(10000, 20000)]);
    assert_eq!(regression.model(), None);
    assert_eq!(regression.statistics().n, 1);
}

#[test]
fn equal_abscissas_determine_no_line() {
    let regression = trained(&[(10000, 20000), (10000, 30000), (10000, 40000)]);
    assert_eq!(regression.model(), None);
    assert_eq!(regression.statistics().n, 3);
}

#[test]
fn the_line_is_derived_again_after_each_sample() {
    let samples = [(10000, 31000), (20000, 49000), (30000, 72000), (40000, 88000), (50000, 111000)];
    let expected = [
        None,
        Some(Model { slope: 18000, intercept: 14923 }),
        Some(Model { slope: 20500, intercept: 12483 }),
        Some(Model { slope: 19400, intercept: 15439 }),
        Some(Model { slope: 19900, intercept: 15392 }),
    ];
    let mut regression = LinearRegression::new();
    for (sample, model) in samples.iter().zip(expected.iter()) {
        assert_eq!(regression.train(sample.0, sample.1), Ok(()));
        assert_eq!(regression.model(), *model);
    }
}

#[test]
fn falling_line_with_negative_coordinates() {
    let regression = trained(&[(-10000, 50000), (0, 30000), (10000, 10000), (20000, -10000)]);
    assert_eq!(regression.model(), Some(Model { slope: -20000, intercept: 33871 }));
}

#[test]
fn the_noise_is_added_to_the_intercept() {
    let statistics = Statistics {
        n: 4,
        sum_x: 20000,
        sum_y: 80000,
        sum_x_squared: 600000000,
        sum_xy: -600000000,
    };
    let model = statistics.estimate().unwrap().unwrap();
    let noise = laplace_mechanism(EPSILON, 4, model.slope).unwrap();
    assert_eq!(noise, 3871);
    assert_eq!(model.intercept, 30000 + noise);
}

#[test]
fn train_leaves_the_regression_as_it_was_on_overflow() {
    let mut regression = trained(&[(10000, 20000), (20000, 40000)]);
    let before = regression.statistics();
    let model = regression.model();
    assert_eq!(regression.train(i64::MAX, 0), Err(ArithmeticFault::Overflow));
    assert_eq!(regression.statistics(), before);
    assert_eq!(regression.model(), model);
    assert_eq!(regression.train(30000, 60000), Ok(()));
    assert_eq!(regression.model(), Some(Model { slope: 20000, intercept: 2857 }));
}

#[test]
fn square_that_does_not_fit_is_an_overflow() {
    let mut regression = LinearRegression::new();
    assert_eq!(regression.train(3037000500, 1), Err(ArithmeticFault::Overflow));
    assert_eq!(regression.train(3037000499, 1), Ok(()));
    assert_eq!(regression.statistics().sum_x_squared, 9223372030926249001);
}

#[test]
fn statistics_add_folds_one_sample() {
    let statistics = Statistics::new().add(10000, 20000).unwrap().add(-5, 7).unwrap();
    assert_eq!(
        statistics,
        Statistics { n: 2, sum_x: 9995, sum_y: 20007, sum_x_squared: 100000025, sum_xy: 199999965 }
    );
    let full = Statistics { n: i64::MAX, sum_x: 0, sum_y: 0, sum_x_squared: 0, sum_xy: 0 };
    assert_eq!(full.add(0, 0), Err(ArithmeticFault::Overflow));
}

#[test]
fn estimate_guards_the_division() {
    let none = Statistics { n: 0, sum_x: 0, sum_y: 0, sum_x_squared: 0, sum_xy: 0 };
    assert_eq!(none.estimate(), Ok(None));
    let degenerate =
        Statistics { n: 3, sum_x: 30000, sum_y: 90000, sum_x_squared: 300000000, sum_xy: 900000000 };
    assert_eq!(degenerate.estimate(), Ok(None));
    let negative_count =
        Statistics { n: -3, sum_x: 30000, sum_y: 90000, sum_x_squared: 1, sum_xy: 900000000 };
    assert_eq!(negative_count.estimate(), Ok(None));
}

#[test]
fn estimate_reports_a_slope_that_does_not_fit() {
    let steep = Statistics {
        n: 2,
        sum_x: 1,
        sum_y: i64::MAX,
        sum_x_squared: 1,
        sum_xy: i64::MAX,
    };
    assert_eq!(steep.estimate(), Err(ArithmeticFault::Overflow));
}

#[test]
fn fit_batch_agrees_with_training() {
    let samples = [(10000, 31000), (20000, 49000), (30000, 72000), (40000, 88000), (50000, 111000)];
    assert_eq!(fit_batch(&samples), Ok(trained(&samples).model()));
    assert_eq!(fit_batch(&samples), Ok(Some(Model { slope: 19900, intercept: 15392 })));
}

#[test]
fn fit_batch_of_too_few_samples() {
    assert_eq!(fit_batch(&[]), Ok(None));
    assert_eq!(fit_batch(&[(10000, 20000)]), Ok(None));
}

#[test]
fn fit_batch_reports_overflow_of_the_sums() {
    assert_eq!(fit_batch(&[(3037000500, 1), (0, 0)]), Err(ArithmeticFault::Overflow));
    assert_eq!(fit_batch(&[(i64::MAX, 0), (1, 0)]), Err(ArithmeticFault::Overflow));
}

#[test]
fn a_line_with_whole_slope_is_recovered_exactly() {
    // y = -3 x + 1.25, at scattered abscissas.
    let xs = [-70000i64, 12345, 0, 999999, 31, -5];
    let samples: Vec<(i64, i64)> = xs.iter().map(|&x| (x, -3 * x + 12500)).collect();
    let model = trained(&samples).model().unwrap();
    assert_eq!(model.slope, -30000);
    let noise = laplace_mechanism(EPSILON, samples.len() as i64, model.slope).unwrap();
    assert_eq!(model.intercept - noise, 12500);
}

#[test]
fn two_different_abscissas_determine_a_line_for_good() {
    let mut regression = LinearRegression::new();
    regression.train(10000, 5).unwrap();
    regression.train(10000, 7).unwrap();
    assert_eq!(regression.model(), None);
    regression.train(10001, 7).unwrap();
    assert!(regression.model().is_some());
    regression.train(10000, 9).unwrap();
    regression.train(10001, 1).unwrap();
    assert!(regression.model().is_some());
}

#[test]
fn the_slope_is_exact_beyond_128_bits() {
    // Numerator and denominator are near 2^126: scaled, the numerator would
    // not fit in 128 bits, yet the quotient is small.
    let huge = Statistics {
        n: i64::MAX,
        sum_x: 0,
        sum_y: 0,
        sum_x_squared: i64::MAX,
        sum_xy: i64::MAX,
    };
    assert_eq!(huge.estimate(), Ok(Some(Model { slope: 10000, intercept: 0 })));
    let falling = Statistics { sum_xy: -i64::MAX, ..huge };
    assert_eq!(falling.estimate(), Ok(Some(Model { slope: -10000, intercept: 0 })));
    let skewed = Statistics { sum_x: 5, sum_y: 7, ..huge };
    assert_eq!(skewed.estimate(), Ok(Some(Model { slope: 9999, intercept: 0 })));
    let steep = Statistics { n: 2, sum_x: i64::MIN, sum_y: i64::MIN, ..huge };
    assert_eq!(steep.estimate(), Ok(Some(Model { slope: 10000, intercept: 2500 })));
}

#[test]
fn the_intercept_is_narrowed_once_at_the_end() {
    let high = Statistics { n: 2, sum_x: 0, sum_y: i64::MAX, sum_x_squared: 1, sum_xy: 0 };
    assert_eq!(
        high.estimate(),
        Ok(Some(Model { slope: 0, intercept: 4611686018427387903 + 4000 }))
    );
    let low = Statistics { sum_y: i64::MIN, ..high };
    assert_eq!(
        low.estimate(),
        Ok(Some(Model { slope: 0, intercept: -4611686018427387904 + 4000 }))
    );
}
