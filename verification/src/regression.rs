//! Fitting a line to samples, all at once or one sample at a time.
//!
//! A batch fit forms the aggregates over the whole array and derives the line
//! from them once. A streaming regression folds each sample in as it comes
//! and derives the line again after each. Where both succeed they agree.

use vstd::prelude::*;
use crate::fixed_point::ArithmeticFault;
use crate::statistics::{
    lemma_add_describes, lemma_running_statistics_are_exact,
    lemma_running_statistics_fault_stays, running_statistics, Model, Statistics,
};

verus! {

/// The line fitted to `samples` as a whole: the aggregates are formed first,
/// and the line is derived from them once.
pub open spec fn batch_model(samples: Seq<(i64, i64)>) -> Result<Option<Model>, ArithmeticFault> {
    match running_statistics(samples) {
        Err(fault) => Err(fault),
        Ok(statistics) => statistics.model(),
    }
}

/// Fits a line to a whole array of samples at once.
pub fn fit_batch(samples: &[(i64, i64)]) -> (r: Result<Option<Model>, ArithmeticFault>)
    ensures
        r == batch_model(samples@),
{
    let mut statistics = Statistics::new();
    let mut done: usize = 0;
    while done < samples.len()
        invariant
            done <= samples.len(),
            running_statistics(samples@.take(done as int)) == Ok::<Statistics, ArithmeticFault>(
                statistics,
            ),
        decreases samples.len() - done,
    {
        let (x, y) = samples[done];
        proof {
            assert(samples@.take(done + 1).drop_last() == samples@.take(done as int));
            lemma_running_statistics_fault_stays(samples@, done + 1);
        }
        statistics = statistics.add(x, y)?;
        done = done + 1;
    }
    proof {
        assert(samples@.take(done as int) == samples@);
    }
    statistics.estimate()
}

/// What training on one more sample comes to, for a regression whose
/// aggregates are `seen`: the new aggregates, or the fault that stops it. The
/// fault may come from the aggregates or from the line derived from them.
pub open spec fn training(seen: Statistics, x: i64, y: i64) -> Result<Statistics, ArithmeticFault> {
    match seen.with_sample(x, y) {
        Err(fault) => Err(fault),
        Ok(next) => match next.model() {
            Err(fault) => Err(fault),
            Ok(_) => Ok(next),
        },
    }
}

/// The aggregates after training on `samples` one by one, the line being
/// derived after each, or the fault of the first sample on which training
/// fails.
pub open spec fn streamed(samples: Seq<(i64, i64)>) -> Result<Statistics, ArithmeticFault>
    decreases samples.len(),
{
    if samples.len() == 0 {
        Ok(Statistics { n: 0, sum_x: 0, sum_y: 0, sum_x_squared: 0, sum_xy: 0 })
    } else {
        match streamed(samples.drop_last()) {
            Err(fault) => Err(fault),
            Ok(before) => training(before, samples.last().0, samples.last().1),
        }
    }
}

/// The line after training on `samples` one by one.
pub open spec fn streaming_model(samples: Seq<(i64, i64)>) -> Result<
    Option<Model>,
    ArithmeticFault,
> {
    match streamed(samples) {
        Err(fault) => Err(fault),
        Ok(statistics) => statistics.model(),
    }
}

/// Once training has failed on a prefix, it has failed on every longer one,
/// with the same fault.
pub proof fn lemma_streamed_fault_stays(samples: Seq<(i64, i64)>, prefix: int)
    requires
        0 <= prefix <= samples.len(),
    ensures
        streamed(samples.take(prefix)) matches Err(fault) ==> streamed(samples) == Err::<
            Statistics,
            ArithmeticFault,
        >(fault),
    decreases samples.len() - prefix,
{
    if prefix < samples.len() {
        assert(samples.take(prefix + 1).drop_last() == samples.take(prefix));
        lemma_streamed_fault_stays(samples, prefix + 1);
    } else {
        assert(samples.take(prefix) == samples);
    }
}

/// Training that succeeds on every sample ends with the aggregates, and so
/// with the line, of fitting the same samples as a whole.
pub proof fn lemma_streaming_matches_batch(samples: Seq<(i64, i64)>)
    ensures
        streamed(samples) matches Ok(statistics) ==> {
            &&& running_statistics(samples) == Ok::<Statistics, ArithmeticFault>(statistics)
            &&& statistics.describes(samples)
            &&& streaming_model(samples) == batch_model(samples)
        },
    decreases samples.len(),
{
    if samples.len() > 0 {
        lemma_streaming_matches_batch(samples.drop_last());
    }
    lemma_running_statistics_are_exact(samples);
}

/// A regression that is trained one sample at a time. Its view is the
/// sequence of samples it was trained on.
pub struct LinearRegression {
    statistics: Statistics,
    model: Option<Model>,
    samples: Ghost<Seq<(i64, i64)>>,
}

impl View for LinearRegression {
    type V = Seq<(i64, i64)>;

    closed spec fn view(&self) -> Seq<(i64, i64)> {
        self.samples@
    }
}

impl LinearRegression {
    /// The aggregates kept are those of training on the samples seen, which
    /// are their count and their sums, and the line kept is the one that
    /// those aggregates give.
    pub open spec fn wf(&self) -> bool {
        &&& streamed(self@) == Ok::<Statistics, ArithmeticFault>(self.spec_statistics())
        &&& self.spec_statistics().describes(self@)
        &&& self.spec_statistics().model() == Ok::<Option<Model>, ArithmeticFault>(
            self.spec_model(),
        )
    }

    /// The aggregates kept.
    pub closed spec fn spec_statistics(&self) -> Statistics {
        self.statistics
    }

    /// The line kept.
    pub closed spec fn spec_model(&self) -> Option<Model> {
        self.model
    }

    /// A regression that has seen no sample.
    pub fn new() -> (r: LinearRegression)
        ensures
            r.wf(),
            r@ == Seq::<(i64, i64)>::empty(),
    {
        LinearRegression { statistics: Statistics::new(), model: None, samples: Ghost(Seq::empty()) }
    }

    /// Trains on one more sample: folds it into the aggregates and derives
    /// the line again. On a fault the regression is left as it was.
    pub fn train(&mut self, x: i64, y: i64) -> (r: Result<(), ArithmeticFault>)
        requires
            old(self).wf(),
        ensures
            final(self).wf(),
            match r {
                Ok(_) => final(self)@ == old(self)@.push((x, y)),
                Err(fault) => {
                    &&& streamed(old(self)@.push((x, y))) == Err::<Statistics, ArithmeticFault>(
                        fault,
                    )
                    &&& *final(self) == *old(self)
                },
            },
    {
        proof {
            assert(self@.push((x, y)).drop_last() == self@);
            lemma_add_describes(self.statistics, self@, x, y);
        }
        let statistics = self.statistics.add(x, y)?;
        let model = statistics.estimate()?;
        self.statistics = statistics;
        self.model = model;
        self.samples = Ghost(self.samples@.push((x, y)));
        Ok(())
    }

    /// The count and the sums of the samples seen.
    #[verifier::when_used_as_spec(spec_statistics)]
    pub fn statistics(&self) -> (r: Statistics)
        requires
            self.wf(),
        ensures
            r == self.spec_statistics(),
            r.describes(self@),
    {
        self.statistics
    }

    /// The line through the samples seen, or `None` while none is determined.
    #[verifier::when_used_as_spec(spec_model)]
    pub fn model(&self) -> (r: Option<Model>)
        requires
            self.wf(),
        ensures
            r == self.spec_model(),
            streaming_model(self@) == Ok::<Option<Model>, ArithmeticFault>(r),
    {
        self.model
    }
}

} // verus!
