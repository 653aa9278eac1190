//! The training runs that the sandbox executes: from the input as it was
//! handed in, to the line that is committed.
//!
//! The input is either one alternating sequence `x0, y0, x1, y1, ...`, or two
//! columns, or an embedded buffer of records. Each is read in the shape it was
//! written in; an input of another shape is refused.

use vstd::prelude::*;
use crate::fixed_point::ArithmeticFault;
use crate::interleave::interleaved;
use crate::loader::{layout, records_of, LoadError, PairView};
use crate::regression::{
    batch_model, lemma_streamed_fault_stays, streaming_model, LinearRegression,
};
use crate::statistics::{
    lemma_running_statistics_fault_stays, running_statistics, Model, Statistics,
};

verus! {

/// Why a run committed nothing.
#[derive(Clone, Copy, Debug, PartialEq, Eq)]
pub enum KernelError {
    /// The input is not in the shape that the run reads.
    ShapeMismatch,
    /// The embedded buffer was refused.
    Load(LoadError),
    /// The arithmetic left its range.
    Arithmetic(ArithmeticFault),
    /// The samples determine no line.
    Undetermined,
}

/// The pairs that an alternating sequence of even length spells.
pub open spec fn pairs_of(input: Seq<i64>) -> Seq<(i64, i64)> {
    Seq::new(input.len() / 2, |k: int| (input[2 * k], input[2 * k + 1]))
}

/// The two encodings of the input carry the same samples: the pairs of the
/// alternating sequence of two columns are the columns side by side.
pub proof fn lemma_pairs_of_interleaved(xs: Seq<i64>, ys: Seq<i64>)
    requires
        xs.len() == ys.len(),
    ensures
        interleaved(xs, ys).len() % 2 == 0,
        pairs_of(interleaved(xs, ys)) == xs.zip_with(ys),
{
    assert(pairs_of(interleaved(xs, ys)) =~= xs.zip_with(ys));
}

/// What a run commits, given what fitting came to.
pub open spec fn committed(fitted: Result<Option<Model>, ArithmeticFault>) -> Result<
    Model,
    KernelError,
> {
    match fitted {
        Err(fault) => Err(KernelError::Arithmetic(fault)),
        Ok(None) => Err(KernelError::Undetermined),
        Ok(Some(model)) => Ok(model),
    }
}

/// Turns the outcome of fitting into what the run commits.
pub fn commit(fitted: Result<Option<Model>, ArithmeticFault>) -> (r: Result<Model, KernelError>)
    ensures
        r == committed(fitted),
{
    match fitted {
        Err(fault) => Err(KernelError::Arithmetic(fault)),
        Ok(None) => Err(KernelError::Undetermined),
        Ok(Some(model)) => Ok(model),
    }
}

/// Trains on an alternating sequence `x0, y0, x1, y1, ...`, one pair after
/// the other, and commits the line after the last.
pub fn run_interleaved(input: &[i64]) -> (r: Result<Model, KernelError>)
    ensures
        r == if input@.len() % 2 != 0 {
            Err(KernelError::ShapeMismatch)
        } else {
            committed(streaming_model(pairs_of(input@)))
        },
{
    if input.len() % 2 != 0 {
        return Err(KernelError::ShapeMismatch);
    }
    let pairs = input.len() / 2;
    let ghost samples = pairs_of(input@);
    let mut regression = LinearRegression::new();
    let mut pair: usize = 0;
    while pair < pairs
        invariant
            pair <= pairs,
            pairs == input.len() / 2,
            input@.len() % 2 == 0,
            samples == pairs_of(input@),
            regression.wf(),
            regression@ == samples.take(pair as int),
        decreases pairs - pair,
    {
        proof {
            assert(samples.take(pair as int).push(samples[pair as int]) == samples.take(pair + 1));
            lemma_streamed_fault_stays(samples, pair + 1);
        }
        match regression.train(input[2 * pair], input[2 * pair + 1]) {
            Err(fault) => {
                return Err(KernelError::Arithmetic(fault));
            },
            Ok(_) => {},
        }
        pair = pair + 1;
    }
    proof {
        assert(samples.take(pair as int) == samples);
    }
    commit(Ok(regression.model()))
}

/// Trains on two columns, `xs[k]` with `ys[k]`, one pair after the other,
/// and commits the line after the last.
pub fn run_columns(xs: &[i64], ys: &[i64]) -> (r: Result<Model, KernelError>)
    ensures
        r == if xs@.len() != ys@.len() {
            Err(KernelError::ShapeMismatch)
        } else {
            committed(streaming_model(xs@.zip_with(ys@)))
        },
{
    if xs.len() != ys.len() {
        return Err(KernelError::ShapeMismatch);
    }
    let ghost samples = xs@.zip_with(ys@);
    let mut regression = LinearRegression::new();
    let mut row: usize = 0;
    while row < xs.len()
        invariant
            row <= xs.len(),
            xs@.len() == ys@.len(),
            samples == xs@.zip_with(ys@),
            regression.wf(),
            regression@ == samples.take(row as int),
        decreases xs.len() - row,
    {
        proof {
            assert(samples.take(row as int).push(samples[row as int]) == samples.take(row + 1));
            lemma_streamed_fault_stays(samples, row + 1);
        }
        match regression.train(xs[row], ys[row]) {
            Err(fault) => {
                return Err(KernelError::Arithmetic(fault));
            },
            Ok(_) => {},
        }
        row = row + 1;
    }
    proof {
        assert(samples.take(row as int) == samples);
    }
    commit(Ok(regression.model()))
}

/// Fits a line to the `records` records of an embedded buffer that lies at
/// `address`: the aggregates are formed over the whole array, and the line is
/// derived from them once.
pub fn run_embedded(bytes: &[u8], address: usize, records: usize) -> (r: Result<
    Model,
    KernelError,
>)
    ensures
        r == match layout(bytes@.len(), address as nat, records as nat) {
            Err(error) => Err(KernelError::Load(error)),
            Ok(_) => committed(batch_model(records_of(bytes@))),
        },
{
    let view = match PairView::new(bytes, address, records) {
        Err(error) => {
            return Err(KernelError::Load(error));
        },
        Ok(view) => view,
    };
    let mut statistics = Statistics::new();
    let mut record: usize = 0;
    while record < view.len()
        invariant
            view.wf(),
            view@ == records_of(bytes@),
            record <= view@.len(),
            layout(bytes@.len(), address as nat, records as nat) is Ok,
            running_statistics(view@.take(record as int)) == Ok::<Statistics, ArithmeticFault>(
                statistics,
            ),
        decreases view@.len() - record,
    {
        let (x, y) = view.get(record);
        proof {
            assert(view@.take(record + 1).drop_last() == view@.take(record as int));
            lemma_running_statistics_fault_stays(view@, record + 1);
        }
        statistics = match statistics.add(x, y) {
            Err(fault) => {
                return Err(KernelError::Arithmetic(fault));
            },
            Ok(next) => next,
        };
        record = record + 1;
    }
    proof {
        assert(view@.take(record as int) == view@);
    }
    commit(statistics.estimate())
}

} // verus!
