//! The host's side of a run: what to ask of the engine next, and what becomes
//! of the run on each answer.
//!
//! Every chunk is submitted, its receipt is verified, and its committed
//! output is decoded, in that order, one chunk after the other. The first
//! failure ends the run: nothing is retried, and a failed run releases no
//! output.

use vstd::prelude::*;
use crate::statistics::Model;

verus! {

/// Why a run was given up.
#[derive(Clone, Copy, Debug, PartialEq, Eq)]
pub enum RunError {
    /// The engine could not execute a chunk.
    Execution,
    /// A receipt did not verify.
    Verification,
    /// A committed output was not in the expected layout.
    Decode,
    /// The engine answered something that had not been asked.
    OutOfOrder,
}

/// What the run waits for.
#[derive(Clone, Copy, Debug, PartialEq, Eq)]
pub enum Stage {
    /// The receipt of the current chunk.
    Submitting,
    /// The verdict on that receipt.
    Verifying,
    /// The output that the receipt commits to.
    Decoding,
    /// Nothing: every chunk is done.
    Finished,
    /// Nothing: the run was given up.
    Failed(RunError),
}

/// What the engine answered. Durations are in microseconds.
#[derive(Clone, Copy, Debug, PartialEq, Eq)]
pub enum Event {
    /// A chunk was executed and proved.
    Submitted { micros: u64 },
    /// A chunk could not be executed.
    SubmitFailed,
    /// A receipt was checked, and was valid or not.
    Verified { valid: bool, micros: u64 },
    /// An output was decoded.
    Decoded(Model),
    /// An output could not be decoded.
    DecodeFailed,
}

/// What to ask of the engine next.
#[derive(Clone, Copy, Debug, PartialEq, Eq)]
pub enum Action {
    /// Execute and prove this chunk.
    Submit { chunk: usize },
    /// Verify the receipt of this chunk.
    Verify { chunk: usize },
    /// Decode the output of this chunk.
    Decode { chunk: usize },
    /// Report the run: it is complete.
    Finish,
    /// Stop: the run has failed.
    Abort(RunError),
}

/// What one chunk came to.
#[derive(Clone, Copy, Debug, PartialEq, Eq)]
pub struct ChunkReport {
    /// Time it took to execute and prove the chunk, in microseconds.
    pub proving_micros: u64,
    /// Time it took to verify the receipt, in microseconds.
    pub verification_micros: u64,
    /// The line that the chunk committed.
    pub output: Model,
}

/// The sum of the proving times of `reports`.
pub open spec fn total_proving(reports: Seq<ChunkReport>) -> nat
    decreases reports.len(),
{
    if reports.len() == 0 {
        0
    } else {
        total_proving(reports.drop_last()) + reports.last().proving_micros as nat
    }
}

/// The sum of the verification times of `reports`.
pub open spec fn total_verification(reports: Seq<ChunkReport>) -> nat
    decreases reports.len(),
{
    if reports.len() == 0 {
        0
    } else {
        total_verification(reports.drop_last()) + reports.last().verification_micros as nat
    }
}

/// A run as far as its contracts speak of it.
pub struct RunState {
    /// Number of chunks in the run.
    pub chunks: nat,
    /// What the run waits for.
    pub stage: Stage,
    /// The chunks that are done, in order.
    pub reports: Seq<ChunkReport>,
    /// Proving time of the chunk in hand, once it is known.
    pub proving_micros: u64,
    /// Verification time of the chunk in hand, once it is known.
    pub verification_micros: u64,
}

impl RunState {
    /// The stage of a run in which `done` of `chunks` chunks are done and
    /// nothing is in hand.
    pub open spec fn stage_between_chunks(chunks: nat, done: nat) -> Stage {
        if done < chunks {
            Stage::Submitting
        } else {
            Stage::Finished
        }
    }

    /// A run of `chunks` chunks before anything was asked.
    pub open spec fn start(chunks: nat) -> RunState {
        RunState {
            chunks,
            stage: Self::stage_between_chunks(chunks, 0),
            reports: Seq::empty(),
            proving_micros: 0,
            verification_micros: 0,
        }
    }

    /// The run with its stage replaced.
    pub open spec fn at(self, stage: Stage) -> RunState {
        RunState { stage, ..self }
    }

    /// What the run becomes on `event`. An answer to what was asked moves the
    /// run on; a failure, an invalid receipt, or an answer to anything else
    /// fails it. A run that is finished or has failed stays as it is.
    pub open spec fn step(self, event: Event) -> RunState {
        match (self.stage, event) {
            (Stage::Finished, _) => self,
            (Stage::Failed(_), _) => self,
            (Stage::Submitting, Event::Submitted { micros }) => RunState {
                stage: Stage::Verifying,
                proving_micros: micros,
                ..self
            },
            (Stage::Submitting, Event::SubmitFailed) => self.at(Stage::Failed(RunError::Execution)),
            (Stage::Verifying, Event::Verified { valid, micros }) => if valid {
                RunState { stage: Stage::Decoding, verification_micros: micros, ..self }
            } else {
                self.at(Stage::Failed(RunError::Verification))
            },
            (Stage::Decoding, Event::Decoded(output)) => {
                let reports = self.reports.push(
                    ChunkReport {
                        proving_micros: self.proving_micros,
                        verification_micros: self.verification_micros,
                        output,
                    },
                );
                RunState {
                    stage: Self::stage_between_chunks(self.chunks, reports.len()),
                    reports,
                    ..self
                }
            },
            (Stage::Decoding, Event::DecodeFailed) => self.at(Stage::Failed(RunError::Decode)),
            _ => self.at(Stage::Failed(RunError::OutOfOrder)),
        }
    }

    /// What the run asks for.
    pub open spec fn action(self) -> Action {
        match self.stage {
            Stage::Submitting => Action::Submit { chunk: self.reports.len() as usize },
            Stage::Verifying => Action::Verify { chunk: self.reports.len() as usize },
            Stage::Decoding => Action::Decode { chunk: self.reports.len() as usize },
            Stage::Finished => Action::Finish,
            Stage::Failed(error) => Action::Abort(error),
        }
    }

    /// No more chunks are done than the run has; in a finished run every
    /// chunk is done, and while the run waits for the engine one is still
    /// open.
    pub open spec fn consistent(self) -> bool {
        &&& self.reports.len() <= self.chunks
        &&& self.stage == Stage::Finished ==> self.reports.len() == self.chunks
        &&& (self.stage == Stage::Submitting || self.stage == Stage::Verifying || self.stage
            == Stage::Decoding) ==> self.reports.len() < self.chunks
    }
}

/// A failure is final: whatever the engine answers afterwards, the run stays
/// failed with the same error, and the chunks that were done stay as they
/// were.
pub proof fn lemma_failure_is_final(run: RunState, event: Event)
    requires
        run.stage is Failed,
    ensures
        run.step(event) == run,
{
}

/// Consistency is kept by every step.
pub proof fn lemma_step_keeps_consistency(run: RunState, event: Event)
    requires
        run.consistent(),
    ensures
        run.step(event).consistent(),
{
}

/// One chunk that is proved, found valid and decoded adds one report, with
/// the two times and the output that the engine gave, and nothing else.
pub proof fn lemma_chunk_done(
    run: RunState,
    proving_micros: u64,
    verification_micros: u64,
    output: Model,
)
    requires
        run.consistent(),
        run.stage == Stage::Submitting,
    ensures
        run.step(Event::Submitted { micros: proving_micros }).step(
            Event::Verified { valid: true, micros: verification_micros },
        ).step(Event::Decoded(output)).reports == run.reports.push(
            ChunkReport { proving_micros, verification_micros, output },
        ),
        run.step(Event::Submitted { micros: proving_micros }).step(
            Event::Verified { valid: true, micros: verification_micros },
        ).step(Event::Decoded(output)).stage == RunState::stage_between_chunks(
            run.chunks,
            run.reports.len() + 1,
        ),
{
}

/// The run after the chunks `done`, each of them proved, found valid and
/// decoded in turn.
pub open spec fn after_chunks(chunks: nat, done: Seq<ChunkReport>) -> RunState
    decreases done.len(),
{
    if done.len() == 0 {
        RunState::start(chunks)
    } else {
        after_chunks(chunks, done.drop_last()).step(
            Event::Submitted { micros: done.last().proving_micros },
        ).step(Event::Verified { valid: true, micros: done.last().verification_micros }).step(
            Event::Decoded(done.last().output),
        )
    }
}

/// A run in which every answer is good holds one report for each chunk that
/// was answered, in order, and is finished when the last chunk is.
pub proof fn lemma_good_answers_complete_the_run(chunks: nat, done: Seq<ChunkReport>)
    requires
        done.len() <= chunks,
    ensures
        after_chunks(chunks, done).consistent(),
        after_chunks(chunks, done).chunks == chunks,
        after_chunks(chunks, done).reports == done,
        after_chunks(chunks, done).stage == RunState::stage_between_chunks(chunks, done.len()),
        done.len() == chunks ==> after_chunks(chunks, done).stage == Stage::Finished,
    decreases done.len(),
{
    if done.len() > 0 {
        let before = done.drop_last();
        let last = done.last();
        lemma_good_answers_complete_the_run(chunks, before);
        lemma_chunk_done(
            after_chunks(chunks, before),
            last.proving_micros,
            last.verification_micros,
            last.output,
        );
        assert(before.push(last) == done);
    }
}

/// A receipt that is not valid fails the run at once, and the chunks that
/// were done before it stay as they were.
pub proof fn lemma_invalid_receipt_fails_the_run(run: RunState, micros: u64)
    requires
        run.stage == Stage::Verifying,
    ensures
        run.step(Event::Verified { valid: false, micros }).stage == Stage::Failed(
            RunError::Verification,
        ),
        run.step(Event::Verified { valid: false, micros }).reports == run.reports,
{
}

/// The grand totals of a run.
#[derive(Clone, Copy, Debug, PartialEq, Eq)]
pub struct Totals {
    /// Number of chunks that are done.
    pub chunks: usize,
    /// Their proving times together, in microseconds.
    pub proving_micros: u128,
    /// Their verification times together, in microseconds.
    pub verification_micros: u128,
}

impl Totals {
    /// The verification time of one chunk on average, in whole microseconds;
    /// nothing while no chunk is done.
    pub open spec fn mean_verification(self) -> Option<u128> {
        if self.chunks == 0 {
            None
        } else {
            Some(self.verification_micros / self.chunks as u128)
        }
    }

    /// The verification time of one chunk on average.
    pub fn mean_verification_micros(&self) -> (r: Option<u128>)
        ensures
            r == self.mean_verification(),
    {
        if self.chunks == 0 {
            None
        } else {
            Some(self.verification_micros / self.chunks as u128)
        }
    }
}

/// Neither total exceeds what so many chunks can take at most.
pub proof fn lemma_totals_bounded(reports: Seq<ChunkReport>)
    ensures
        total_proving(reports) <= reports.len() * u64::MAX,
        total_verification(reports) <= reports.len() * u64::MAX,
    decreases reports.len(),
{
    if reports.len() > 0 {
        lemma_totals_bounded(reports.drop_last());
        assert(reports.len() * u64::MAX == (reports.len() - 1) * u64::MAX + u64::MAX)
            by (nonlinear_arith);
    }
}

/// A run over a fixed number of chunks.
pub struct Run {
    chunks: usize,
    stage: Stage,
    reports: Vec<ChunkReport>,
    proving_micros: u64,
    verification_micros: u64,
    total_proving: u128,
    total_verification: u128,
}

impl View for Run {
    type V = RunState;

    closed spec fn view(&self) -> RunState {
        RunState {
            chunks: self.chunks as nat,
            stage: self.stage,
            reports: self.reports@,
            proving_micros: self.proving_micros,
            verification_micros: self.verification_micros,
        }
    }
}

impl Run {
    /// The run is consistent, and the totals kept are those of its reports.
    pub closed spec fn wf(&self) -> bool {
        &&& self@.consistent()
        &&& self.total_proving == total_proving(self.reports@)
        &&& self.total_verification == total_verification(self.reports@)
    }

    /// A well-formed run is consistent.
    pub proof fn lemma_wf_is_consistent(&self)
        requires
            self.wf(),
        ensures
            self@.consistent(),
    {
    }

    /// A run over `chunks` chunks, of which none is done.
    pub fn new(chunks: usize) -> (r: Run)
        ensures
            r.wf(),
            r@ == RunState::start(chunks as nat),
    {
        Run {
            chunks,
            stage: if chunks > 0 {
                Stage::Submitting
            } else {
                Stage::Finished
            },
            reports: Vec::new(),
            proving_micros: 0,
            verification_micros: 0,
            total_proving: 0,
            total_verification: 0,
        }
    }

    /// What to ask of the engine now.
    pub fn action(&self) -> (r: Action)
        requires
            self.wf(),
        ensures
            r == self@.action(),
    {
        match self.stage {
            Stage::Submitting => Action::Submit { chunk: self.reports.len() },
            Stage::Verifying => Action::Verify { chunk: self.reports.len() },
            Stage::Decoding => Action::Decode { chunk: self.reports.len() },
            Stage::Finished => Action::Finish,
            Stage::Failed(error) => Action::Abort(error),
        }
    }

    /// Takes the engine's answer in, and says what to ask next.
    pub fn advance(&mut self, event: Event) -> (r: Action)
        requires
            old(self).wf(),
        ensures
            final(self).wf(),
            final(self)@ == old(self)@.step(event),
            r == final(self)@.action(),
    {
        match (self.stage, event) {
            (Stage::Finished, _) => {},
            (Stage::Failed(_), _) => {},
            (Stage::Submitting, Event::Submitted { micros }) => {
                self.stage = Stage::Verifying;
                self.proving_micros = micros;
            },
            (Stage::Submitting, Event::SubmitFailed) => {
                self.stage = Stage::Failed(RunError::Execution);
            },
            (Stage::Verifying, Event::Verified { valid, micros }) => {
                if valid {
                    self.stage = Stage::Decoding;
                    self.verification_micros = micros;
                } else {
                    self.stage = Stage::Failed(RunError::Verification);
                }
            },
            (Stage::Decoding, Event::Decoded(output)) => {
                proof {
                    lemma_totals_bounded(self.reports@);
                    assert(self.reports@.len() * u64::MAX + u64::MAX <= usize::MAX * u64::MAX
                        + u64::MAX) by (nonlinear_arith)
                        requires
                            self.reports@.len() <= usize::MAX,
                    ;
                }
                let report = ChunkReport {
                    proving_micros: self.proving_micros,
                    verification_micros: self.verification_micros,
                    output,
                };
                self.total_proving = self.total_proving + self.proving_micros as u128;
                self.total_verification = self.total_verification + self.verification_micros as u128;
                self.reports.push(report);
                proof {
                    assert(self.reports@.drop_last() == old(self).reports@);
                }
                self.stage = if self.reports.len() < self.chunks {
                    Stage::Submitting
                } else {
                    Stage::Finished
                };
            },
            (Stage::Decoding, Event::DecodeFailed) => {
                self.stage = Stage::Failed(RunError::Decode);
            },
            _ => {
                self.stage = Stage::Failed(RunError::OutOfOrder);
            },
        }
        self.action()
    }

    /// What the run waits for.
    pub fn stage(&self) -> (r: Stage)
        ensures
            r == self@.stage,
    {
        self.stage
    }

    /// The reports of all chunks, once the run is finished. Until then, and
    /// after a failure, there is nothing to have.
    pub fn reports(&self) -> (r: Option<&Vec<ChunkReport>>)
        requires
            self.wf(),
        ensures
            match r {
                Some(reports) => self@.stage == Stage::Finished && reports@ == self@.reports
                    && reports@.len() == self@.chunks,
                None => self@.stage != Stage::Finished,
            },
    {
        match self.stage {
            Stage::Finished => Some(&self.reports),
            _ => None,
        }
    }

    /// The totals over the chunks that are done.
    pub fn totals(&self) -> (r: Totals)
        requires
            self.wf(),
        ensures
            r.chunks == self@.reports.len(),
            r.proving_micros == total_proving(self@.reports),
            r.verification_micros == total_verification(self@.reports),
    {
        Totals {
            chunks: self.reports.len(),
            proving_micros: self.total_proving,
            verification_micros: self.total_verification,
        }
    }
}

} // verus!
