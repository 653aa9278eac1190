use dp_regression::orchestrator::{Action, ChunkReport, Event, Run, RunError, Stage, Totals};
use dp_regression::statistics::Model;

const LINE: Model = Model { slope: 20000, intercept: 2857 };

fn finish_chunk(run: &mut Run, proving: u64, verifying: u64, output: Model) -> Action {
    run.advance(Event::Submitted { micros: proving });
    run.advance(Event::Verified { valid: true, micros: verifying });
    run.advance(Event::Decoded(output))
}

#[test]
fn a_run_asks_for_each_step_in_turn() {
    let mut run = Run::new(2);
    assert_eq!(run.stage(), Stage::Submitting);
    assert_eq!(run.action(), Action::Submit { chunk: 0 });
    assert_eq!(run.advance(Event::Submitted { micros: 900 }), Action::Verify { chunk: 0 });
    assert_eq!(run.advance(Event::Verified { valid: true, micros: 7 }), Action::Decode { chunk: 0 });
    assert_eq!(run.advance(Event::Decoded(LINE)), Action::Submit { chunk: 1 });
    assert_eq!(run.advance(Event::Submitted { micros: 800 }), Action::Verify { chunk: 1 });
    assert_eq!(run.advance(Event::Verified { valid: true, micros: 9 }), Action::Decode { chunk: 1 });
    assert_eq!(run.advance(Event::Decoded(LINE)), Action::Finish);
    assert_eq!(run.stage(), Stage::Finished);
}

#[test]
fn a_run_without_chunks_is_finished() {
    let run = Run::new(0);
    assert_eq!(run.action(), Action::Finish);
    assert_eq!(run.reports(), Some(&vec![]));
    assert_eq!(run.totals(), Totals { chunks: 0, proving_micros: 0, verification_micros: 0 });
}

#[test]
fn a_finished_run_reports_every_chunk() {
    let mut run = Run::new(3);
    let other = Model { slope: -5, intercept: 6 };
    finish_chunk(&mut run, 100, 1, LINE);
    finish_chunk(&mut run, 200, 2, other);
    assert_eq!(finish_chunk(&mut run, 300, 3, LINE), Action::Finish);
    assert_eq!(
        run.reports(),
        Some(&vec![
            ChunkReport { proving_micros: 100, verification_micros: 1, output: LINE },
            ChunkReport { proving_micros: 200, verification_micros: 2, output: other },
            ChunkReport { proving_micros: 300, verification_micros: 3, output: LINE },
        ])
    );
    assert_eq!(run.totals(), Totals { chunks: 3, proving_micros: 600, verification_micros: 6 });
}

#[test]
fn an_unfinished_run_releases_nothing() {
    let mut run = Run::new(2);
    assert_eq!(run.reports(), None);
    finish_chunk(&mut run, 100, 1, LINE);
    assert_eq!(run.reports(), None);
    assert_eq!(run.totals(), Totals { chunks: 1, proving_micros: 100, verification_micros: 1 });
}

#[test]
fn a_failed_submission_ends_the_run() {
    let mut run = Run::new(2);
    assert_eq!(run.advance(Event::SubmitFailed), Action::Abort(RunError::Execution));
    assert_eq!(run.stage(), Stage::Failed(RunError::Execution));
    assert_eq!(run.reports(), None);
}

#[test]
fn an_invalid_receipt_ends_the_run() {
    let mut run = Run::new(2);
    finish_chunk(&mut run, 100, 1, LINE);
    run.advance(Event::Submitted { micros: 5 });
    assert_eq!(
        run.advance(Event::Verified { valid: false, micros: 3 }),
        Action::Abort(RunError::Verification)
    );
    assert_eq!(run.reports(), None);
}

#[test]
fn a_failed_decoding_ends_the_run() {
    let mut run = Run::new(1);
    run.advance(Event::Submitted { micros: 5 });
    run.advance(Event::Verified { valid: true, micros: 3 });
    assert_eq!(run.advance(Event::DecodeFailed), Action::Abort(RunError::Decode));
}

#[test]
fn a_failure_is_final() {
    let mut run = Run::new(2);
    run.advance(Event::SubmitFailed);
    for event in [
        Event::Submitted { micros: 1 },
        Event::SubmitFailed,
        Event::Verified { valid: true, micros: 1 },
        Event::Decoded(LINE),
        Event::DecodeFailed,
    ] {
        assert_eq!(run.advance(event), Action::Abort(RunError::Execution));
    }
    assert_eq!(run.totals(), Totals { chunks: 0, proving_micros: 0, verification_micros: 0 });
}

#[test]
fn an_answer_out_of_turn_ends_the_run() {
    let mut run = Run::new(1);
    assert_eq!(run.advance(Event::Decoded(LINE)), Action::Abort(RunError::OutOfOrder));
    let mut run = Run::new(1);
    run.advance(Event::Submitted { micros: 1 });
    assert_eq!(run.advance(Event::Submitted { micros: 1 }), Action::Abort(RunError::OutOfOrder));
    let mut run = Run::new(1);
    run.advance(Event::Submitted { micros: 1 });
    run.advance(Event::Verified { valid: true, micros: 1 });
    assert_eq!(
        run.advance(Event::Verified { valid: true, micros: 1 }),
        Action::Abort(RunError::OutOfOrder)
    );
}

#[test]
fn a_finished_run_stays_finished() {
    let mut run = Run::new(1);
    finish_chunk(&mut run, 100, 1, LINE);
    assert_eq!(run.advance(Event::SubmitFailed), Action::Finish);
    assert_eq!(run.advance(Event::Submitted { micros: 4 }), Action::Finish);
    assert_eq!(run.totals(), Totals { chunks: 1, proving_micros: 100, verification_micros: 1 });
}

#[test]
fn totals_do_not_wrap() {
    let mut run = Run::new(3);
    finish_chunk(&mut run, u64::MAX, u64::MAX, LINE);
    finish_chunk(&mut run, u64::MAX, 1, LINE);
    assert_eq!(
        run.totals(),
        Totals {
            chunks: 2,
            proving_micros: 2 * (u64::MAX as u128),
            verification_micros: u64::MAX as u128 + 1,
        }
    );
}

#[test]
fn mean_verification_time() {
    let mut run = Run::new(3);
    assert_eq!(run.totals().mean_verification_micros(), None);
    finish_chunk(&mut run, 100, 10, LINE);
    finish_chunk(&mut run, 100, 15, LINE);
    assert_eq!(run.totals().mean_verification_micros(), Some(12));
    finish_chunk(&mut run, 100, 17, LINE);
    assert_eq!(run.totals().mean_verification_micros(), Some(14));
}
