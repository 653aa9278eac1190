//! Reading the committed output back out of a receipt's journal.
//!
//! A run commits two scaled numbers, the slope and then the intercept, each
//! of 64 bits: sixteen bytes in all. A journal of any other length was not
//! written by such a run, and is refused before the engine's decoder sees it.

use vstd::prelude::*;
use crate::orchestrator::{Event, RunError};
use crate::statistics::Model;

verus! {

/// Bytes in the journal of a run.
pub const JOURNAL_SIZE: usize = 16;

/// The error of the engine's decoder, `risc0_zkvm::serde::Error`. It is
/// carried through unopened.
#[verifier::external_type_specification]
#[verifier::external_body]
pub struct ExSerdeError(risc0_zkvm::serde::Error);

/// The pair of numbers that the engine's decoder reads from a journal whose
/// length is a whole number of 32-bit words, if it reads one.
pub uninterp spec fn journal_pair(journal: Seq<u8>) -> Option<(i64, i64)>;

/// Calls `risc0_zkvm::serde::from_slice` to read a pair of 64-bit numbers
/// from the bytes of a journal. The decoder takes its input in 32-bit words
/// and aborts on bytes left over, so the length must be a multiple of four.
/// Nothing is claimed of the pair but that it depends on the bytes alone.
#[verifier::external_body]
fn decode_pair(journal: &[u8]) -> (r: Result<(i64, i64), risc0_zkvm::serde::Error>)
    requires
        journal@.len() % 4 == 0,
    ensures
        match r {
            Ok(pair) => journal_pair(journal@) == Some(pair),
            Err(_) => journal_pair(journal@).is_none(),
        },
{
    risc0_zkvm::serde::from_slice::<(i64, i64), u8>(journal)
}

/// The line that a decoded pair stands for, or the decoding error.
pub open spec fn output_from(decoded: Option<(i64, i64)>) -> Result<Model, RunError> {
    match decoded {
        Some((slope, intercept)) => Ok(Model { slope, intercept }),
        None => Err(RunError::Decode),
    }
}

/// The committed output that a journal holds: the journal must have the
/// length of two numbers, and the decoder must read them.
pub open spec fn committed_output(journal: Seq<u8>) -> Result<Model, RunError> {
    if journal.len() != JOURNAL_SIZE {
        Err(RunError::Decode)
    } else {
        output_from(journal_pair(journal))
    }
}

/// Names the decoded pair as slope and intercept.
pub fn output_of(decoded: Option<(i64, i64)>) -> (r: Result<Model, RunError>)
    ensures
        r == output_from(decoded),
{
    match decoded {
        Some((slope, intercept)) => Ok(Model { slope, intercept }),
        None => Err(RunError::Decode),
    }
}

/// Decodes the committed output of a run from the journal of its receipt.
pub fn decode_output(journal: &[u8]) -> (r: Result<Model, RunError>)
    ensures
        r == committed_output(journal@),
        journal@.len() != JOURNAL_SIZE ==> r == Err::<Model, RunError>(RunError::Decode),
{
    if journal.len() != JOURNAL_SIZE {
        return Err(RunError::Decode);
    }
    match decode_pair(journal) {
        Ok(pair) => output_of(Some(pair)),
        Err(_) => output_of(None),
    }
}

/// The answer to hand to the run for a journal: the output, or the failure
/// to decode one.
pub fn decoded_event(journal: &[u8]) -> (r: Event)
    ensures
        r == match committed_output(journal@) {
            Ok(output) => Event::Decoded(output),
            Err(_) => Event::DecodeFailed,
        },
{
    match decode_output(journal) {
        Ok(output) => Event::Decoded(output),
        Err(_) => Event::DecodeFailed,
    }
}

} // verus!
