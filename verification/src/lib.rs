//! Differentially private linear regression in deterministic fixed-point
//! arithmetic, together with the data shaping that surrounds it.
//!
//! The regression is meant to run inside a zero-knowledge virtual machine,
//! which attests that the line it commits was fitted as written here. A host
//! shapes the data, hands it to the machine chunk by chunk, and checks what
//! comes back.
//!
//! On the side of the machine:
//! - [`fixed_point`]: scaled multiplication, division and powers;
//! - [`noise`]: the Laplace mechanism, evaluated in closed form;
//! - [`statistics`]: the running aggregates and the line derived from them;
//! - [`least_squares`]: what that line is worth;
//! - [`regression`]: fitting in a batch and one sample at a time;
//! - [`loader`]: a read-only view of an embedded buffer of records;
//! - [`kernel`]: a whole training run, from the input to the committed line.
//!
//! On the side of the host:
//! - [`ingest`]: samples from comma-separated text;
//! - [`interleave`]: two columns as one alternating sequence;
//! - [`partition`]: that sequence in chunks of whole pairs;
//! - [`orchestrator`]: the order of submitting, verifying and decoding;
//! - [`journal`]: the committed line, read back from a receipt.
//!
//! Nothing here panics and nothing wraps around: what cannot be computed is
//! reported as an error value.

pub mod fixed_point;
pub mod ingest;
pub mod interleave;
pub mod journal;
pub mod kernel;
pub mod least_squares;
pub mod loader;
pub mod noise;
pub mod orchestrator;
pub mod partition;
pub mod regression;
pub mod statistics;
