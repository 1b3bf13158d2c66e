//! Stop-cause classification for the end of an assistant turn.
//!
//! When an assistant's turn ends, the host asks whether the session should
//! really halt. This library answers from the tail of the session transcript:
//! it reads the most recent lines, runs an ordered chain of detectors over
//! them, and turns the outcome into either a "block and continue" action or
//! nothing at all (the stop is allowed).
//!
//! - [`tail`]: which part of the transcript is read, and the lines in it.
//! - [`line`]: one transcript line and the fields read from its JSON.
//! - [`classify`]: what a single value (error type, status, text) stands for.
//! - [`detect`]: the five detectors and their chain.
//! - [`policy`]: from an outcome, or from an arbitration verdict, to the action.
//! - [`verdict`]: recovery of a verdict from the reply of an arbitrating model.
//! - [`guarantees`]: what holds of the chain for every transcript.
//! - [`cause`], [`text`], [`json`]: the taxonomy, text primitives, and the JSON
//!   parser behind its contracts.

pub mod cause;
pub mod text;
pub mod json;
pub mod classify;
pub mod line;
pub mod detect;
pub mod policy;
pub mod tail;
pub mod guarantees;
pub mod verdict;
