//! The failure taxonomy. Every failure is unrecoverable for the current
//! run: the engine returns it to the caller instead of retrying or skipping.

use vstd::prelude::*;

verus! {

/// Why an ingestion, admin, or pairing step failed. Each variant carries
/// enough context (the offending name or token) for the operator to correct
/// the input and re-run.
#[derive(Debug)]
pub enum TournamentError {
    /// A record references a name not in the registry, or a disabled
    /// contestant where an enabled one is required (and the reverse).
    UnknownContestant(String),
    /// An add command names a contestant that already exists.
    DuplicateContestant(String),
    /// An enable command names a contestant that is already enabled.
    AlreadyEnabled(String),
    /// A result token outside the recognized win/draw/loss set.
    InvalidOutcome(String),
    /// Pairing cannot satisfy the history-exclusion constraint for the
    /// named contestant.
    NoAvailableOpponent(String),
    /// No enabled contestants to pair.
    EmptyRoster,
}

} // verus!
