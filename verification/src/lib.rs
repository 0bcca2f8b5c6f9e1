//! Swiss-system tournament pairing engine.
//!
//! Given a roster of contestants and a log of completed game results, the
//! library maintains per-contestant scoring state (wins, draws, losses, byes,
//! opponent history), computes a Buchholz-style tiebreak, and produces the
//! next round's matchups while avoiding repeat pairings and keeping players
//! grouped by similar performance.

pub mod contestant;
pub mod errors;
pub mod registry;
pub mod ingest;
pub mod tiebreak;
pub mod pairing;
pub mod standings;
pub mod shuffle;
