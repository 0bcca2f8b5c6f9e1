//! The per-contestant scoring state and its basic derived quantities.

use vstd::prelude::*;

verus! {

/// One tournament participant. Counters are mutated only by result
/// ingestion and admin commands; `tiebreak` is recomputed on demand.
#[derive(Debug)]
pub struct Contestant {
    /// Unique identifier, stable across the run.
    pub name: String,
    pub wins: u32,
    pub draws: u32,
    pub losses: u32,
    /// Rounds in which this contestant received an automatic win.
    pub byes: u32,
    /// Sum of game points (win=2, draw=1, loss=0) of every opponent in
    /// `history`, read from the opponents' current totals.
    pub tiebreak: u64,
    /// Names of opponents already played; membership only, no duplicates.
    pub history: Vec<String>,
    /// Disabled contestants are excluded from pairing and scoring rounds.
    pub enabled: bool,
}

/// Match points: the primary ranking score, `2*wins + draws`.
pub open spec fn spec_match_points(c: Contestant) -> int {
    2 * c.wins + c.draws
}

/// Games played so far; a bye counts as a win and so counts here too.
pub open spec fn spec_games_played(c: Contestant) -> int {
    c.wins + c.draws + c.losses
}

/// Whether `name` is in the contestant's opponent history.
pub open spec fn spec_in_history(c: Contestant, name: Seq<char>) -> bool {
    exists|i: int| 0 <= i < c.history@.len() && c.history@[i]@ == name
}

/// Well-formed contestant: the history holds no duplicates and never the
/// contestant's own name.
pub open spec fn contestant_wf(c: Contestant) -> bool {
    &&& forall|i: int, j: int|
        0 <= i < j < c.history@.len() ==> c.history@[i]@ != c.history@[j]@
    &&& !spec_in_history(c, c.name@)
}

impl Contestant {
    /// A fresh contestant with the given name and counters, empty history,
    /// no byes, enabled.
    pub fn with_counters(name: String, wins: u32, draws: u32, losses: u32) -> (r: Contestant)
        ensures
            r.name == name,
            r.wins == wins,
            r.draws == draws,
            r.losses == losses,
            r.byes == 0,
            r.tiebreak == 0,
            r.history@ == Seq::<String>::empty(),
            r.enabled,
            contestant_wf(r),
    {
        Contestant {
            name,
            wins,
            draws,
            losses,
            byes: 0,
            tiebreak: 0,
            history: Vec::new(),
            enabled: true,
        }
    }

    /// A fresh contestant from the initial roster: all counters zero.
    pub fn new(name: String) -> (r: Contestant)
        ensures
            r.name == name,
            r.wins == 0 && r.draws == 0 && r.losses == 0 && r.byes == 0,
            r.tiebreak == 0,
            r.history@ == Seq::<String>::empty(),
            r.enabled,
            contestant_wf(r),
    {
        Contestant::with_counters(name, 0, 0, 0)
    }

    /// Match points, `2*wins + draws`.
    pub fn match_points(&self) -> (r: u64)
        ensures
            r == spec_match_points(*self),
    {
        2 * (self.wins as u64) + (self.draws as u64)
    }

    /// Number of games recorded for this contestant (byes included).
    pub fn games_played(&self) -> (r: u64)
        ensures
            r == spec_games_played(*self),
    {
        (self.wins as u64) + (self.draws as u64) + (self.losses as u64)
    }

    /// Whether this contestant has already played `name`.
    pub fn has_played(&self, name: &String) -> (r: bool)
        ensures
            r == spec_in_history(*self, name@),
    {
        let mut i: usize = 0;
        while i < self.history.len()
            invariant
                0 <= i <= self.history@.len(),
                forall|k: int| 0 <= k < i ==> self.history@[k]@ != name@,
            decreases self.history@.len() - i,
        {
            if self.history[i] == *name {
                return true;
            }
            i = i + 1;
        }
        false
    }
}

} // verus!
