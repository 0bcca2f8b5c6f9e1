//! The contestant registry: the mutable per-contestant scoring state, with
//! name lookup and the admin commands (add, disable, enable).

use vstd::prelude::*;

use crate::contestant::{Contestant, contestant_wf, spec_in_history};
use crate::errors::TournamentError;

verus! {

/// Holds every contestant of the run, enabled or not. Contestants are never
/// deleted, only disabled.
#[derive(Debug)]
pub struct Registry {
    pub contestants: Vec<Contestant>,
}

/// An out-of-band admin record, decoded at the boundary: the core operates
/// on this variant type, never on raw text.
#[derive(Debug)]
pub enum AdminCommand {
    /// Add a new contestant with the given seed counters.
    Add { name: String, wins: u32, draws: u32, losses: u32 },
    /// Exclude a contestant from pairing and scoring; it stays in the
    /// registry for a possible re-enable.
    Disable { name: String },
    /// Re-enable a disabled contestant, replacing its counters with the
    /// given seed values.
    Enable { name: String, wins: u32, draws: u32, losses: u32 },
}

/// No two contestants share a name.
pub open spec fn names_unique(reg: Seq<Contestant>) -> bool {
    forall|i: int, j: int| 0 <= i < j < reg.len() ==> reg[i].name@ != reg[j].name@
}

/// Some contestant carries this name.
pub open spec fn spec_has_name(reg: Seq<Contestant>, name: Seq<char>) -> bool {
    exists|i: int| 0 <= i < reg.len() && reg[i].name@ == name
}

/// The index of the first contestant with this name (meaningful only when
/// `spec_has_name` holds).
pub open spec fn spec_index_of(reg: Seq<Contestant>, name: Seq<char>) -> int
    decreases reg.len(),
{
    if reg.len() == 0 {
        0
    } else if reg[0].name@ == name {
        0
    } else {
        1 + spec_index_of(reg.drop_first(), name)
    }
}

/// Every contestant is well formed and names are unique.
pub open spec fn registry_wf(reg: Seq<Contestant>) -> bool {
    &&& names_unique(reg)
    &&& forall|i: int| 0 <= i < reg.len() ==> contestant_wf(#[trigger] reg[i])
}

/// Opponent histories are mutually consistent: if A's history holds B's
/// name, then B's history holds A's name.
pub open spec fn spec_symmetric(reg: Seq<Contestant>) -> bool {
    forall|i: int, j: int|
        0 <= i < reg.len() && 0 <= j < reg.len() && spec_in_history(
            #[trigger] reg[i],
            (#[trigger] reg[j]).name@,
        ) ==> spec_in_history(reg[j], reg[i].name@)
}

/// `spec_index_of` really is the first index with the name, when the name
/// is present at all.
pub proof fn lemma_index_of(reg: Seq<Contestant>, name: Seq<char>)
    requires
        spec_has_name(reg, name),
    ensures
        0 <= spec_index_of(reg, name) < reg.len(),
        reg[spec_index_of(reg, name)].name@ == name,
        forall|j: int| 0 <= j < spec_index_of(reg, name) ==> reg[j].name@ != name,
    decreases reg.len(),
{
    if reg.len() > 0 && reg[0].name@ != name {
        let sub = reg.drop_first();
        assert(spec_has_name(sub, name)) by {
            let i = choose|i: int| 0 <= i < reg.len() && reg[i].name@ == name;
            assert(sub[i - 1].name@ == name);
        }
        lemma_index_of(sub, name);
        assert forall|j: int| 0 <= j < spec_index_of(reg, name) implies reg[j].name@ != name by {
            if j > 0 {
                assert(sub[j - 1].name@ != name);
            }
        }
    }
}

/// What a successful or failed add leaves behind.
pub open spec fn add_effect(
    pre: Seq<Contestant>,
    post: Seq<Contestant>,
    r: Result<(), TournamentError>,
    name: String,
    wins: u32,
    draws: u32,
    losses: u32,
) -> bool {
    if spec_has_name(pre, name@) {
        &&& (r matches Err(TournamentError::DuplicateContestant(n)) && n == name)
        &&& post == pre
    } else {
        &&& r is Ok
        &&& post.len() == pre.len() + 1
        &&& post.take(pre.len() as int) == pre
        &&& post.last().name == name
        &&& post.last().wins == wins
        &&& post.last().draws == draws
        &&& post.last().losses == losses
        &&& post.last().byes == 0
        &&& post.last().tiebreak == 0
        &&& post.last().history@ == Seq::<String>::empty()
        &&& post.last().enabled
    }
}

/// What a disable leaves behind: the first contestant with the name loses
/// its `enabled` flag; everything else is untouched.
pub open spec fn disable_effect(
    pre: Seq<Contestant>,
    post: Seq<Contestant>,
    r: Result<(), TournamentError>,
    name: String,
) -> bool {
    if spec_has_name(pre, name@) {
        let i = spec_index_of(pre, name@);
        &&& r is Ok
        &&& post == pre.update(
            i,
            Contestant { enabled: false, ..pre[i] },
        )
    } else {
        &&& (r matches Err(TournamentError::UnknownContestant(n)) && n == name)
        &&& post == pre
    }
}

/// What an enable leaves behind: the first contestant with the name, which
/// must exist and be disabled, gets the seed counters and its `enabled`
/// flag back; everything else is untouched.
pub open spec fn enable_effect(
    pre: Seq<Contestant>,
    post: Seq<Contestant>,
    r: Result<(), TournamentError>,
    name: String,
    wins: u32,
    draws: u32,
    losses: u32,
) -> bool {
    if !spec_has_name(pre, name@) {
        &&& (r matches Err(TournamentError::UnknownContestant(n)) && n == name)
        &&& post == pre
    } else if pre[spec_index_of(pre, name@)].enabled {
        &&& (r matches Err(TournamentError::AlreadyEnabled(n)) && n == name)
        &&& post == pre
    } else {
        let i = spec_index_of(pre, name@);
        &&& r is Ok
        &&& post == pre.update(
            i,
            Contestant { wins, draws, losses, enabled: true, ..pre[i] },
        )
    }
}

impl Registry {
    /// An empty registry.
    pub fn new() -> (r: Registry)
        ensures
            r.contestants@ == Seq::<Contestant>::empty(),
            registry_wf(r.contestants@),
            spec_symmetric(r.contestants@),
    {
        Registry { contestants: Vec::new() }
    }

    /// The index of the first contestant with this name, if any.
    pub fn find_index(&self, name: &String) -> (r: Option<usize>)
        ensures
            match r {
                Some(i) => {
                    &&& spec_has_name(self.contestants@, name@)
                    &&& i == spec_index_of(self.contestants@, name@)
                    &&& i < self.contestants@.len()
                    &&& self.contestants@[i as int].name@ == name@
                    &&& forall|j: int| 0 <= j < i ==> self.contestants@[j].name@ != name@
                },
                None => !spec_has_name(self.contestants@, name@),
            },
    {
        let n = self.contestants.len();
        let mut i: usize = 0;
        while i < n
            invariant
                n == self.contestants@.len(),
                0 <= i <= n,
                forall|k: int| 0 <= k < i ==> self.contestants@[k].name@ != name@,
            decreases n - i,
        {
            if self.contestants[i].name == *name {
                proof {
                    lemma_index_of(self.contestants@, name@);
                }
                return Some(i);
            }
            i = i + 1;
        }
        None
    }

    /// Seed a contestant from the initial roster: zero counters, enabled.
    /// Fails with `DuplicateContestant` when the name is already taken.
    pub fn create(&mut self, name: String) -> (r: Result<(), TournamentError>)
        ensures
            add_effect(old(self).contestants@, final(self).contestants@, r, name, 0, 0, 0),
            registry_wf(old(self).contestants@) ==> registry_wf(final(self).contestants@),
    {
        self.apply_admin_add(name, 0, 0, 0)
    }

    /// Add a new contestant with explicit seed counters. Fails with
    /// `DuplicateContestant` when the name is already taken.
    pub fn apply_admin_add(
        &mut self,
        name: String,
        wins: u32,
        draws: u32,
        losses: u32,
    ) -> (r: Result<(), TournamentError>)
        ensures
            add_effect(old(self).contestants@, final(self).contestants@, r, name, wins, draws, losses),
            registry_wf(old(self).contestants@) ==> registry_wf(final(self).contestants@),
    {
        match self.find_index(&name) {
            Some(_) => Err(TournamentError::DuplicateContestant(name)),
            None => {
                let c = Contestant::with_counters(name, wins, draws, losses);
                self.contestants.push(c);
                proof {
                    assert(final(self).contestants@.take(old(self).contestants@.len() as int)
                        =~= old(self).contestants@);
                }
                Ok(())
            },
        }
    }

    /// Exclude the named contestant from pairing and scoring. Fails with
    /// `UnknownContestant` when no contestant has the name.
    pub fn apply_admin_disable(&mut self, name: String) -> (r: Result<(), TournamentError>)
        ensures
            disable_effect(old(self).contestants@, final(self).contestants@, r, name),
            registry_wf(old(self).contestants@) ==> registry_wf(final(self).contestants@),
    {
        match self.find_index(&name) {
            None => Err(TournamentError::UnknownContestant(name)),
            Some(i) => {
                self.contestants[i].enabled = false;
                proof {
                    let pre = old(self).contestants@;
                    let idx = spec_index_of(pre, name@);
                    assert(final(self).contestants@ =~= pre.update(
                        idx,
                        Contestant { enabled: false, ..pre[idx] },
                    ));
                }
                Ok(())
            },
        }
    }

    /// Re-enable a disabled contestant, replacing its counters with the
    /// given seed values. Fails with `UnknownContestant` when the name is
    /// absent, and with `AlreadyEnabled` when the contestant is not
    /// disabled.
    pub fn reset_and_enable(
        &mut self,
        name: String,
        wins: u32,
        draws: u32,
        losses: u32,
    ) -> (r: Result<(), TournamentError>)
        ensures
            enable_effect(old(self).contestants@, final(self).contestants@, r, name, wins, draws, losses),
            registry_wf(old(self).contestants@) ==> registry_wf(final(self).contestants@),
    {
        match self.find_index(&name) {
            None => Err(TournamentError::UnknownContestant(name)),
            Some(i) => {
                if self.contestants[i].enabled {
                    Err(TournamentError::AlreadyEnabled(name))
                } else {
                    self.contestants[i].wins = wins;
                    self.contestants[i].draws = draws;
                    self.contestants[i].losses = losses;
                    self.contestants[i].enabled = true;
                    proof {
                        let pre = old(self).contestants@;
                        let idx = spec_index_of(pre, name@);
                        assert(final(self).contestants@ =~= pre.update(
                            idx,
                            Contestant { wins, draws, losses, enabled: true, ..pre[idx] },
                        ));
                    }
                    Ok(())
                }
            },
        }
    }

    /// The enable admin record: `reset_and_enable` under the name the
    /// result feed uses.
    pub fn apply_admin_enable(
        &mut self,
        name: String,
        wins: u32,
        draws: u32,
        losses: u32,
    ) -> (r: Result<(), TournamentError>)
        ensures
            enable_effect(old(self).contestants@, final(self).contestants@, r, name, wins, draws, losses),
            registry_wf(old(self).contestants@) ==> registry_wf(final(self).contestants@),
    {
        self.reset_and_enable(name, wins, draws, losses)
    }

    /// Exclusive access to the contestant carrying this name. Fails with
    /// `UnknownContestant` when no contestant has the name.
    pub fn lookup_mutable(&mut self, name: &String) -> (r: Result<&mut Contestant, TournamentError>)
        ensures
            match r {
                Ok(c) => {
                    let pre = old(self).contestants@;
                    let i = spec_index_of(pre, name@);
                    &&& spec_has_name(pre, name@)
                    &&& *c == pre[i]
                    &&& final(self).contestants@ == pre.update(i, *final(c))
                },
                Err(e) => {
                    &&& (e matches TournamentError::UnknownContestant(n) && n@ == name@)
                    &&& !spec_has_name(old(self).contestants@, name@)
                    &&& *final(self) == *old(self)
                },
            },
    {
        match self.find_index(name) {
            None => Err(TournamentError::UnknownContestant(name.clone())),
            Some(i) => Ok(&mut self.contestants[i]),
        }
    }

    /// `set_enabled` in one call: flip the named contestant's flag without
    /// touching its counters. Fails with `UnknownContestant` when the name
    /// is absent.
    pub fn set_enabled(&mut self, name: String, enabled: bool) -> (r: Result<
        (),
        TournamentError,
    >)
        ensures
            match r {
                Ok(_) => {
                    let pre = old(self).contestants@;
                    let i = spec_index_of(pre, name@);
                    &&& spec_has_name(pre, name@)
                    &&& final(self).contestants@ == pre.update(
                        i,
                        Contestant { enabled, ..pre[i] },
                    )
                },
                Err(e) => {
                    &&& (e matches TournamentError::UnknownContestant(n) && n == name)
                    &&& !spec_has_name(old(self).contestants@, name@)
                    &&& *final(self) == *old(self)
                },
            },
            registry_wf(old(self).contestants@) ==> registry_wf(final(self).contestants@),
    {
        match self.find_index(&name) {
            None => Err(TournamentError::UnknownContestant(name)),
            Some(i) => {
                self.contestants[i].enabled = enabled;
                proof {
                    let pre = old(self).contestants@;
                    let idx = spec_index_of(pre, name@);
                    assert(final(self).contestants@ =~= pre.update(
                        idx,
                        Contestant { enabled, ..pre[idx] },
                    ));
                }
                Ok(())
            },
        }
    }

    /// Dispatch one decoded admin record to the operation it names.
    pub fn execute_command(&mut self, cmd: &AdminCommand) -> (r: Result<(), TournamentError>)
        ensures
            match *cmd {
                AdminCommand::Add { ref name, wins, draws, losses } => add_effect(
                    old(self).contestants@,
                    final(self).contestants@,
                    r,
                    *name,
                    wins,
                    draws,
                    losses,
                ),
                AdminCommand::Disable { ref name } => disable_effect(
                    old(self).contestants@,
                    final(self).contestants@,
                    r,
                    *name,
                ),
                AdminCommand::Enable { ref name, wins, draws, losses } => enable_effect(
                    old(self).contestants@,
                    final(self).contestants@,
                    r,
                    *name,
                    wins,
                    draws,
                    losses,
                ),
            },
            registry_wf(old(self).contestants@) ==> registry_wf(final(self).contestants@),
    {
        match cmd {
            AdminCommand::Add { name, wins, draws, losses } => {
                self.apply_admin_add(name.clone(), *wins, *draws, *losses)
            },
            AdminCommand::Disable { name } => self.apply_admin_disable(name.clone()),
            AdminCommand::Enable { name, wins, draws, losses } => {
                self.apply_admin_enable(name.clone(), *wins, *draws, *losses)
            },
        }
    }
}

} // verus!
