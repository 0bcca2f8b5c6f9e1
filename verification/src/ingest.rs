//! Result ingestion: folding a sequence of game records into registry
//! mutations. Each record either reports a played match from both sides or
//! grants a bye. A record is applied all-or-nothing: on any failure the
//! registry is left untouched.

use vstd::prelude::*;

use crate::contestant::{
    Contestant, contestant_wf, spec_in_history, spec_match_points,
};
use crate::errors::TournamentError;
use crate::registry::{Registry, registry_wf, spec_has_name, spec_index_of, spec_symmetric};

verus! {

/// One side's result of a played game.
#[derive(Debug, Clone, Copy, PartialEq, Eq, Structural)]
pub enum Outcome {
    Win,
    Draw,
    Loss,
}

/// One entry of the result feed, decoded at the boundary. The outcome
/// fields stay raw tokens: recognizing them is the engine's job, and an
/// unrecognized token fails ingestion with `InvalidOutcome`.
#[derive(Debug)]
pub enum GameRecord {
    /// A played game, reported from both sides. The engine trusts the two
    /// outcome fields independently; it does not enforce their mutual
    /// consistency.
    Match { name_a: String, outcome_a: String, name_b: String, outcome_b: String },
    /// An automatic win with no opponent: counts as a win and a bye, and
    /// leaves the history untouched.
    Bye { name: String },
}

/// The outcome a token denotes, if any.
pub open spec fn spec_outcome_of(token: Seq<char>) -> Option<Outcome> {
    if token == "W"@ {
        Some(Outcome::Win)
    } else if token == "D"@ {
        Some(Outcome::Draw)
    } else if token == "L"@ {
        Some(Outcome::Loss)
    } else {
        None
    }
}

/// Decode one outcome token; anything outside W/D/L is rejected.
pub fn parse_outcome(token: &String) -> (r: Result<Outcome, TournamentError>)
    ensures
        match spec_outcome_of(token@) {
            Some(o) => r == Ok::<Outcome, TournamentError>(o),
            None => r matches Err(TournamentError::InvalidOutcome(t)) && t == *token,
        },
{
    if *token == String::from_str("W") {
        Ok(Outcome::Win)
    } else if *token == String::from_str("D") {
        Ok(Outcome::Draw)
    } else if *token == String::from_str("L") {
        Ok(Outcome::Loss)
    } else {
        Err(TournamentError::InvalidOutcome(token.clone()))
    }
}

/// The named counter can still be incremented without overflow.
pub open spec fn can_apply_outcome(c: Contestant, token: Seq<char>) -> bool {
    match spec_outcome_of(token) {
        Some(Outcome::Win) => c.wins < u32::MAX,
        Some(Outcome::Draw) => c.draws < u32::MAX,
        Some(Outcome::Loss) => c.losses < u32::MAX,
        None => true,
    }
}

/// How one side of a match record changes its contestant: the counter
/// matching the outcome goes up by one, and the opponent's name joins the
/// history unless already there. Nothing else moves.
pub open spec fn contestant_after_outcome(
    pre: Contestant,
    post: Contestant,
    o: Outcome,
    opp: String,
) -> bool {
    &&& post.name == pre.name
    &&& post.wins == if o == Outcome::Win { pre.wins + 1 } else { pre.wins as int }
    &&& post.draws == if o == Outcome::Draw { pre.draws + 1 } else { pre.draws as int }
    &&& post.losses == if o == Outcome::Loss { pre.losses + 1 } else { pre.losses as int }
    &&& post.byes == pre.byes
    &&& post.tiebreak == pre.tiebreak
    &&& post.enabled == pre.enabled
    &&& post.history@ == if spec_in_history(pre, opp@) {
        pre.history@
    } else {
        pre.history@.push(opp)
    }
}

/// What ingesting a match record leaves behind. The checks run in record
/// order: first name, first outcome, second name, second outcome; the
/// first failure decides the error, and any failure leaves the registry
/// unchanged.
pub open spec fn match_effect(
    pre: Seq<Contestant>,
    post: Seq<Contestant>,
    r: Result<(), TournamentError>,
    name_a: String,
    outcome_a: String,
    name_b: String,
    outcome_b: String,
) -> bool {
    if !spec_has_name(pre, name_a@) {
        (r matches Err(TournamentError::UnknownContestant(n)) && n == name_a) && post == pre
    } else if spec_outcome_of(outcome_a@) is None {
        (r matches Err(TournamentError::InvalidOutcome(t)) && t == outcome_a) && post == pre
    } else if !spec_has_name(pre, name_b@) {
        (r matches Err(TournamentError::UnknownContestant(n)) && n == name_b) && post == pre
    } else if spec_outcome_of(outcome_b@) is None {
        (r matches Err(TournamentError::InvalidOutcome(t)) && t == outcome_b) && post == pre
    } else {
        let ia = spec_index_of(pre, name_a@);
        let ib = spec_index_of(pre, name_b@);
        &&& r is Ok
        &&& post.len() == pre.len()
        &&& forall|k: int| 0 <= k < pre.len() && k != ia && k != ib ==> post[k] == pre[k]
        &&& contestant_after_outcome(
            pre[ia],
            post[ia],
            spec_outcome_of(outcome_a@)->Some_0,
            name_b,
        )
        &&& contestant_after_outcome(
            pre[ib],
            post[ib],
            spec_outcome_of(outcome_b@)->Some_0,
            name_a,
        )
    }
}

/// What ingesting a bye record leaves behind: wins and byes both go up by
/// one for the named contestant; nothing else moves.
pub open spec fn bye_effect(
    pre: Seq<Contestant>,
    post: Seq<Contestant>,
    r: Result<(), TournamentError>,
    name: String,
) -> bool {
    if !spec_has_name(pre, name@) {
        (r matches Err(TournamentError::UnknownContestant(n)) && n == name) && post == pre
    } else {
        let i = spec_index_of(pre, name@);
        &&& r is Ok
        &&& post.len() == pre.len()
        &&& forall|k: int| 0 <= k < pre.len() && k != i ==> post[k] == pre[k]
        &&& post[i].name == pre[i].name
        &&& post[i].wins == pre[i].wins + 1
        &&& post[i].draws == pre[i].draws
        &&& post[i].losses == pre[i].losses
        &&& post[i].byes == pre[i].byes + 1
        &&& post[i].tiebreak == pre[i].tiebreak
        &&& post[i].history == pre[i].history
        &&& post[i].enabled == pre[i].enabled
    }
}

/// The counters a record would touch can still be incremented.
pub open spec fn record_fits(reg: Seq<Contestant>, rec: GameRecord) -> bool {
    match rec {
        GameRecord::Match { name_a, outcome_a, name_b, outcome_b } => {
            &&& (spec_has_name(reg, name_a@) ==> can_apply_outcome(
                reg[spec_index_of(reg, name_a@)],
                outcome_a@,
            ))
            &&& (spec_has_name(reg, name_b@) ==> can_apply_outcome(
                reg[spec_index_of(reg, name_b@)],
                outcome_b@,
            ))
        },
        GameRecord::Bye { name } => spec_has_name(reg, name@) ==> {
            let c = reg[spec_index_of(reg, name@)];
            c.wins < u32::MAX && c.byes < u32::MAX
        },
    }
}

/// Fold one game record into the registry.
///
/// Beyond the per-record effect, the contract carries the standing laws:
/// well-formedness and history symmetry are preserved, and no contestant's
/// match-point score ever decreases under ingestion.
pub fn ingest_result(registry: &mut Registry, rec: &GameRecord) -> (r: Result<
    (),
    TournamentError,
>)
    requires
        rec matches GameRecord::Match { name_a, name_b, .. } ==> name_a@ != name_b@,
        record_fits(old(registry).contestants@, *rec),
    ensures
        match *rec {
            GameRecord::Match { ref name_a, ref outcome_a, ref name_b, ref outcome_b } => match_effect(
                old(registry).contestants@,
                final(registry).contestants@,
                r,
                *name_a,
                *outcome_a,
                *name_b,
                *outcome_b,
            ),
            GameRecord::Bye { ref name } => bye_effect(
                old(registry).contestants@,
                final(registry).contestants@,
                r,
                *name,
            ),
        },
        registry_wf(old(registry).contestants@) ==> registry_wf(final(registry).contestants@),
        registry_wf(old(registry).contestants@) && spec_symmetric(old(registry).contestants@)
            ==> spec_symmetric(final(registry).contestants@),
        final(registry).contestants@.len() == old(registry).contestants@.len() || r is Ok,
        forall|k: int|
            0 <= k < old(registry).contestants@.len() ==> spec_match_points(
                #[trigger] final(registry).contestants@[k],
            ) >= spec_match_points(old(registry).contestants@[k]),
{
    match rec {
        GameRecord::Match { name_a, outcome_a, name_b, outcome_b } => {
            let ia = match registry.find_index(name_a) {
                None => {
                    return Err(TournamentError::UnknownContestant(name_a.clone()));
                },
                Some(i) => i,
            };
            let oa = match parse_outcome(outcome_a) {
                Err(e) => {
                    return Err(e);
                },
                Ok(o) => o,
            };
            let ib = match registry.find_index(name_b) {
                None => {
                    return Err(TournamentError::UnknownContestant(name_b.clone()));
                },
                Some(i) => i,
            };
            let ob = match parse_outcome(outcome_b) {
                Err(e) => {
                    return Err(e);
                },
                Ok(o) => o,
            };
            apply_side(registry, ia, oa, name_b);
            apply_side(registry, ib, ob, name_a);
            proof {
                lemma_match_preserves_laws(
                    old(registry).contestants@,
                    registry.contestants@,
                    spec_index_of(old(registry).contestants@, name_a@),
                    spec_index_of(old(registry).contestants@, name_b@),
                    oa,
                    ob,
                    *name_a,
                    *name_b,
                );
            }
            Ok(())
        },
        GameRecord::Bye { name } => {
            let i = match registry.find_index(name) {
                None => {
                    return Err(TournamentError::UnknownContestant(name.clone()));
                },
                Some(i) => i,
            };
            let w = registry.contestants[i].wins;
            registry.contestants[i].wins = w + 1;
            let b = registry.contestants[i].byes;
            registry.contestants[i].byes = b + 1;
            proof {
                let pre = old(registry).contestants@;
                let post = registry.contestants@;
                assert forall|k: int|
                    0 <= k < pre.len() implies spec_match_points(#[trigger] post[k])
                    >= spec_match_points(pre[k]) by {}
                assert(registry_wf(pre) ==> registry_wf(post));
                if registry_wf(pre) && spec_symmetric(pre) {
                    assert forall|x: int, y: int|
                        0 <= x < post.len() && 0 <= y < post.len() && spec_in_history(
                            #[trigger] post[x],
                            (#[trigger] post[y]).name@,
                        ) implies spec_in_history(post[y], post[x].name@) by {
                        assert(post[x].history == pre[x].history);
                        assert(spec_in_history(pre[x], pre[y].name@));
                    }
                }
            }
            Ok(())
        },
    }
}

/// Apply one side of a match record: bump the counter the outcome names
/// and record the opponent in the history.
fn apply_side(registry: &mut Registry, i: usize, o: Outcome, opp: &String)
    requires
        i < old(registry).contestants@.len(),
        match o {
            Outcome::Win => old(registry).contestants@[i as int].wins < u32::MAX,
            Outcome::Draw => old(registry).contestants@[i as int].draws < u32::MAX,
            Outcome::Loss => old(registry).contestants@[i as int].losses < u32::MAX,
        },
    ensures
        final(registry).contestants@.len() == old(registry).contestants@.len(),
        forall|k: int|
            0 <= k < old(registry).contestants@.len() && k != i
                ==> final(registry).contestants@[k] == old(registry).contestants@[k],
        contestant_after_outcome(
            old(registry).contestants@[i as int],
            final(registry).contestants@[i as int],
            o,
            *opp,
        ),
{
    match o {
        Outcome::Win => {
            let w = registry.contestants[i].wins;
            registry.contestants[i].wins = w + 1;
        },
        Outcome::Draw => {
            let d = registry.contestants[i].draws;
            registry.contestants[i].draws = d + 1;
        },
        Outcome::Loss => {
            let l = registry.contestants[i].losses;
            registry.contestants[i].losses = l + 1;
        },
    }
    let already = registry.contestants[i].has_played(opp);
    if !already {
        registry.contestants[i].history.push(opp.clone());
    }
}

/// Ingesting a match record keeps the registry well formed and its
/// histories symmetric.
proof fn lemma_match_preserves_laws(
    pre: Seq<Contestant>,
    post: Seq<Contestant>,
    ia: int,
    ib: int,
    oa: Outcome,
    ob: Outcome,
    name_a: String,
    name_b: String,
)
    requires
        0 <= ia < pre.len(),
        0 <= ib < pre.len(),
        ia != ib,
        pre[ia].name@ == name_a@,
        pre[ib].name@ == name_b@,
        name_a@ != name_b@,
        post.len() == pre.len(),
        forall|k: int| 0 <= k < pre.len() && k != ia && k != ib ==> post[k] == pre[k],
        contestant_after_outcome(pre[ia], post[ia], oa, name_b),
        contestant_after_outcome(pre[ib], post[ib], ob, name_a),
    ensures
        registry_wf(pre) ==> registry_wf(post),
        registry_wf(pre) && spec_symmetric(pre) ==> spec_symmetric(post),
        forall|k: int|
            0 <= k < pre.len() ==> spec_match_points(#[trigger] post[k]) >= spec_match_points(
                pre[k],
            ),
{
    assert(spec_in_history(post[ia], name_b@)) by {
        if spec_in_history(pre[ia], name_b@) {
            let w = choose|w: int|
                0 <= w < pre[ia].history@.len() && pre[ia].history@[w]@ == name_b@;
            assert(post[ia].history@[w]@ == name_b@);
        } else {
            assert(post[ia].history@.last() == name_b);
        }
    }
    assert(spec_in_history(post[ib], name_a@)) by {
        if spec_in_history(pre[ib], name_a@) {
            let w = choose|w: int|
                0 <= w < pre[ib].history@.len() && pre[ib].history@[w]@ == name_a@;
            assert(post[ib].history@[w]@ == name_a@);
        } else {
            assert(post[ib].history@.last() == name_a);
        }
    }
    // Old history entries survive on every contestant.
    assert forall|k: int, n: Seq<char>|
        0 <= k < pre.len() && #[trigger] spec_in_history(pre[k], n) implies spec_in_history(
        post[k],
        n,
    ) by {
        let w = choose|w: int| 0 <= w < pre[k].history@.len() && pre[k].history@[w]@ == n;
        assert(post[k].history@[w]@ == n);
    }
    // New history entries on the touched contestants are old ones or the
    // opponent's name.
    assert forall|n: Seq<char>|
        spec_in_history(post[ia], n) implies spec_in_history(pre[ia], n) || n == name_b@ by {
        let w = choose|w: int| 0 <= w < post[ia].history@.len() && post[ia].history@[w]@ == n;
        if w < pre[ia].history@.len() {
            assert(pre[ia].history@[w]@ == n);
        }
    }
    assert forall|n: Seq<char>|
        spec_in_history(post[ib], n) implies spec_in_history(pre[ib], n) || n == name_a@ by {
        let w = choose|w: int| 0 <= w < post[ib].history@.len() && post[ib].history@[w]@ == n;
        if w < pre[ib].history@.len() {
            assert(pre[ib].history@[w]@ == n);
        }
    }
    if registry_wf(pre) {
        assert forall|k: int| 0 <= k < post.len() implies contestant_wf(#[trigger] post[k]) by {
            if k == ia {
                if !spec_in_history(pre[ia], name_b@) {
                    assert(forall|x: int, y: int|
                        0 <= x < y < post[ia].history@.len()
                            ==> post[ia].history@[x]@ != post[ia].history@[y]@);
                }
                assert(!spec_in_history(post[ia], post[ia].name@));
            } else if k == ib {
                if !spec_in_history(pre[ib], name_a@) {
                    assert(forall|x: int, y: int|
                        0 <= x < y < post[ib].history@.len()
                            ==> post[ib].history@[x]@ != post[ib].history@[y]@);
                }
                assert(!spec_in_history(post[ib], post[ib].name@));
            }
        }
        if spec_symmetric(pre) {
            assert forall|x: int, y: int|
                0 <= x < post.len() && 0 <= y < post.len() && spec_in_history(
                    #[trigger] post[x],
                    (#[trigger] post[y]).name@,
                ) implies spec_in_history(post[y], post[x].name@) by {
                assert(post[y].name == pre[y].name);
                if x == ia {
                    if spec_in_history(pre[ia], pre[y].name@) {
                        assert(spec_in_history(pre[y], pre[ia].name@));
                    } else {
                        // The entry is the fresh name_b; uniqueness pins y to ib.
                        assert(pre[y].name@ == name_b@);
                        if y != ib {
                            assert(pre[y].name@ != pre[ib].name@);
                        }
                        assert(y == ib);
                    }
                } else if x == ib {
                    if spec_in_history(pre[ib], pre[y].name@) {
                        assert(spec_in_history(pre[y], pre[ib].name@));
                    } else {
                        assert(pre[y].name@ == name_a@);
                        if y != ia {
                            assert(pre[y].name@ != pre[ia].name@);
                        }
                        assert(y == ia);
                    }
                } else {
                    assert(spec_in_history(pre[x], pre[y].name@));
                    assert(spec_in_history(pre[y], pre[x].name@));
                }
            }
        }
    }
}

} // verus!
