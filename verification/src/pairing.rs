//! The pairing engine: from the enabled contestants whose played-game
//! count equals the round's minimum, repeatedly select the next contestant
//! to pair (most byes first, then fewest remaining legal opponents, then
//! highest match points) and match it to the legal opponent with the
//! closest match points (ties to the fewest remaining legal opponents).
//! The leftover contestant of an odd round receives the bye.
//!
//! Pairing is a pure function of the registry snapshot: it never mutates
//! the registry.

use vstd::prelude::*;

use crate::contestant::{Contestant, spec_games_played, spec_in_history, spec_match_points};
use crate::errors::TournamentError;
use crate::registry::{Registry, registry_wf, spec_has_name, spec_index_of};

verus! {

/// The next round: ordered matchup pairs plus at most one bye recipient.
#[derive(Debug)]
pub struct RoundPairing {
    pub matchups: Vec<(String, String)>,
    pub bye: Option<String>,
}

/// Some contestant is enabled.
pub open spec fn spec_has_enabled(reg: Seq<Contestant>) -> bool {
    exists|i: int| 0 <= i < reg.len() && reg[i].enabled
}

/// The round target: the minimum played-game count over the enabled
/// contestants (meaningful only when one is enabled).
pub open spec fn spec_target(reg: Seq<Contestant>) -> int
    decreases reg.len(),
{
    if reg.len() == 0 {
        0
    } else if !reg.last().enabled {
        spec_target(reg.drop_last())
    } else if !spec_has_enabled(reg.drop_last()) {
        spec_games_played(reg.last())
    } else if spec_games_played(reg.last()) < spec_target(reg.drop_last()) {
        spec_games_played(reg.last())
    } else {
        spec_target(reg.drop_last())
    }
}

/// Eligible for this round: enabled and caught up to the target.
pub open spec fn spec_eligible(reg: Seq<Contestant>, i: int) -> bool {
    &&& 0 <= i < reg.len()
    &&& reg[i].enabled
    &&& spec_games_played(reg[i]) == spec_target(reg)
}

/// The name belongs to an eligible contestant.
pub open spec fn spec_is_eligible_name(reg: Seq<Contestant>, name: Seq<char>) -> bool {
    &&& spec_has_name(reg, name)
    &&& spec_eligible(reg, spec_index_of(reg, name))
}

/// No two distinct eligible contestants have already played each other.
pub open spec fn eligible_mutually_unplayed(reg: Seq<Contestant>) -> bool {
    forall|i: int, j: int|
        spec_eligible(reg, i) && spec_eligible(reg, j) && i != j ==> !spec_in_history(
            #[trigger] reg[i],
            (#[trigger] reg[j]).name@,
        )
}

/// The target really is the minimum: no enabled contestant has fewer
/// games, and some enabled contestant meets it.
pub proof fn lemma_target_is_min(reg: Seq<Contestant>)
    ensures
        forall|i: int|
            0 <= i < reg.len() && (#[trigger] reg[i]).enabled ==> spec_games_played(reg[i])
                >= spec_target(reg),
        spec_has_enabled(reg) ==> exists|i: int| spec_eligible(reg, i),
    decreases reg.len(),
{
    if reg.len() > 0 {
        let head = reg.drop_last();
        lemma_target_is_min(head);
        assert forall|i: int|
            0 <= i < reg.len() && (#[trigger] reg[i]).enabled implies spec_games_played(reg[i])
            >= spec_target(reg) by {
            if i < reg.len() - 1 {
                assert(head[i] == reg[i]);
                assert(spec_has_enabled(head));
            }
        }
        if spec_has_enabled(reg) {
            if reg.last().enabled && (!spec_has_enabled(head) || spec_games_played(reg.last())
                <= spec_target(head)) {
                assert(spec_eligible(reg, reg.len() - 1));
            } else {
                assert(spec_has_enabled(reg) && !reg.last().enabled ==> spec_has_enabled(head))
                    by {
                    if spec_has_enabled(reg) && !reg.last().enabled {
                        let w = choose|w: int| 0 <= w < reg.len() && reg[w].enabled;
                        assert(head[w] == reg[w]);
                    }
                }
                let w = choose|w: int| spec_eligible(head, w);
                assert(reg[w] == head[w]);
                assert(spec_eligible(reg, w));
            }
        }
    }
}

/// The round target, or `EmptyRoster` when no contestant is enabled.
fn compute_target(registry: &Registry) -> (r: Result<u64, TournamentError>)
    ensures
        match r {
            Ok(t) => spec_has_enabled(registry.contestants@) && t == spec_target(
                registry.contestants@,
            ),
            Err(e) => e matches TournamentError::EmptyRoster && !spec_has_enabled(
                registry.contestants@,
            ),
        },
{
    let reg = &registry.contestants;
    let n = reg.len();
    let mut best: Option<u64> = None;
    let mut i: usize = 0;
    while i < n
        invariant
            n == reg@.len(),
            0 <= i <= n,
            match best {
                None => !spec_has_enabled(reg@.take(i as int)),
                Some(t) => spec_has_enabled(reg@.take(i as int)) && t == spec_target(
                    reg@.take(i as int),
                ),
            },
        decreases n - i,
    {
        proof {
            assert(reg@.take(i + 1).drop_last() =~= reg@.take(i as int));
            assert(reg@.take(i + 1).last() == reg@[i as int]);
        }
        if reg[i].enabled {
            let g = reg[i].games_played();
            best = match best {
                None => Some(g),
                Some(t) => if g < t {
                    Some(g)
                } else {
                    Some(t)
                },
            };
            proof {
                assert(spec_has_enabled(reg@.take(i + 1))) by {
                    assert(reg@.take(i + 1)[i as int].enabled);
                }
            }
        } else {
            proof {
                if spec_has_enabled(reg@.take(i + 1)) {
                    let w = choose|w: int|
                        0 <= w < i + 1 && (#[trigger] reg@.take(i + 1)[w]).enabled;
                    assert(reg@.take(i as int)[w].enabled);
                }
            }
        }
        i = i + 1;
    }
    proof {
        assert(reg@.take(n as int) =~= reg@);
    }
    match best {
        None => Err(TournamentError::EmptyRoster),
        Some(t) => Ok(t),
    }
}

/// The registry indices of the eligible contestants, in registry order.
fn build_eligible(registry: &Registry, target: u64) -> (r: Vec<usize>)
    requires
        target == spec_target(registry.contestants@),
    ensures
        forall|k: int| 0 <= k < r@.len() ==> spec_eligible(registry.contestants@, r@[k] as int),
        forall|k1: int, k2: int| 0 <= k1 < k2 < r@.len() ==> r@[k1] < r@[k2],
        forall|i: int|
            spec_eligible(registry.contestants@, i) ==> exists|k: int|
                0 <= k < r@.len() && r@[k] == i,
{
    let reg = &registry.contestants;
    let n = reg.len();
    let mut r: Vec<usize> = Vec::new();
    let mut i: usize = 0;
    while i < n
        invariant
            n == reg@.len(),
            target == spec_target(reg@),
            0 <= i <= n,
            forall|k: int| 0 <= k < r@.len() ==> spec_eligible(reg@, r@[k] as int),
            forall|k: int| 0 <= k < r@.len() ==> r@[k] < i,
            forall|k1: int, k2: int| 0 <= k1 < k2 < r@.len() ==> r@[k1] < r@[k2],
            forall|j: int|
                0 <= j < i && spec_eligible(reg@, j) ==> exists|k: int|
                    0 <= k < r@.len() && r@[k] == j,
        decreases n - i,
    {
        let ghost r0 = r@;
        if reg[i].enabled && reg[i].games_played() == target {
            r.push(i);
            proof {
                assert(r@ == r0.push(i));
                assert(spec_eligible(reg@, i as int));
                assert forall|k: int| 0 <= k < r@.len() implies spec_eligible(
                    reg@,
                    r@[k] as int,
                ) by {
                    if k < r@.len() - 1 {
                        assert(r@[k] == r0[k]);
                    }
                }
            }
        }
        proof {
            assert forall|j: int|
                0 <= j < i + 1 && spec_eligible(reg@, j) implies exists|k: int|
                0 <= k < r@.len() && r@[k] == j by {
                if j < i {
                    let w = choose|w: int| 0 <= w < r0.len() && r0[w] == j;
                    assert(r@[w] == j);
                } else {
                    assert(r@.len() > r0.len() && r@[r@.len() - 1] == j);
                }
            }
        }
        i = i + 1;
    }
    r
}

} // verus!

verus! {

/// How many members of the snapshot the contestant at registry index `ci`
/// has not yet played (itself among them): the "remaining legal
/// opponents" metric used by both tie-break chains.
pub open spec fn spec_opts(reg: Seq<Contestant>, avail: Seq<usize>, ci: int) -> int
    decreases avail.len(),
{
    if avail.len() == 0 {
        0
    } else {
        spec_opts(reg, avail.drop_last(), ci) + if !spec_in_history(
            reg[ci],
            reg[avail.last() as int].name@,
        ) {
            1int
        } else {
            0int
        }
    }
}

/// Count the snapshot members the contestant has not yet played.
fn count_opts(registry: &Registry, avail: &Vec<usize>, ci: usize) -> (r: u64)
    requires
        ci < registry.contestants@.len(),
        avail@.len() <= u64::MAX,
        forall|k: int| 0 <= k < avail@.len() ==> avail@[k] < registry.contestants@.len(),
    ensures
        r == spec_opts(registry.contestants@, avail@, ci as int),
{
    let n = avail.len();
    let mut r: u64 = 0;
    let mut k: usize = 0;
    while k < n
        invariant
            n == avail@.len(),
            n <= u64::MAX,
            ci < registry.contestants@.len(),
            forall|k2: int| 0 <= k2 < avail@.len() ==> avail@[k2] < registry.contestants@.len(),
            0 <= k <= n,
            r <= k,
            r == spec_opts(registry.contestants@, avail@.take(k as int), ci as int),
        decreases n - k,
    {
        proof {
            assert(avail@.take(k + 1).drop_last() =~= avail@.take(k as int));
            assert(avail@.take(k + 1).last() == avail@[k as int]);
        }
        let played = registry.contestants[ci].has_played(&registry.contestants[avail[k]].name);
        if !played {
            r = r + 1;
        }
        k = k + 1;
    }
    proof {
        assert(avail@.take(n as int) =~= avail@);
    }
    r
}

/// The metric for every snapshot member at once, aligned with `avail`.
fn build_opts(registry: &Registry, avail: &Vec<usize>) -> (r: Vec<u64>)
    requires
        avail@.len() <= u64::MAX,
        forall|k: int| 0 <= k < avail@.len() ==> avail@[k] < registry.contestants@.len(),
    ensures
        r@.len() == avail@.len(),
        forall|k: int|
            0 <= k < avail@.len() ==> r@[k] == spec_opts(
                registry.contestants@,
                avail@,
                avail@[k] as int,
            ),
{
    let n = avail.len();
    let mut r: Vec<u64> = Vec::new();
    let mut k: usize = 0;
    while k < n
        invariant
            n == avail@.len(),
            n <= u64::MAX,
            forall|k2: int| 0 <= k2 < avail@.len() ==> avail@[k2] < registry.contestants@.len(),
            0 <= k <= n,
            r@.len() == k,
            forall|k2: int|
                0 <= k2 < k ==> r@[k2] == spec_opts(
                    registry.contestants@,
                    avail@,
                    avail@[k2] as int,
                ),
        decreases n - k,
    {
        let o = count_opts(registry, avail, avail[k]);
        r.push(o);
        k = k + 1;
    }
    r
}

/// The selection order: `a` is paired strictly before `b` when it has more
/// byes; ties go to the fewer remaining legal opponents, then to the
/// higher match points.
pub open spec fn sel_better(
    reg: Seq<Contestant>,
    avail: Seq<usize>,
    opts: Seq<u64>,
    a: int,
    b: int,
) -> bool {
    let ca = reg[avail[a] as int];
    let cb = reg[avail[b] as int];
    ||| ca.byes > cb.byes
    ||| (ca.byes == cb.byes && opts[a] < opts[b])
    ||| (ca.byes == cb.byes && opts[a] == opts[b] && spec_match_points(ca) > spec_match_points(
        cb,
    ))
}

/// Pick the contestant to pair next: the first snapshot member that no
/// other strictly precedes in the selection order.
fn select_index(registry: &Registry, avail: &Vec<usize>, opts: &Vec<u64>) -> (r: usize)
    requires
        avail@.len() >= 1,
        opts@.len() == avail@.len(),
        forall|k: int| 0 <= k < avail@.len() ==> avail@[k] < registry.contestants@.len(),
    ensures
        r < avail@.len(),
        forall|j: int|
            0 <= j < avail@.len() ==> !sel_better(
                registry.contestants@,
                avail@,
                opts@,
                j,
                r as int,
            ),
        forall|j: int|
            0 <= j < r ==> sel_better(registry.contestants@, avail@, opts@, r as int, j),
{
    let n = avail.len();
    let mut best: usize = 0;
    let mut j: usize = 1;
    while j < n
        invariant
            n == avail@.len(),
            opts@.len() == n,
            forall|k: int| 0 <= k < avail@.len() ==> avail@[k] < registry.contestants@.len(),
            0 <= best < j <= n,
            forall|k: int|
                0 <= k < j ==> !sel_better(
                    registry.contestants@,
                    avail@,
                    opts@,
                    k,
                    best as int,
                ),
            forall|k: int|
                0 <= k < best ==> sel_better(registry.contestants@, avail@, opts@, best as int, k),
        decreases n - j,
    {
        let cj = avail[j];
        let cb = avail[best];
        let better = {
            let bj = registry.contestants[cj].byes;
            let bb = registry.contestants[cb].byes;
            if bj > bb {
                true
            } else if bj == bb {
                if opts[j] < opts[best] {
                    true
                } else if opts[j] == opts[best] {
                    registry.contestants[cj].match_points()
                        > registry.contestants[cb].match_points()
                } else {
                    false
                }
            } else {
                false
            }
        };
        if better {
            proof {
                assert forall|k: int| 0 <= k < j implies sel_better(
                    registry.contestants@,
                    avail@,
                    opts@,
                    j as int,
                    k,
                ) by {
                    assert(!sel_better(registry.contestants@, avail@, opts@, k, best as int));
                }
                assert forall|k: int| 0 <= k < j + 1 implies !sel_better(
                    registry.contestants@,
                    avail@,
                    opts@,
                    k,
                    j as int,
                ) by {
                    if k < j {
                        assert(sel_better(registry.contestants@, avail@, opts@, j as int, k));
                    }
                }
            }
            best = j;
        }
        j = j + 1;
    }
    best
}

/// Whether the snapshot member at position `a` is a legal opponent for the
/// selected contestant at registry index `sel`.
pub open spec fn legal_opponent(reg: Seq<Contestant>, avail: Seq<usize>, sel: int, a: int) -> bool {
    !spec_in_history(reg[sel], reg[avail[a] as int].name@)
}

/// The distance between two match-point totals.
pub open spec fn spec_absdiff(x: int, y: int) -> int {
    if x >= y {
        x - y
    } else {
        y - x
    }
}

/// The matching order against a selected contestant: closest match points
/// first, ties to the fewer remaining legal opponents.
pub open spec fn match_better(
    reg: Seq<Contestant>,
    avail: Seq<usize>,
    opts: Seq<u64>,
    sel: int,
    a: int,
    b: int,
) -> bool {
    let da = spec_absdiff(spec_match_points(reg[avail[a] as int]), spec_match_points(reg[sel]));
    let db = spec_absdiff(spec_match_points(reg[avail[b] as int]), spec_match_points(reg[sel]));
    ||| da < db
    ||| (da == db && opts[a] < opts[b])
}

/// Pick the opponent for the selected contestant: the first legal opponent
/// that no other legal opponent strictly precedes in the matching order,
/// or nothing when every snapshot member is already in the selected
/// contestant's history.
fn match_index(registry: &Registry, avail: &Vec<usize>, opts: &Vec<u64>, sel: usize) -> (r: Option<
    usize,
>)
    requires
        sel < registry.contestants@.len(),
        opts@.len() == avail@.len(),
        forall|k: int| 0 <= k < avail@.len() ==> avail@[k] < registry.contestants@.len(),
    ensures
        match r {
            Some(m) => {
                &&& m < avail@.len()
                &&& legal_opponent(registry.contestants@, avail@, sel as int, m as int)
                &&& forall|j: int|
                    0 <= j < avail@.len() && legal_opponent(
                        registry.contestants@,
                        avail@,
                        sel as int,
                        j,
                    ) ==> !match_better(
                        registry.contestants@,
                        avail@,
                        opts@,
                        sel as int,
                        j,
                        m as int,
                    )
                &&& forall|j: int|
                    0 <= j < m && legal_opponent(
                        registry.contestants@,
                        avail@,
                        sel as int,
                        j,
                    ) ==> match_better(
                        registry.contestants@,
                        avail@,
                        opts@,
                        sel as int,
                        m as int,
                        j,
                    )
            },
            None => forall|j: int|
                0 <= j < avail@.len() ==> !legal_opponent(
                    registry.contestants@,
                    avail@,
                    sel as int,
                    j,
                ),
        },
{
    let n = avail.len();
    let sel_mp = registry.contestants[sel].match_points();
    let mut best: Option<usize> = None;
    let mut j: usize = 0;
    while j < n
        invariant
            n == avail@.len(),
            opts@.len() == n,
            sel < registry.contestants@.len(),
            sel_mp == spec_match_points(registry.contestants@[sel as int]),
            forall|k: int| 0 <= k < avail@.len() ==> avail@[k] < registry.contestants@.len(),
            0 <= j <= n,
            match best {
                Some(m) => {
                    &&& m < j
                    &&& legal_opponent(registry.contestants@, avail@, sel as int, m as int)
                    &&& forall|k: int|
                        0 <= k < j && legal_opponent(
                            registry.contestants@,
                            avail@,
                            sel as int,
                            k,
                        ) ==> !match_better(
                            registry.contestants@,
                            avail@,
                            opts@,
                            sel as int,
                            k,
                            m as int,
                        )
                    &&& forall|k: int|
                        0 <= k < m && legal_opponent(
                            registry.contestants@,
                            avail@,
                            sel as int,
                            k,
                        ) ==> match_better(
                            registry.contestants@,
                            avail@,
                            opts@,
                            sel as int,
                            m as int,
                            k,
                        )
                },
                None => forall|k: int|
                    0 <= k < j ==> !legal_opponent(registry.contestants@, avail@, sel as int, k),
            },
        decreases n - j,
    {
        let cj = avail[j];
        let played = registry.contestants[sel].has_played(&registry.contestants[cj].name);
        if !played {
            let mp_j = registry.contestants[cj].match_points();
            let dj = if mp_j >= sel_mp {
                mp_j - sel_mp
            } else {
                sel_mp - mp_j
            };
            match best {
                None => {
                    best = Some(j);
                },
                Some(m) => {
                    let cm = avail[m];
                    let mp_m = registry.contestants[cm].match_points();
                    let dm = if mp_m >= sel_mp {
                        mp_m - sel_mp
                    } else {
                        sel_mp - mp_m
                    };
                    let better = if dj < dm {
                        true
                    } else if dj == dm {
                        opts[j] < opts[m]
                    } else {
                        false
                    };
                    if better {
                        proof {
                            assert forall|k: int|
                                0 <= k < j && legal_opponent(
                                    registry.contestants@,
                                    avail@,
                                    sel as int,
                                    k,
                                ) implies match_better(
                                registry.contestants@,
                                avail@,
                                opts@,
                                sel as int,
                                j as int,
                                k,
                            ) by {
                                assert(!match_better(
                                    registry.contestants@,
                                    avail@,
                                    opts@,
                                    sel as int,
                                    k,
                                    m as int,
                                ));
                            }
                        }
                        best = Some(j);
                    }
                },
            }
        }
        j = j + 1;
    }
    best
}

} // verus!

verus! {

/// The names a matchup list mentions, in order: first both names of the
/// first pair, then both names of the second, and so on.
pub open spec fn matchup_names(ms: Seq<(String, String)>) -> Seq<Seq<char>>
    decreases ms.len(),
{
    if ms.len() == 0 {
        Seq::<Seq<char>>::empty()
    } else {
        matchup_names(ms.drop_last()).push(ms.last().0@).push(ms.last().1@)
    }
}

/// Every name a round mentions: the matchup names, then the bye recipient.
pub open spec fn spec_output_names(p: RoundPairing) -> Seq<Seq<char>> {
    match p.bye {
        Some(n) => matchup_names(p.matchups@).push(n@),
        None => matchup_names(p.matchups@),
    }
}

/// Under unique names, a contestant's own name looks up to its own index.
pub proof fn lemma_name_roundtrip(reg: Seq<Contestant>, i: int)
    requires
        crate::registry::names_unique(reg),
        0 <= i < reg.len(),
    ensures
        spec_has_name(reg, reg[i].name@),
        spec_index_of(reg, reg[i].name@) == i,
{
    assert(spec_has_name(reg, reg[i].name@));
    crate::registry::lemma_index_of(reg, reg[i].name@);
    let j = spec_index_of(reg, reg[i].name@);
    if j < i {
        assert(reg[j].name@ != reg[i].name@);
    }
}

/// Exactly one position satisfies the selection characterization: the
/// selection step of a round is deterministic.
pub proof fn lemma_selection_deterministic(
    reg: Seq<Contestant>,
    avail: Seq<usize>,
    opts: Seq<u64>,
    i: int,
    j: int,
)
    requires
        0 <= i < avail.len(),
        0 <= j < avail.len(),
        forall|k: int| 0 <= k < avail.len() ==> !sel_better(reg, avail, opts, k, i),
        forall|k: int| 0 <= k < i ==> sel_better(reg, avail, opts, i, k),
        forall|k: int| 0 <= k < avail.len() ==> !sel_better(reg, avail, opts, k, j),
        forall|k: int| 0 <= k < j ==> sel_better(reg, avail, opts, j, k),
    ensures
        i == j,
{
    if i < j {
        assert(sel_better(reg, avail, opts, j, i));
        assert(!sel_better(reg, avail, opts, j, i));
    }
    if j < i {
        assert(sel_better(reg, avail, opts, i, j));
        assert(!sel_better(reg, avail, opts, i, j));
    }
}

/// Exactly one position satisfies the matching characterization: the
/// opponent choice of a round is deterministic.
pub proof fn lemma_matching_deterministic(
    reg: Seq<Contestant>,
    avail: Seq<usize>,
    opts: Seq<u64>,
    sel: int,
    i: int,
    j: int,
)
    requires
        0 <= i < avail.len(),
        0 <= j < avail.len(),
        legal_opponent(reg, avail, sel, i),
        legal_opponent(reg, avail, sel, j),
        forall|k: int|
            0 <= k < avail.len() && legal_opponent(reg, avail, sel, k) ==> !match_better(
                reg,
                avail,
                opts,
                sel,
                k,
                i,
            ),
        forall|k: int|
            0 <= k < i && legal_opponent(reg, avail, sel, k) ==> match_better(
                reg,
                avail,
                opts,
                sel,
                i,
                k,
            ),
        forall|k: int|
            0 <= k < avail.len() && legal_opponent(reg, avail, sel, k) ==> !match_better(
                reg,
                avail,
                opts,
                sel,
                k,
                j,
            ),
        forall|k: int|
            0 <= k < j && legal_opponent(reg, avail, sel, k) ==> match_better(
                reg,
                avail,
                opts,
                sel,
                j,
                k,
            ),
    ensures
        i == j,
{
    if i < j {
        assert(match_better(reg, avail, opts, sel, j, i));
        assert(!match_better(reg, avail, opts, sel, j, i));
    }
    if j < i {
        assert(match_better(reg, avail, opts, sel, i, j));
        assert(!match_better(reg, avail, opts, sel, i, j));
    }
}

/// Produce the next round from a registry snapshot: the ordered matchup
/// list plus at most one bye. Pairing never mutates the registry.
///
/// The contract carries the round laws: every mentioned name belongs to an
/// eligible contestant (enabled, played-game count equal to the round
/// minimum), no name is mentioned twice, every eligible contestant is
/// mentioned, and no pair has met before. When at least one contestant is
/// enabled and no two eligible contestants have met, a full pairing is
/// owed.
#[verifier::rlimit(100)]
pub fn pair_round(registry: &Registry) -> (r: Result<RoundPairing, TournamentError>)
    requires
        registry_wf(registry.contestants@),
    ensures
        forall|i: int|
            0 <= i < registry.contestants@.len() && (#[trigger] registry.contestants@[i]).enabled
                ==> spec_games_played(registry.contestants@[i]) >= spec_target(
                registry.contestants@,
            ),
        match r {
            Ok(p) => {
                let reg = registry.contestants@;
                let names = spec_output_names(p);
                &&& spec_has_enabled(reg)
                &&& forall|k: int|
                    0 <= k < names.len() ==> spec_is_eligible_name(reg, #[trigger] names[k])
                &&& forall|k1: int, k2: int| 0 <= k1 < k2 < names.len() ==> names[k1] != names[k2]
                &&& forall|i: int|
                    spec_eligible(reg, i) ==> exists|k: int|
                        0 <= k < names.len() && names[k] == reg[i].name@
                &&& forall|k: int|
                    0 <= k < p.matchups@.len() ==> !spec_in_history(
                        reg[spec_index_of(reg, (#[trigger] p.matchups@[k]).0@)],
                        p.matchups@[k].1@,
                    )
                &&& crate::registry::spec_symmetric(reg) ==> forall|k: int|
                    0 <= k < p.matchups@.len() ==> !spec_in_history(
                        reg[spec_index_of(reg, (#[trigger] p.matchups@[k]).1@)],
                        p.matchups@[k].0@,
                    )
            },
            Err(e) => match e {
                TournamentError::EmptyRoster => !spec_has_enabled(registry.contestants@),
                TournamentError::NoAvailableOpponent(n) => {
                    let reg = registry.contestants@;
                    &&& spec_is_eligible_name(reg, n@)
                    &&& exists|j: int|
                        spec_eligible(reg, j) && reg[j].name@ != n@ && spec_in_history(
                            reg[spec_index_of(reg, n@)],
                            (#[trigger] reg[j]).name@,
                        )
                },
                _ => false,
            },
        },
        spec_has_enabled(registry.contestants@) && eligible_mutually_unplayed(
            registry.contestants@,
        ) ==> r is Ok,
{
    let ghost reg = registry.contestants@;
    proof {
        lemma_target_is_min(reg);
    }
    let n = registry.contestants.len();
    let target = match compute_target(registry) {
        Err(e) => {
            return Err(e);
        },
        Ok(t) => t,
    };
    let mut avail = build_eligible(registry, target);
    let mut matchups: Vec<(String, String)> = Vec::new();
    while avail.len() > 1
        invariant
            reg == registry.contestants@,
            n == reg.len(),
            registry_wf(reg),
            forall|k: int| 0 <= k < avail@.len() ==> (#[trigger] avail@[k]) < n,
            forall|k: int| 0 <= k < avail@.len() ==> spec_eligible(reg, avail@[k] as int),
            forall|k1: int, k2: int| 0 <= k1 < k2 < avail@.len() ==> avail@[k1] != avail@[k2],
            forall|k: int|
                0 <= k < matchup_names(matchups@).len() ==> spec_is_eligible_name(
                    reg,
                    #[trigger] matchup_names(matchups@)[k],
                ),
            forall|k1: int, k2: int|
                0 <= k1 < k2 < matchup_names(matchups@).len() ==> matchup_names(matchups@)[k1]
                    != matchup_names(matchups@)[k2],
            forall|k1: int, k2: int|
                0 <= k1 < matchup_names(matchups@).len() && 0 <= k2 < avail@.len()
                    ==> matchup_names(matchups@)[k1] != reg[avail@[k2] as int].name@,
            forall|i: int|
                spec_eligible(reg, i) ==> (exists|k: int| 0 <= k < avail@.len() && avail@[k] == i)
                    || (exists|k: int|
                    0 <= k < matchup_names(matchups@).len() && matchup_names(matchups@)[k]
                        == reg[i].name@),
            forall|k: int|
                0 <= k < matchups@.len() ==> !spec_in_history(
                    reg[spec_index_of(reg, (#[trigger] matchups@[k]).0@)],
                    matchups@[k].1@,
                ),
        decreases avail@.len(),
    {
        let ghost avail0 = avail@;
        let ghost ms0 = matchups@;
        let mut opts = build_opts(registry, &avail);
        let s = select_index(registry, &avail, &opts);
        let sel = avail[s];
        avail.swap_remove(s);
        opts.swap_remove(s);
        let ghost avail1 = avail@;
        proof {
            assert forall|k: int| #![trigger avail1[k]] 0 <= k < avail1.len() implies (exists|p: int|
                0 <= p < avail0.len() && p != s && avail0[p] == avail1[k]) by {
                if k == s {
                    assert(avail0[avail0.len() - 1] == avail1[k]);
                } else {
                    assert(avail0[k] == avail1[k]);
                }
            }
            assert forall|k: int| 0 <= k < avail1.len() implies avail1[k] != sel by {
                if k == s {
                    assert(avail1[k] == avail0[avail0.len() - 1]);
                } else {
                    assert(avail1[k] == avail0[k]);
                }
            }
        }
        let m = match match_index(registry, &avail, &opts, sel) {
            None => {
                proof {
                    lemma_target_is_min(reg);
                    lemma_name_roundtrip(reg, sel as int);
                    assert(avail1.len() >= 1);
                    assert(!legal_opponent(reg, avail1, sel as int, 0));
                    let j = avail1[0] as int;
                    assert(spec_eligible(reg, j));
                    assert(reg[j].name@ != reg[sel as int].name@) by {
                        lemma_name_roundtrip(reg, j);
                    }
                    assert(spec_in_history(reg[sel as int], reg[j].name@));
                }
                return Err(
                    TournamentError::NoAvailableOpponent(registry.contestants[sel].name.clone()),
                );
            },
            Some(m) => m,
        };
        let opp = avail[m];
        avail.swap_remove(m);
        opts.swap_remove(m);
        let ghost avail2 = avail@;
        proof {
            assert forall|k: int| #![trigger avail2[k]] 0 <= k < avail2.len() implies (exists|p: int|
                0 <= p < avail1.len() && p != m && avail1[p] == avail2[k]) by {
                if k == m {
                    assert(avail1[avail1.len() - 1] == avail2[k]);
                } else {
                    assert(avail1[k] == avail2[k]);
                }
            }
            assert forall|k: int| 0 <= k < avail2.len() implies avail2[k] != opp && avail2[k]
                != sel by {
                if k == m {
                    assert(avail2[k] == avail1[avail1.len() - 1]);
                } else {
                    assert(avail2[k] == avail1[k]);
                }
            }
        }
        let pair = (
            registry.contestants[sel].name.clone(),
            registry.contestants[opp].name.clone(),
        );
        matchups.push(pair);
        proof {
            lemma_name_roundtrip(reg, sel as int);
            lemma_name_roundtrip(reg, opp as int);
            assert(matchups@.drop_last() =~= ms0);
            assert(matchup_names(matchups@) == matchup_names(ms0).push(reg[sel as int].name@).push(
                reg[opp as int].name@,
            ));
            assert(sel != opp);
            assert(reg[sel as int].name@ != reg[opp as int].name@);
            assert(spec_in_history(reg[sel as int], reg[opp as int].name@) == false) by {
                assert(legal_opponent(reg, avail1, sel as int, m as int));
            }
            let msn = matchup_names(matchups@);
            // Each eligible contestant still shows up somewhere.
            assert forall|i: int| spec_eligible(reg, i) implies (exists|k: int|
                0 <= k < avail2.len() && avail2[k] == i) || (exists|k: int|
                0 <= k < msn.len() && msn[k] == reg[i].name@) by {
                if i == sel as int {
                    assert(msn[msn.len() - 2] == reg[i].name@);
                } else if i == opp as int {
                    assert(msn[msn.len() - 1] == reg[i].name@);
                } else {
                    if exists|k: int| 0 <= k < avail0.len() && avail0[k] == i {
                        let k0 = choose|k0: int| 0 <= k0 < avail0.len() && avail0[k0] == i;
                        // Not the selected position and not the matched one,
                        // so the index survives both removals.
                        assert(avail0[k0] != sel && avail0[k0] != opp) by {
                            lemma_name_roundtrip(reg, i);
                        }
                        assert(exists|k: int| 0 <= k < avail1.len() && avail1[k] == i) by {
                            if k0 == s {
                                assert(false);
                            } else if k0 == avail0.len() - 1 {
                                if s < avail1.len() {
                                    assert(avail1[s as int] == avail0[avail0.len() - 1]);
                                } else {
                                    assert(false);
                                }
                            } else {
                                assert(avail1[k0] == avail0[k0]);
                            }
                        }
                        let k1 = choose|k1: int| 0 <= k1 < avail1.len() && avail1[k1] == i;
                        if k1 == m {
                            assert(false);
                        } else if k1 == avail1.len() - 1 {
                            if m < avail2.len() {
                                assert(avail2[m as int] == avail1[avail1.len() - 1]);
                            } else {
                                assert(false);
                            }
                        } else {
                            assert(avail2[k1] == avail1[k1]);
                        }
                    } else {
                        let k = choose|k: int|
                            0 <= k < matchup_names(ms0).len() && matchup_names(ms0)[k]
                                == reg[i].name@;
                        assert(msn[k] == reg[i].name@);
                    }
                }
            }
            // The two new names are fresh among the matchup names.
            assert forall|k1: int, k2: int|
                0 <= k1 < k2 < msn.len() implies msn[k1] != msn[k2] by {
                if k2 < msn.len() - 2 {
                    assert(matchup_names(ms0)[k1] != matchup_names(ms0)[k2]);
                } else if k1 < msn.len() - 2 {
                    assert(matchup_names(ms0)[k1] != reg[sel as int].name@);
                    assert(matchup_names(ms0)[k1] != reg[opp as int].name@);
                }
            }
            assert forall|k1: int, k2: int|
                0 <= k1 < msn.len() && 0 <= k2 < avail2.len() implies msn[k1] != reg[avail2[k2] as int].name@ by {
                lemma_name_roundtrip(reg, avail2[k2] as int);
                if k1 < msn.len() - 2 {
                    let p = choose|p: int|
                        0 <= p < avail1.len() && p != m && avail1[p] == avail2[k2];
                    let p0 = choose|p0: int|
                        0 <= p0 < avail0.len() && p0 != s && avail0[p0] == avail1[p];
                    assert(matchup_names(ms0)[k1] != reg[avail0[p0] as int].name@);
                }
            }
            assert forall|k: int|
                0 <= k < msn.len() implies spec_is_eligible_name(reg, #[trigger] msn[k]) by {
                if k < msn.len() - 2 {
                    assert(spec_is_eligible_name(reg, matchup_names(ms0)[k]));
                } else if k == msn.len() - 2 {
                    assert(spec_eligible(reg, sel as int));
                } else {
                    assert(spec_eligible(reg, opp as int));
                }
            }
            assert forall|k: int|
                0 <= k < matchups@.len() implies !spec_in_history(
                reg[spec_index_of(reg, (#[trigger] matchups@[k]).0@)],
                matchups@[k].1@,
            ) by {
                if k < matchups@.len() - 1 {
                    assert(matchups@[k] == ms0[k]);
                } else {
                    assert(matchups@[k].0@ == reg[sel as int].name@);
                    assert(spec_index_of(reg, matchups@[k].0@) == sel as int);
                }
            }
        }
    }
    let bye: Option<String> = if avail.len() == 1 {
        proof {
            lemma_name_roundtrip(reg, avail@[0] as int);
        }
        Some(registry.contestants[avail[0]].name.clone())
    } else {
        None
    };
    let p = RoundPairing { matchups, bye };
    proof {
        let names = spec_output_names(p);
        let msn = matchup_names(p.matchups@);
        assert forall|k: int|
            0 <= k < names.len() implies spec_is_eligible_name(reg, #[trigger] names[k]) by {
            if k < msn.len() {
                assert(names[k] == msn[k]);
            }
        }
        assert forall|k1: int, k2: int|
            0 <= k1 < k2 < names.len() implies names[k1] != names[k2] by {
            if k2 < msn.len() {
                assert(names[k1] == msn[k1] && names[k2] == msn[k2]);
            } else {
                assert(names[k1] == msn[k1]);
            }
        }
        assert forall|i: int| spec_eligible(reg, i) implies (exists|k: int|
            0 <= k < names.len() && names[k] == reg[i].name@) by {
            if exists|k: int| 0 <= k < avail@.len() && avail@[k] == i {
                let k = choose|k: int| 0 <= k < avail@.len() && avail@[k] == i;
                assert(names[names.len() - 1] == reg[i].name@);
            } else {
                let k = choose|k: int| 0 <= k < msn.len() && msn[k] == reg[i].name@;
                assert(names[k] == reg[i].name@);
            }
        }
        if crate::registry::spec_symmetric(reg) {
            assert forall|k: int|
                0 <= k < p.matchups@.len() implies !spec_in_history(
                reg[spec_index_of(reg, (#[trigger] p.matchups@[k]).1@)],
                p.matchups@[k].0@,
            ) by {
                lemma_matchup_names_index(p.matchups@, k);
                let a = spec_index_of(reg, p.matchups@[k].0@);
                let b = spec_index_of(reg, p.matchups@[k].1@);
                assert(msn[2 * k] == p.matchups@[k].0@ && msn[2 * k + 1] == p.matchups@[k].1@);
                assert(spec_is_eligible_name(reg, msn[2 * k]));
                assert(spec_is_eligible_name(reg, msn[2 * k + 1]));
                crate::registry::lemma_index_of(reg, p.matchups@[k].0@);
                crate::registry::lemma_index_of(reg, p.matchups@[k].1@);
                if spec_in_history(reg[b], reg[a].name@) {
                    assert(spec_in_history(reg[a], reg[b].name@));
                }
            }
        }
    }
    Ok(p)
}

/// Position arithmetic for `matchup_names`: pair `k` supplies the names at
/// positions `2k` and `2k+1`.
pub proof fn lemma_matchup_names_index(ms: Seq<(String, String)>, k: int)
    requires
        0 <= k < ms.len(),
    ensures
        matchup_names(ms).len() == 2 * ms.len(),
        matchup_names(ms)[2 * k] == ms[k].0@,
        matchup_names(ms)[2 * k + 1] == ms[k].1@,
    decreases ms.len(),
{
    lemma_matchup_names_len(ms);
    lemma_matchup_names_len(ms.drop_last());
    if k < ms.len() - 1 {
        lemma_matchup_names_index(ms.drop_last(), k);
    }
}

/// A matchup list mentions twice as many names as it has pairs.
pub proof fn lemma_matchup_names_len(ms: Seq<(String, String)>)
    ensures
        matchup_names(ms).len() == 2 * ms.len(),
    decreases ms.len(),
{
    if ms.len() > 0 {
        lemma_matchup_names_len(ms.drop_last());
    }
}

} // verus!
