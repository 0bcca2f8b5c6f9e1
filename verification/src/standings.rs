//! The standings for the report renderer: every contestant with its
//! computed match-point score, games played and tiebreak, sorted by
//! descending match points, then ascending games played, then descending
//! tiebreak, split into the enabled and the disabled group.

use vstd::prelude::*;

use crate::contestant::Contestant;
use crate::registry::Registry;

verus! {

broadcast use vstd::seq_lib::group_to_multiset_ensures;

/// One line of the standings table.
#[derive(Debug)]
pub struct StandingRow {
    pub name: String,
    /// `2*wins + draws`.
    pub match_points: u64,
    /// `wins + draws + losses`.
    pub games_played: u64,
    pub wins: u32,
    pub draws: u32,
    pub losses: u32,
    pub tiebreak: u64,
}

/// The standings line a contestant produces.
pub open spec fn spec_row_of(c: Contestant) -> StandingRow {
    StandingRow {
        name: c.name,
        match_points: (2 * c.wins + c.draws) as u64,
        games_played: (c.wins + c.draws + c.losses) as u64,
        wins: c.wins,
        draws: c.draws,
        losses: c.losses,
        tiebreak: c.tiebreak,
    }
}

/// The rows of the contestants whose `enabled` flag matches, in registry
/// order.
pub open spec fn spec_rows(reg: Seq<Contestant>, flag: bool) -> Seq<StandingRow>
    decreases reg.len(),
{
    if reg.len() == 0 {
        Seq::<StandingRow>::empty()
    } else if reg.last().enabled == flag {
        spec_rows(reg.drop_last(), flag).push(spec_row_of(reg.last()))
    } else {
        spec_rows(reg.drop_last(), flag)
    }
}

/// The table order: `a` may stand above `b`. Higher match points first,
/// ties to fewer games played, then to the higher tiebreak.
pub open spec fn row_le(a: StandingRow, b: StandingRow) -> bool {
    ||| a.match_points > b.match_points
    ||| (a.match_points == b.match_points && a.games_played < b.games_played)
    ||| (a.match_points == b.match_points && a.games_played == b.games_played && a.tiebreak
        >= b.tiebreak)
}

/// Both groups of the standings table, each sorted by `row_le`.
#[derive(Debug)]
pub struct StandingsReport {
    pub enabled: Vec<StandingRow>,
    pub disabled: Vec<StandingRow>,
}

/// The standings line of one contestant.
fn make_row(c: &Contestant) -> (r: StandingRow)
    ensures
        r == spec_row_of(*c),
{
    StandingRow {
        name: c.name.clone(),
        match_points: c.match_points(),
        games_played: c.games_played(),
        wins: c.wins,
        draws: c.draws,
        losses: c.losses,
        tiebreak: c.tiebreak,
    }
}

/// Sort rows into table order: the result holds the same rows (as a
/// multiset) and respects `row_le` pairwise.
fn sort_rows(v: Vec<StandingRow>) -> (r: Vec<StandingRow>)
    ensures
        r@.to_multiset() == v@.to_multiset(),
        r@.len() == v@.len(),
        forall|i: int, j: int| 0 <= i < j < r@.len() ==> row_le(#[trigger] r@[i], #[trigger] r@[j]),
{
    let ghost v0 = v@;
    let mut src = v;
    let mut out: Vec<StandingRow> = Vec::new();
    while src.len() > 0
        invariant
            out@.to_multiset().add(src@.to_multiset()) == v0.to_multiset(),
            out@.len() + src@.len() == v0.len(),
            forall|i: int, j: int|
                0 <= i < j < out@.len() ==> row_le(#[trigger] out@[i], #[trigger] out@[j]),
            forall|i: int, j: int|
                0 <= i < out@.len() && 0 <= j < src@.len() ==> row_le(
                    #[trigger] out@[i],
                    #[trigger] src@[j],
                ),
        decreases src@.len(),
    {
        let n = src.len();
        let mut best: usize = 0;
        let mut j: usize = 1;
        while j < n
            invariant
                n == src@.len(),
                0 <= best < j <= n,
                forall|k: int| 0 <= k < j ==> row_le(src@[best as int], #[trigger] src@[k]),
            decreases n - j,
        {
            let b = &src[best];
            let c = &src[j];
            let keep = if b.match_points > c.match_points {
                true
            } else if b.match_points == c.match_points {
                if b.games_played < c.games_played {
                    true
                } else if b.games_played == c.games_played {
                    b.tiebreak >= c.tiebreak
                } else {
                    false
                }
            } else {
                false
            };
            if !keep {
                proof {
                    assert forall|k: int| 0 <= k < j + 1 implies row_le(
                        src@[j as int],
                        #[trigger] src@[k],
                    ) by {
                        assert(row_le(src@[best as int], src@[k]) || k == j);
                    }
                }
                best = j;
            }
            j = j + 1;
        }
        let ghost src0 = src@;
        let ghost out0 = out@;
        let x = src.remove(best);
        out.push(x);
        proof {
            assert(src@ == src0.remove(best as int));
            assert(src@.to_multiset() == src0.to_multiset().remove(x));
            assert(out@ == out0.push(x));
            assert(out@.to_multiset() == out0.to_multiset().insert(x));
            assert(out@.to_multiset().add(src@.to_multiset()) =~= v0.to_multiset());
            assert forall|i: int, j2: int|
                0 <= i < out@.len() && 0 <= j2 < src@.len() implies row_le(
                #[trigger] out@[i],
                #[trigger] src@[j2],
            ) by {
                assert(src@[j2] == src0[j2] || src@[j2] == src0[j2 + 1]);
                if i < out@.len() - 1 {
                    assert(row_le(out@[i], src0[j2]) && row_le(out@[i], src0[j2 + 1]));
                } else {
                    assert(out@[i] == src0[best as int]);
                    assert(row_le(src0[best as int], src0[j2]) && row_le(
                        src0[best as int],
                        src0[j2 + 1],
                    ));
                }
            }
            assert forall|i: int, j2: int|
                0 <= i < j2 < out@.len() implies row_le(#[trigger] out@[i], #[trigger] out@[j2]) by {
                if j2 < out@.len() - 1 {
                    assert(row_le(out@.drop_last()[i], out@.drop_last()[j2]));
                } else {
                    assert(row_le(out@.drop_last()[i], src0[best as int]));
                }
            }
        }
    }
    out
}

/// Compute the standings: the enabled group and the disabled group, each
/// holding exactly the rows of its contestants, each sorted into table
/// order.
pub fn standings(registry: &Registry) -> (r: StandingsReport)
    ensures
        r.enabled@.to_multiset() == spec_rows(registry.contestants@, true).to_multiset(),
        r.disabled@.to_multiset() == spec_rows(registry.contestants@, false).to_multiset(),
        forall|i: int, j: int|
            0 <= i < j < r.enabled@.len() ==> row_le(
                #[trigger] r.enabled@[i],
                #[trigger] r.enabled@[j],
            ),
        forall|i: int, j: int|
            0 <= i < j < r.disabled@.len() ==> row_le(
                #[trigger] r.disabled@[i],
                #[trigger] r.disabled@[j],
            ),
        r.enabled@.len() + r.disabled@.len() == registry.contestants@.len(),
{
    let reg = &registry.contestants;
    let n = reg.len();
    let mut rows_e: Vec<StandingRow> = Vec::new();
    let mut rows_d: Vec<StandingRow> = Vec::new();
    let mut i: usize = 0;
    while i < n
        invariant
            n == reg@.len(),
            0 <= i <= n,
            rows_e@ == spec_rows(reg@.take(i as int), true),
            rows_d@ == spec_rows(reg@.take(i as int), false),
            rows_e@.len() + rows_d@.len() == i,
        decreases n - i,
    {
        proof {
            assert(reg@.take(i + 1).drop_last() =~= reg@.take(i as int));
            assert(reg@.take(i + 1).last() == reg@[i as int]);
        }
        let row = make_row(&reg[i]);
        if reg[i].enabled {
            rows_e.push(row);
        } else {
            rows_d.push(row);
        }
        i = i + 1;
    }
    proof {
        assert(reg@.take(n as int) =~= reg@);
    }
    let enabled = sort_rows(rows_e);
    let disabled = sort_rows(rows_d);
    StandingsReport { enabled, disabled }
}

} // verus!
