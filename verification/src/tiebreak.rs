//! The Buchholz-style tiebreak: for every contestant, the sum of the
//! current match points of every opponent in its history, recomputed in
//! full from the registry as it stands after ingestion.

use vstd::prelude::*;

use crate::contestant::spec_match_points;
use crate::errors::TournamentError;
use crate::registry::{Registry, registry_wf, spec_has_name, spec_index_of, spec_symmetric};
use crate::contestant::Contestant;

verus! {

/// The match points of the first contestant carrying this name, or zero
/// when nobody does.
pub open spec fn spec_mp_of_name(reg: Seq<Contestant>, name: Seq<char>) -> int {
    if spec_has_name(reg, name) {
        spec_match_points(reg[spec_index_of(reg, name)])
    } else {
        0
    }
}

/// The tiebreak sum a history earns against the given registry state.
pub open spec fn spec_hist_sum(reg: Seq<Contestant>, hist: Seq<String>) -> int
    decreases hist.len(),
{
    if hist.len() == 0 {
        0
    } else {
        spec_hist_sum(reg, hist.drop_last()) + spec_mp_of_name(reg, hist.last()@)
    }
}

/// Every name in every history is carried by some contestant.
pub open spec fn all_opponents_known(reg: Seq<Contestant>) -> bool {
    forall|i: int, j: int|
        0 <= i < reg.len() && 0 <= j < reg[i].history@.len() ==> spec_has_name(
            reg,
            #[trigger] reg[i].history@[j]@,
        )
}

/// A prefix of a history never sums to more than the whole history.
proof fn lemma_prefix_sum_bound(reg: Seq<Contestant>, hist: Seq<String>, j: int)
    requires
        0 <= j <= hist.len(),
    ensures
        spec_hist_sum(reg, hist.take(j)) <= spec_hist_sum(reg, hist),
        spec_hist_sum(reg, hist.take(j)) >= 0,
    decreases hist.len() - j,
{
    lemma_sum_nonneg(reg, hist.take(j));
    if j == hist.len() {
        assert(hist.take(j) =~= hist);
    } else {
        lemma_prefix_sum_bound(reg, hist, j + 1);
        assert(hist.take(j + 1).drop_last() =~= hist.take(j));
        assert(hist.take(j + 1).last() == hist[j]);
    }
}

/// Every tiebreak sum is non-negative.
proof fn lemma_sum_nonneg(reg: Seq<Contestant>, hist: Seq<String>)
    ensures
        spec_hist_sum(reg, hist) >= 0,
    decreases hist.len(),
{
    if hist.len() > 0 {
        lemma_sum_nonneg(reg, hist.drop_last());
    }
}

/// The tiebreak sum of one history, or the first opponent name that no
/// contestant carries.
fn hist_sum(registry: &Registry, hist: &Vec<String>) -> (r: Result<u64, TournamentError>)
    requires
        spec_hist_sum(registry.contestants@, hist@) <= u64::MAX,
    ensures
        match r {
            Ok(s) => {
                &&& s == spec_hist_sum(registry.contestants@, hist@)
                &&& forall|j: int|
                    0 <= j < hist@.len() ==> spec_has_name(
                        registry.contestants@,
                        #[trigger] hist@[j]@,
                    )
            },
            Err(e) => {
                &&& e matches TournamentError::UnknownContestant(n) && !spec_has_name(
                    registry.contestants@,
                    n@,
                ) && (exists|j: int| 0 <= j < hist@.len() && hist@[j] == n)
            },
        },
        r is Ok <==> (forall|j: int|
            0 <= j < hist@.len() ==> spec_has_name(registry.contestants@, #[trigger] hist@[j]@)),
{
    let mut acc: u64 = 0;
    let n = hist.len();
    let mut j: usize = 0;
    while j < n
        invariant
            n == hist@.len(),
            0 <= j <= n,
            spec_hist_sum(registry.contestants@, hist@) <= u64::MAX,
            acc == spec_hist_sum(registry.contestants@, hist@.take(j as int)),
            forall|k: int|
                0 <= k < j ==> spec_has_name(registry.contestants@, #[trigger] hist@[k]@),
        decreases n - j,
    {
        match registry.find_index(&hist[j]) {
            None => {
                return Err(TournamentError::UnknownContestant(hist[j].clone()));
            },
            Some(i) => {
                let mp = registry.contestants[i].match_points();
                proof {
                    lemma_prefix_sum_bound(registry.contestants@, hist@, j + 1);
                    assert(hist@.take(j + 1).drop_last() =~= hist@.take(j as int));
                    assert(hist@.take(j + 1).last() == hist@[j as int]);
                }
                acc = acc + mp;
            },
        }
        j = j + 1;
    }
    proof {
        assert(hist@.take(n as int) =~= hist@);
    }
    Ok(acc)
}

/// Recompute every contestant's tiebreak from the registry's current
/// counters: the sum of `2*wins + draws` over the opponents in its
/// history. Succeeds exactly when every history name is still carried by
/// some contestant; on failure the registry is left untouched.
///
/// The exactness of the sum is the tiebreak law: a contestant whose
/// history holds exactly the opponents X and Y ends with
/// `matchPoints(X) + matchPoints(Y)`.
pub fn calculate_tiebreaks(registry: &mut Registry) -> (r: Result<(), TournamentError>)
    requires
        forall|i: int|
            0 <= i < old(registry).contestants@.len() ==> spec_hist_sum(
                old(registry).contestants@,
                (#[trigger] old(registry).contestants@[i]).history@,
            ) <= u64::MAX,
    ensures
        match r {
            Ok(_) => forall|i: int|
                0 <= i < old(registry).contestants@.len() ==> {
                    let pre = old(registry).contestants@[i];
                    let post = #[trigger] final(registry).contestants@[i];
                    &&& post.name == pre.name
                    &&& post.wins == pre.wins
                    &&& post.draws == pre.draws
                    &&& post.losses == pre.losses
                    &&& post.byes == pre.byes
                    &&& post.history == pre.history
                    &&& post.enabled == pre.enabled
                    &&& post.tiebreak == spec_hist_sum(old(registry).contestants@, pre.history@)
                },
            Err(e) => {
                &&& *final(registry) == *old(registry)
                &&& e matches TournamentError::UnknownContestant(n) && !spec_has_name(
                    old(registry).contestants@,
                    n@,
                ) && (exists|i: int, j: int|
                    0 <= i < old(registry).contestants@.len() && 0 <= j < old(
                        registry,
                    ).contestants@[i].history@.len() && old(registry).contestants@[i].history@[j]
                        == n)
            },
        },
        final(registry).contestants@.len() == old(registry).contestants@.len(),
        r is Ok <==> all_opponents_known(old(registry).contestants@),
        registry_wf(old(registry).contestants@) ==> registry_wf(final(registry).contestants@),
        spec_symmetric(old(registry).contestants@) ==> spec_symmetric(final(registry).contestants@),
{
    let ghost pre = registry.contestants@;
    let n = registry.contestants.len();
    let mut sums: Vec<u64> = Vec::new();
    let mut i: usize = 0;
    while i < n
        invariant
            n == registry.contestants@.len(),
            registry.contestants@ == pre,
            0 <= i <= n,
            sums@.len() == i,
            forall|i2: int|
                0 <= i2 < pre.len() ==> spec_hist_sum(pre, (#[trigger] pre[i2]).history@)
                    <= u64::MAX,
            forall|k: int| 0 <= k < i ==> sums@[k] == spec_hist_sum(pre, pre[k].history@),
            forall|k: int, j: int|
                0 <= k < i && 0 <= j < pre[k].history@.len() ==> spec_has_name(
                    pre,
                    #[trigger] pre[k].history@[j]@,
                ),
        decreases n - i,
    {
        match hist_sum(registry, &registry.contestants[i].history) {
            Err(e) => {
                return Err(e);
            },
            Ok(s) => {
                sums.push(s);
            },
        }
        i = i + 1;
    }
    let mut k: usize = 0;
    while k < n
        invariant
            n == registry.contestants@.len(),
            n == pre.len(),
            0 <= k <= n,
            sums@.len() == n,
            forall|j: int| 0 <= j < n ==> sums@[j] == spec_hist_sum(pre, pre[j].history@),
            forall|j: int| k <= j < n ==> registry.contestants@[j] == pre[j],
            forall|j: int|
                0 <= j < k ==> {
                    let pc = pre[j];
                    let qc = #[trigger] registry.contestants@[j];
                    &&& qc.name == pc.name
                    &&& qc.wins == pc.wins
                    &&& qc.draws == pc.draws
                    &&& qc.losses == pc.losses
                    &&& qc.byes == pc.byes
                    &&& qc.history == pc.history
                    &&& qc.enabled == pc.enabled
                    &&& qc.tiebreak == spec_hist_sum(pre, pc.history@)
                },
        decreases n - k,
    {
        registry.contestants[k].tiebreak = sums[k];
        k = k + 1;
    }
    proof {
        let post = registry.contestants@;
        if registry_wf(pre) {
            assert forall|a: int| 0 <= a < post.len() implies crate::contestant::contestant_wf(
                #[trigger] post[a],
            ) by {
                assert(post[a].history == pre[a].history);
                assert(post[a].name == pre[a].name);
            }
        }
        if spec_symmetric(pre) {
            assert forall|a: int, b: int|
                0 <= a < post.len() && 0 <= b < post.len() && crate::contestant::spec_in_history(
                    #[trigger] post[a],
                    (#[trigger] post[b]).name@,
                ) implies crate::contestant::spec_in_history(post[b], post[a].name@) by {
                assert(post[a].history == pre[a].history);
                assert(post[b].history == pre[b].history);
                assert(crate::contestant::spec_in_history(pre[a], pre[b].name@));
            }
        }
    }
    Ok(())
}

} // verus!
