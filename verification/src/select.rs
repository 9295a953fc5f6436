//! Strategy selectors: each decides one arm index per round. The
//! decision rules are total on a non-empty arm set, and every tie is
//! broken in favour of the first occurrence in index order.
//!
//! Selectors that consume randomness come in two layers: a function
//! that takes the draws as plain arguments, with an exact contract,
//! and a thin one that obtains the draws from [`crate::sample`].

use vstd::prelude::*;

use crate::SCALE;
use crate::arm::Bandit;
use crate::arm::est_below;
use crate::arm::est_lt;
use crate::arm::total_plays;
use crate::sample::rand_below;
use crate::strategy::decay_eps;
use crate::strategy::decayed_eps;

verus! {

/// Index of the arm with the greatest true probability; the first such
/// arm wins ties.
pub open spec fn best_real_idx(s: Seq<Bandit>) -> int
    decreases s.len(),
{
    if s.len() <= 1 {
        0
    } else {
        let p = best_real_idx(s.drop_last());
        if s.last().prob_real > s[p].prob_real {
            s.len() - 1
        } else {
            p
        }
    }
}

/// Index of the arm with the least true probability; the first such
/// arm wins ties.
pub open spec fn worst_real_idx(s: Seq<Bandit>) -> int
    decreases s.len(),
{
    if s.len() <= 1 {
        0
    } else {
        let p = worst_real_idx(s.drop_last());
        if s.last().prob_real < s[p].prob_real {
            s.len() - 1
        } else {
            p
        }
    }
}

/// Index of the arm with the greatest estimated probability; the first
/// such arm wins ties.
pub open spec fn best_est_idx(s: Seq<Bandit>) -> int
    decreases s.len(),
{
    if s.len() <= 1 {
        0
    } else {
        let p = best_est_idx(s.drop_last());
        if est_lt(s[p], s.last()) {
            s.len() - 1
        } else {
            p
        }
    }
}

/// Index of the strictly greatest sample; the first-sampled maximum
/// wins ties.
pub open spec fn best_sample_idx(s: Seq<u64>) -> int
    decreases s.len(),
{
    if s.len() <= 1 {
        0
    } else {
        let p = best_sample_idx(s.drop_last());
        if s.last() > s[p] {
            s.len() - 1
        } else {
            p
        }
    }
}

/// [`best_real_idx`] is in range, attains the maximum true probability,
/// and is the first index to do so.
pub proof fn lemma_best_real_idx(s: Seq<Bandit>)
    requires
        s.len() >= 1,
    ensures
        0 <= best_real_idx(s) < s.len(),
        forall|j: int| 0 <= j < s.len() ==> (#[trigger] s[j]).prob_real <= s[best_real_idx(s)].prob_real,
        forall|j: int| 0 <= j < best_real_idx(s) ==> (#[trigger] s[j]).prob_real < s[best_real_idx(s)].prob_real,
    decreases s.len(),
{
    if s.len() > 1 {
        lemma_best_real_idx(s.drop_last());
        assert(forall|j: int| 0 <= j < s.len() - 1 ==> s.drop_last()[j] == s[j]);
    }
}

/// [`worst_real_idx`] is in range, attains the minimum true
/// probability, and is the first index to do so.
pub proof fn lemma_worst_real_idx(s: Seq<Bandit>)
    requires
        s.len() >= 1,
    ensures
        0 <= worst_real_idx(s) < s.len(),
        forall|j: int| 0 <= j < s.len() ==> s[worst_real_idx(s)].prob_real <= (#[trigger] s[j]).prob_real,
        forall|j: int| 0 <= j < worst_real_idx(s) ==> s[worst_real_idx(s)].prob_real < (#[trigger] s[j]).prob_real,
    decreases s.len(),
{
    if s.len() > 1 {
        lemma_worst_real_idx(s.drop_last());
        assert(forall|j: int| 0 <= j < s.len() - 1 ==> s.drop_last()[j] == s[j]);
    }
}

#[verifier::nonlinear]
proof fn lemma_rat_le_lt_trans(an: int, ad: int, bn: int, bd: int, cn: int, cd: int)
    requires
        ad > 0,
        bd > 0,
        cd > 0,
        an * bd <= bn * ad,
        bn * cd < cn * bd,
    ensures
        an * cd < cn * ad,
{
}

proof fn lemma_est_le_lt_trans(a: Bandit, b: Bandit, c: Bandit)
    requires
        !est_lt(b, a),
        est_lt(b, c),
    ensures
        est_lt(a, c),
{
    lemma_rat_le_lt_trans(
        a.est_num(),
        a.est_den(),
        b.est_num(),
        b.est_den(),
        c.est_num(),
        c.est_den(),
    );
}

/// [`best_est_idx`] is in range, attains the maximum estimate, and is
/// the first index to do so.
pub proof fn lemma_best_est_idx(s: Seq<Bandit>)
    requires
        s.len() >= 1,
    ensures
        0 <= best_est_idx(s) < s.len(),
        forall|j: int| 0 <= j < s.len() ==> !est_lt(s[best_est_idx(s)], #[trigger] s[j]),
        forall|j: int| 0 <= j < best_est_idx(s) ==> est_lt(#[trigger] s[j], s[best_est_idx(s)]),
    decreases s.len(),
{
    if s.len() > 1 {
        lemma_best_est_idx(s.drop_last());
        let p = best_est_idx(s.drop_last());
        assert(forall|j: int| 0 <= j < s.len() - 1 ==> s.drop_last()[j] == s[j]);
        if est_lt(s[p], s.last()) {
            assert forall|j: int| 0 <= j < s.len() - 1 implies est_lt(s[j], s.last()) by {
                if j != p {
                    lemma_est_le_lt_trans(s[j], s[p], s.last());
                }
            }
        }
    }
}

/// [`best_sample_idx`] is in range, attains the maximum sample, and is
/// the first index to do so.
pub proof fn lemma_best_sample_idx(s: Seq<u64>)
    requires
        s.len() >= 1,
    ensures
        0 <= best_sample_idx(s) < s.len(),
        forall|j: int| 0 <= j < s.len() ==> #[trigger] s[j] <= s[best_sample_idx(s)],
        forall|j: int| 0 <= j < best_sample_idx(s) ==> #[trigger] s[j] < s[best_sample_idx(s)],
    decreases s.len(),
{
    if s.len() > 1 {
        lemma_best_sample_idx(s.drop_last());
        assert(forall|j: int| 0 <= j < s.len() - 1 ==> s.drop_last()[j] == s[j]);
    }
}

/// Picks the arm with the greatest true probability; needs the ground
/// truth, so it serves only as a best-case baseline.
pub fn pick_bandit_oracle(bandits: &Vec<Bandit>) -> (r: usize)
    requires
        bandits@.len() >= 1,
    ensures
        r == best_real_idx(bandits@),
{
    let mut best: usize = 0;
    let mut i: usize = 1;
    while i < bandits.len()
        invariant
            1 <= i <= bandits@.len(),
            best < i,
            best == best_real_idx(bandits@.take(i as int)),
        decreases bandits@.len() - i,
    {
        proof {
            assert(bandits@.take(i as int + 1).drop_last() =~= bandits@.take(i as int));
            assert(bandits@.take(i as int + 1).last() == bandits@[i as int]);
            assert(bandits@.take(i as int)[best as int] == bandits@[best as int]);
        }
        if bandits[i].prob_real > bandits[best].prob_real {
            best = i;
        }
        i = i + 1;
    }
    proof {
        assert(bandits@.take(bandits@.len() as int) =~= bandits@);
    }
    best
}

/// Picks the arm with the least true probability; a worst-case
/// baseline that bounds regret from above.
pub fn pick_bandit_adversarial_worst(bandits: &Vec<Bandit>) -> (r: usize)
    requires
        bandits@.len() >= 1,
    ensures
        r == worst_real_idx(bandits@),
{
    let mut best: usize = 0;
    let mut i: usize = 1;
    while i < bandits.len()
        invariant
            1 <= i <= bandits@.len(),
            best < i,
            best == worst_real_idx(bandits@.take(i as int)),
        decreases bandits@.len() - i,
    {
        proof {
            assert(bandits@.take(i as int + 1).drop_last() =~= bandits@.take(i as int));
            assert(bandits@.take(i as int + 1).last() == bandits@[i as int]);
            assert(bandits@.take(i as int)[best as int] == bandits@[best as int]);
        }
        if bandits[i].prob_real < bandits[best].prob_real {
            best = i;
        }
        i = i + 1;
    }
    proof {
        assert(bandits@.take(bandits@.len() as int) =~= bandits@);
    }
    best
}

/// Picks the arm with the greatest estimated probability: the exploit
/// half of the greedy strategies.
pub fn pick_bandit_greedy(bandits: &Vec<Bandit>) -> (r: usize)
    requires
        bandits@.len() >= 1,
    ensures
        r == best_est_idx(bandits@),
{
    let mut best: usize = 0;
    let mut i: usize = 1;
    while i < bandits.len()
        invariant
            1 <= i <= bandits@.len(),
            best < i,
            best == best_est_idx(bandits@.take(i as int)),
        decreases bandits@.len() - i,
    {
        proof {
            assert(bandits@.take(i as int + 1).drop_last() =~= bandits@.take(i as int));
            assert(bandits@.take(i as int + 1).last() == bandits@[i as int]);
            assert(bandits@.take(i as int)[best as int] == bandits@[best as int]);
        }
        if est_below(&bandits[best], &bandits[i]) {
            best = i;
        }
        i = i + 1;
    }
    proof {
        assert(bandits@.take(bandits@.len() as int) =~= bandits@);
    }
    best
}

/// Always picks arm 0.
pub fn pick_first_bandit_always(bandits: &Vec<Bandit>) -> (r: usize)
    requires
        bandits@.len() >= 1,
    ensures
        r == 0,
{
    0
}

/// Picks a uniformly drawn arm, ignoring all accumulated state.
pub fn pick_bandit_naive_random(bandits: &Vec<Bandit>) -> (r: usize)
    requires
        bandits@.len() >= 1,
    ensures
        r < bandits@.len(),
{
    let n: u64 = bandits.len() as u64;
    let d: u64 = rand_below(n);
    d as usize
}

/// The epsilon-greedy decision on given draws: the drawn arm when the
/// explore draw falls below the rate, the best current estimate
/// otherwise.
pub open spec fn eps_pick(s: Seq<Bandit>, eps: int, explore: int, arm: int) -> int {
    if explore < eps {
        arm
    } else {
        best_est_idx(s)
    }
}

/// With a zero exploration rate the selector always exploits: whatever
/// the two draws were, the decision falls on the arm with the greatest
/// current estimate, ties going to the first such arm.
pub proof fn lemma_eps_zero_always_exploits(s: Seq<Bandit>, explore: int, arm: int)
    requires
        explore >= 0,
    ensures
        eps_pick(s, 0, explore, arm) == best_est_idx(s),
{
}

/// With the exploration rate at one the selector always explores:
/// every decision falls on the uniformly drawn arm, so each arm is
/// equally likely to be played every round.
pub proof fn lemma_eps_one_always_explores(s: Seq<Bandit>, explore: int, arm: int)
    requires
        0 <= explore < SCALE,
    ensures
        eps_pick(s, SCALE as int, explore, arm) == arm,
{
}

/// The oracle's decision reads only the true probabilities: two arm
/// sets that agree on those agree on the decision.
pub proof fn lemma_best_real_idx_same(s: Seq<Bandit>, t: Seq<Bandit>)
    requires
        s.len() == t.len(),
        forall|j: int| 0 <= j < s.len() ==> (#[trigger] s[j]).prob_real == t[j].prob_real,
    ensures
        best_real_idx(s) == best_real_idx(t),
    decreases s.len(),
{
    if s.len() > 1 {
        assert(forall|j: int| 0 <= j < s.len() - 1 ==> (#[trigger] s.drop_last()[j]) == s[j]);
        assert(forall|j: int| 0 <= j < t.len() - 1 ==> (#[trigger] t.drop_last()[j]) == t[j]);
        lemma_best_real_idx_same(s.drop_last(), t.drop_last());
        lemma_best_real_idx(s.drop_last());
    }
}

/// Epsilon-greedy on draws supplied by the caller; the decision itself
/// is exact.
pub fn pick_bandit_epsilon_greedy_from(
    bandits: &Vec<Bandit>,
    epsilon: u64,
    explore: u64,
    arm: usize,
) -> (r: usize)
    requires
        bandits@.len() >= 1,
        arm < bandits@.len(),
    ensures
        r == eps_pick(bandits@, epsilon as int, explore as int, arm as int),
        r < bandits@.len(),
{
    proof {
        lemma_best_est_idx(bandits@);
    }
    if explore < epsilon {
        arm
    } else {
        pick_bandit_greedy(bandits)
    }
}

/// Epsilon-greedy drawing for itself: first the explore-vs-exploit
/// draw, then, only on an exploration round, the arm draw.
pub fn pick_bandit_epsilon_greedy(bandits: &Vec<Bandit>, epsilon: u64) -> (r: usize)
    requires
        bandits@.len() >= 1,
    ensures
        r < bandits@.len(),
{
    let explore: u64 = rand_below(SCALE);
    let arm: usize = if explore < epsilon {
        let n: u64 = bandits.len() as u64;
        rand_below(n) as usize
    } else {
        0
    };
    pick_bandit_epsilon_greedy_from(bandits, epsilon, explore, arm)
}

/// Epsilon-decay on draws supplied by the caller: epsilon-greedy under
/// the decayed rate derived from the plays accumulated so far.
pub fn pick_bandit_epsilon_decay_from(
    bandits: &Vec<Bandit>,
    epsilon_start: u64,
    decay: u64,
    explore: u64,
    arm: usize,
) -> (r: usize)
    requires
        bandits@.len() >= 1,
        arm < bandits@.len(),
        epsilon_start <= SCALE,
        decay <= SCALE,
        total_plays(bandits@) <= u64::MAX,
    ensures
        r == eps_pick(
            bandits@,
            decayed_eps(epsilon_start as int, decay as int, total_plays(bandits@) as nat),
            explore as int,
            arm as int,
        ),
        r < bandits@.len(),
{
    let t: u64 = crate::arm::count_plays(bandits);
    let eps: u64 = decay_eps(epsilon_start, decay, t);
    pick_bandit_epsilon_greedy_from(bandits, eps, explore, arm)
}

/// Epsilon-decay drawing for itself, in the same order as
/// [`pick_bandit_epsilon_greedy`].
pub fn pick_bandit_epsilon_decay(bandits: &Vec<Bandit>, epsilon_start: u64, decay: u64) -> (r:
    usize)
    requires
        bandits@.len() >= 1,
        epsilon_start <= SCALE,
        decay <= SCALE,
        total_plays(bandits@) <= u64::MAX,
    ensures
        r < bandits@.len(),
{
    let t: u64 = crate::arm::count_plays(bandits);
    let eps: u64 = decay_eps(epsilon_start, decay, t);
    pick_bandit_epsilon_greedy(bandits, eps)
}

/// Thompson selection on given posterior samples: the arm whose sample
/// is strictly greatest; a later sample displaces the running maximum
/// only when strictly greater. Sampling itself happens outside the
/// library, from each arm's [`Bandit::posterior_shape`].
pub fn pick_bandit_thompson(samples: &Vec<u64>) -> (r: usize)
    requires
        samples@.len() >= 1,
    ensures
        r == best_sample_idx(samples@),
{
    let mut best: usize = 0;
    let mut i: usize = 1;
    while i < samples.len()
        invariant
            1 <= i <= samples@.len(),
            best < i,
            best == best_sample_idx(samples@.take(i as int)),
        decreases samples@.len() - i,
    {
        proof {
            assert(samples@.take(i as int + 1).drop_last() =~= samples@.take(i as int));
            assert(samples@.take(i as int + 1).last() == samples@[i as int]);
            assert(samples@.take(i as int)[best as int] == samples@[best as int]);
        }
        if samples[i] > samples[best] {
            best = i;
        }
        i = i + 1;
    }
    proof {
        assert(samples@.take(samples@.len() as int) =~= samples@);
    }
    best
}

} // verus!
