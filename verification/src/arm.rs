//! The arm model: per-arm counters and probabilities, and the exact
//! rational estimate of an arm's win probability.

use vstd::prelude::*;

use crate::SCALE;

verus! {

/// One arm of the bandit: how often it was played and won, and its
/// hidden true win probability as a fixed-point fraction of [`SCALE`].
///
/// The running estimate of the win probability is the exact rational
/// `wins / plays`; before the first play it is the prior `1 / 2`.
/// [`Bandit::est_num`] and [`Bandit::est_den`] give that rational.
#[derive(Clone, Copy, PartialEq, Eq, Structural, Debug)]
pub struct Bandit {
    pub plays: u64,
    pub wins: u64,
    pub prob_real: u64,
}

impl Bandit {
    /// Well-formed: never more wins than plays, and the true probability
    /// is a valid fraction of [`SCALE`].
    pub open spec fn wf(self) -> bool {
        self.wins <= self.plays && self.prob_real <= SCALE
    }

    /// Numerator of the estimated win probability.
    pub open spec fn est_num(self) -> int {
        if self.plays == 0 {
            1
        } else {
            self.wins as int
        }
    }

    /// Denominator of the estimated win probability; always positive.
    pub open spec fn est_den(self) -> int {
        if self.plays == 0 {
            2
        } else {
            self.plays as int
        }
    }

    /// A fresh arm: no plays, no wins, the given true probability.
    pub fn new(prob_real: u64) -> (b: Bandit)
        requires
            prob_real <= SCALE,
        ensures
            b.plays == 0,
            b.wins == 0,
            b.prob_real == prob_real,
            b.wf(),
    {
        Bandit { plays: 0, wins: 0, prob_real }
    }

    /// The sole mutation an arm undergoes: one more play, and one more
    /// win exactly when the trial draw falls below the true probability.
    pub fn record_trial(&mut self, trial: u64)
        requires
            old(self).wf(),
            old(self).plays < u64::MAX,
        ensures
            final(self).plays == old(self).plays + 1,
            final(self).wins == old(self).wins + (if trial < old(self).prob_real {
                1int
            } else {
                0int
            }),
            final(self).prob_real == old(self).prob_real,
            final(self).wf(),
    {
        self.plays = self.plays + 1;
        if trial < self.prob_real {
            self.wins = self.wins + 1;
        }
    }

    /// The estimated probability as a fixed-point fraction of [`SCALE`],
    /// rounded down.
    pub fn est_scaled(&self) -> (r: u64)
        requires
            self.wf(),
        ensures
            r == self.est_num() * SCALE / self.est_den(),
            r <= SCALE,
    {
        if self.plays == 0 {
            SCALE / 2
        } else {
            proof {
                lemma_scaled_ratio_bounded(self.wins as int, self.plays as int);
            }
            let v: u128 = (self.wins as u128) * (SCALE as u128) / (self.plays as u128);
            v as u64
        }
    }

    /// Shape parameters of the Beta posterior over this arm's win
    /// probability: a uniform Beta(1, 1) prior updated by the observed
    /// wins and losses.
    pub fn posterior_shape(&self) -> (r: (u64, u64))
        requires
            self.wf(),
            self.plays < u64::MAX,
        ensures
            r.0 == self.wins + 1,
            r.1 == self.plays - self.wins + 1,
    {
        (self.wins + 1, self.plays - self.wins + 1)
    }
}

#[verifier::nonlinear]
proof fn lemma_scaled_ratio_bounded(w: int, p: int)
    requires
        0 <= w <= p,
        1 <= p,
        p < 0x1_0000_0000_0000_0000,
    ensures
        w * SCALE / p <= SCALE,
        0 <= w * SCALE < 0x1_0000_0000_0000_0000_0000_0000_0000_0000,
{
}

/// The estimate of `a` is strictly below the estimate of `b`, the two
/// compared as exact rationals by cross-multiplication.
pub open spec fn est_lt(a: Bandit, b: Bandit) -> bool {
    a.est_num() * b.est_den() < b.est_num() * a.est_den()
}

/// Decides [`est_lt`] on two arms.
pub fn est_below(a: &Bandit, b: &Bandit) -> (r: bool)
    ensures
        r == est_lt(*a, *b),
{
    let an: u128 = if a.plays == 0 {
        1
    } else {
        a.wins as u128
    };
    let ad: u128 = if a.plays == 0 {
        2
    } else {
        a.plays as u128
    };
    let bn: u128 = if b.plays == 0 {
        1
    } else {
        b.wins as u128
    };
    let bd: u128 = if b.plays == 0 {
        2
    } else {
        b.plays as u128
    };
    proof {
        lemma_cross_mul_fits(an as int, bd as int);
        lemma_cross_mul_fits(bn as int, ad as int);
    }
    an * bd < bn * ad
}

#[verifier::nonlinear]
proof fn lemma_cross_mul_fits(x: int, y: int)
    requires
        0 <= x < 0x1_0000_0000_0000_0000,
        0 <= y < 0x1_0000_0000_0000_0000,
    ensures
        0 <= x * y < 0x1_0000_0000_0000_0000_0000_0000_0000_0000,
{
}

/// Total plays accumulated across an arm set.
pub open spec fn total_plays(s: Seq<Bandit>) -> int
    decreases s.len(),
{
    if s.len() == 0 {
        0
    } else {
        total_plays(s.drop_last()) + s.last().plays
    }
}

/// Total wins accumulated across an arm set.
pub open spec fn total_wins(s: Seq<Bandit>) -> int
    decreases s.len(),
{
    if s.len() == 0 {
        0
    } else {
        total_wins(s.drop_last()) + s.last().wins
    }
}

/// Extending a prefix by one arm adds that arm's counters.
pub proof fn lemma_totals_take_step(s: Seq<Bandit>, i: int)
    requires
        0 <= i < s.len(),
    ensures
        total_plays(s.take(i + 1)) == total_plays(s.take(i)) + s[i].plays,
        total_wins(s.take(i + 1)) == total_wins(s.take(i)) + s[i].wins,
{
    assert(s.take(i + 1).drop_last() =~= s.take(i));
    assert(s.take(i + 1).last() == s[i]);
}

/// Both totals are sums of non-negative counters, and no arm set wins
/// more than it plays when every arm is well-formed.
pub proof fn lemma_totals_bounds(s: Seq<Bandit>)
    ensures
        0 <= total_plays(s),
        0 <= total_wins(s),
        (forall|j: int| 0 <= j < s.len() ==> s[j].wf()) ==> total_wins(s) <= total_plays(s),
    decreases s.len(),
{
    if s.len() > 0 {
        lemma_totals_bounds(s.drop_last());
        assert(forall|j: int| 0 <= j < s.len() - 1 ==> s.drop_last()[j] == s[j]);
    }
}

/// Replacing one arm shifts each total by the difference at that arm.
pub proof fn lemma_totals_update(s: Seq<Bandit>, k: int, b: Bandit)
    requires
        0 <= k < s.len(),
    ensures
        total_plays(s.update(k, b)) == total_plays(s) + b.plays - s[k].plays,
        total_wins(s.update(k, b)) == total_wins(s) + b.wins - s[k].wins,
    decreases s.len(),
{
    if k == s.len() - 1 {
        assert(s.update(k, b).drop_last() =~= s.drop_last());
        assert(s.update(k, b).last() == b);
    } else {
        assert(s.update(k, b).drop_last() =~= s.drop_last().update(k, b));
        assert(s.update(k, b).last() == s.last());
        lemma_totals_update(s.drop_last(), k, b);
    }
}

/// No single arm plays more often than the whole set.
pub proof fn lemma_arm_plays_le_total(s: Seq<Bandit>, k: int)
    requires
        0 <= k < s.len(),
    ensures
        s[k].plays <= total_plays(s),
{
    lemma_totals_take_step(s, k);
    lemma_totals_take_le(s, k + 1);
    lemma_totals_bounds(s.take(k));
}

/// A prefix never counts more than the whole.
pub proof fn lemma_totals_take_le(s: Seq<Bandit>, i: int)
    requires
        0 <= i <= s.len(),
    ensures
        total_plays(s.take(i)) <= total_plays(s),
        total_wins(s.take(i)) <= total_wins(s),
    decreases s.len() - i,
{
    if i == s.len() {
        assert(s.take(i) =~= s);
    } else {
        lemma_totals_take_step(s, i);
        lemma_totals_take_le(s, i + 1);
    }
}

/// Sums the plays of every arm.
pub fn count_plays(bandits: &Vec<Bandit>) -> (r: u64)
    requires
        total_plays(bandits@) <= u64::MAX,
    ensures
        r == total_plays(bandits@),
{
    let mut acc: u64 = 0;
    let mut i: usize = 0;
    proof {
        assert(bandits@.take(0) =~= Seq::<Bandit>::empty());
    }
    while i < bandits.len()
        invariant
            0 <= i <= bandits@.len(),
            total_plays(bandits@) <= u64::MAX,
            acc == total_plays(bandits@.take(i as int)),
        decreases bandits@.len() - i,
    {
        proof {
            lemma_totals_take_step(bandits@, i as int);
            lemma_totals_take_le(bandits@, i as int + 1);
            lemma_totals_bounds(bandits@.take(i as int + 1));
        }
        acc = acc + bandits[i].plays;
        i = i + 1;
    }
    proof {
        assert(bandits@.take(bandits@.len() as int) =~= bandits@);
    }
    acc
}

/// Sums the wins of every arm.
pub fn count_wins(bandits: &Vec<Bandit>) -> (r: u64)
    requires
        total_wins(bandits@) <= u64::MAX,
    ensures
        r == total_wins(bandits@),
{
    let mut acc: u64 = 0;
    let mut i: usize = 0;
    proof {
        assert(bandits@.take(0) =~= Seq::<Bandit>::empty());
    }
    while i < bandits.len()
        invariant
            0 <= i <= bandits@.len(),
            total_wins(bandits@) <= u64::MAX,
            acc == total_wins(bandits@.take(i as int)),
        decreases bandits@.len() - i,
    {
        proof {
            lemma_totals_take_step(bandits@, i as int);
            lemma_totals_take_le(bandits@, i as int + 1);
            lemma_totals_bounds(bandits@.take(i as int + 1));
        }
        acc = acc + bandits[i].wins;
        i = i + 1;
    }
    proof {
        assert(bandits@.take(bandits@.len() as int) =~= bandits@);
    }
    acc
}

} // verus!
