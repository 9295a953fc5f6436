//! The simulation engine: configuration, arm set and strategy, driven
//! round by round; each round decides an arm, applies a Bernoulli
//! trial to it, and recomputes the cumulative regret from scratch.

use vstd::prelude::*;

use crate::SCALE;
use crate::arm::Bandit;
use crate::arm::count_plays;
use crate::arm::count_wins;
use crate::arm::lemma_arm_plays_le_total;
use crate::arm::lemma_totals_bounds;
use crate::arm::lemma_totals_update;
use crate::arm::total_plays;
use crate::arm::total_wins;
use crate::sample::rand_below;
use crate::select::best_real_idx;
use crate::select::best_sample_idx;
use crate::select::eps_pick;
use crate::select::lemma_best_est_idx;
use crate::select::lemma_best_real_idx;
use crate::select::lemma_best_real_idx_same;
use crate::select::lemma_best_sample_idx;
use crate::select::lemma_worst_real_idx;
use crate::select::pick_bandit_adversarial_worst;
use crate::select::pick_bandit_epsilon_decay_from;
use crate::select::pick_bandit_epsilon_greedy_from;
use crate::select::pick_bandit_oracle;
use crate::select::pick_bandit_thompson;
use crate::select::pick_first_bandit_always;
use crate::select::worst_real_idx;
use crate::strategy::Strategy;
use crate::strategy::decayed_eps;

verus! {

/// The random draws one round consumes, as plain values, in the order
/// they are drawn: the explore-vs-exploit draw, the arm-selection
/// draw, the trial-outcome draw, and, for Thompson sampling only, one
/// scaled posterior sample per arm.
#[derive(Debug)]
pub struct RoundDraws {
    /// Explore-vs-exploit draw, uniform in `[0, SCALE)`.
    pub explore: u64,
    /// Uniform arm-selection draw, an index below the arm count.
    pub arm: usize,
    /// Trial-outcome draw, uniform in `[0, SCALE)`.
    pub trial: u64,
    /// Scaled posterior samples, one per arm; consulted only by the
    /// Thompson strategy.
    pub samples: Vec<u64>,
}

/// What one round emits: each arm's pre-trial estimate as a fraction
/// of [`SCALE`], and the round's cumulative regret, scaled by
/// [`SCALE`] to keep it an exact rational.
#[derive(Debug)]
pub struct RoundRecord {
    pub estimates: Vec<u64>,
    pub regret_scaled: i128,
}

/// Cumulative regret scaled by [`SCALE`]: the reward expected from
/// always playing the best arm, minus the wins actually obtained. The
/// real-valued regret is this numerator divided by [`SCALE`]; keeping
/// the numerator keeps it exact.
pub open spec fn regret_num(s: Seq<Bandit>) -> int {
    s[best_real_idx(s)].prob_real * total_plays(s) - total_wins(s) * SCALE
}

/// The simulation engine: the configured round count, the strategy,
/// and the arm set it owns for the duration of a run.
#[derive(Debug)]
pub struct Casino {
    pub num_plays: u64,
    pub strategy: Strategy,
    pub bandits: Vec<Bandit>,
}

impl Casino {
    /// Well-formed: at least one arm, every arm well-formed, valid
    /// strategy parameters, and a total play count a `u64` can hold.
    pub open spec fn wf(self) -> bool {
        &&& self.bandits@.len() >= 1
        &&& forall|j: int| 0 <= j < self.bandits@.len() ==> (#[trigger] self.bandits@[j]).wf()
        &&& self.strategy.wf()
        &&& total_plays(self.bandits@) <= u64::MAX
    }

    /// The arm a round decides on, given the round's draws.
    pub open spec fn spec_pick(self, dr: RoundDraws) -> int {
        match self.strategy {
            Strategy::Oracle => best_real_idx(self.bandits@),
            Strategy::EpsilonGreedy(e) => eps_pick(
                self.bandits@,
                e as int,
                dr.explore as int,
                dr.arm as int,
            ),
            Strategy::EpsilonDecay(e0, d) => eps_pick(
                self.bandits@,
                decayed_eps(e0 as int, d as int, total_plays(self.bandits@) as nat),
                dr.explore as int,
                dr.arm as int,
            ),
            Strategy::Thompson => best_sample_idx(dr.samples@),
            Strategy::NaiveRandom => dr.arm as int,
            Strategy::ConstantFirst => 0,
            Strategy::AdversarialWorst => worst_real_idx(self.bandits@),
        }
    }

    /// Draws valid for one round of this casino.
    pub open spec fn draws_ok(self, dr: RoundDraws) -> bool {
        &&& dr.explore < SCALE
        &&& dr.arm < self.bandits@.len()
        &&& dr.trial < SCALE
        &&& (self.strategy.spec_is_thompson() ==> dr.samples@.len() == self.bandits@.len())
    }

    /// Decides [`Casino::draws_ok`]; an unverified caller checks its
    /// draws here before stepping.
    pub fn check_draws(&self, dr: &RoundDraws) -> (r: bool)
        ensures
            r == self.draws_ok(*dr),
    {
        dr.explore < SCALE && dr.arm < self.bandits.len() && dr.trial < SCALE && (
        !self.strategy.is_thompson() || dr.samples.len() == self.bandits.len())
    }

    /// Assembles an engine from its parts, as given.
    pub fn new(num_plays: u64, strategy: Strategy, bandits: Vec<Bandit>) -> (c: Casino)
        ensures
            c.num_plays == num_plays,
            c.strategy == strategy,
            c.bandits == bandits,
    {
        Casino { num_plays, strategy, bandits }
    }

    /// Total plays accumulated across all arms so far.
    pub fn rounds_played(&self) -> (r: u64)
        requires
            self.wf(),
        ensures
            r == total_plays(self.bandits@),
    {
        count_plays(&self.bandits)
    }

    /// Cumulative regret, recomputed from scratch from the current arm
    /// set; see [`regret_num`]. Recomputing each round prevents drift.
    pub fn regret_scaled(&self) -> (r: i128)
        requires
            self.wf(),
        ensures
            r == regret_num(self.bandits@),
    {
        proof {
            lemma_best_real_idx(self.bandits@);
            lemma_totals_bounds(self.bandits@);
        }
        let best: usize = pick_bandit_oracle(&self.bandits);
        let p: u64 = self.bandits[best].prob_real;
        let tp: u64 = count_plays(&self.bandits);
        let tw: u64 = count_wins(&self.bandits);
        proof {
            lemma_mul_small_by_u64(p as int, tp as int);
            lemma_mul_small_by_u64(SCALE as int, tw as int);
        }
        (p as i128) * (tp as i128) - (tw as i128) * (SCALE as i128)
    }

    /// One round on the given draws: decide an arm, apply the
    /// Bernoulli trial to it (a win exactly when the trial draw falls
    /// below the arm's true probability), and emit the pre-trial
    /// estimates together with the recomputed cumulative regret.
    ///
    /// Exactly the decided arm changes, by exactly one play.
    pub fn step(&mut self, dr: &RoundDraws) -> (rec: RoundRecord)
        requires
            old(self).wf(),
            old(self).draws_ok(*dr),
            total_plays(old(self).bandits@) < u64::MAX,
        ensures
            final(self).wf(),
            final(self).num_plays == old(self).num_plays,
            final(self).strategy == old(self).strategy,
            final(self).bandits@.len() == old(self).bandits@.len(),
            ({
                let k = old(self).spec_pick(*dr);
                &&& 0 <= k < old(self).bandits@.len()
                &&& final(self).bandits@[k].plays == old(self).bandits@[k].plays + 1
                &&& final(self).bandits@[k].wins == old(self).bandits@[k].wins + (if dr.trial
                    < old(self).bandits@[k].prob_real {
                    1int
                } else {
                    0int
                })
                &&& final(self).bandits@[k].prob_real == old(self).bandits@[k].prob_real
                &&& forall|j: int|
                    0 <= j < old(self).bandits@.len() && j != k ==> final(self).bandits@[j] == old(
                        self,
                    ).bandits@[j]
            }),
            total_plays(final(self).bandits@) == total_plays(old(self).bandits@) + 1,
            total_wins(final(self).bandits@) == total_wins(old(self).bandits@) + (if dr.trial
                < old(self).bandits@[old(self).spec_pick(*dr)].prob_real {
                1int
            } else {
                0int
            }),
            rec.estimates@.len() == old(self).bandits@.len(),
            forall|i: int|
                0 <= i < old(self).bandits@.len() ==> rec.estimates@[i] == old(
                    self,
                ).bandits@[i].est_num() * SCALE / old(self).bandits@[i].est_den(),
            rec.regret_scaled == regret_num(final(self).bandits@),
    {
        let mut estimates: Vec<u64> = Vec::new();
        let mut i: usize = 0;
        while i < self.bandits.len()
            invariant
                0 <= i <= self.bandits@.len(),
                *self == *old(self),
                old(self).wf(),
                estimates@.len() == i,
                forall|t: int|
                    0 <= t < i ==> estimates@[t] == old(self).bandits@[t].est_num() * SCALE / old(
                        self,
                    ).bandits@[t].est_den(),
            decreases self.bandits@.len() - i,
        {
            estimates.push(self.bandits[i].est_scaled());
            i = i + 1;
        }
        let k: usize = match self.strategy {
            Strategy::Oracle => pick_bandit_oracle(&self.bandits),
            Strategy::EpsilonGreedy(e) => pick_bandit_epsilon_greedy_from(
                &self.bandits,
                e,
                dr.explore,
                dr.arm,
            ),
            Strategy::EpsilonDecay(e0, d) => pick_bandit_epsilon_decay_from(
                &self.bandits,
                e0,
                d,
                dr.explore,
                dr.arm,
            ),
            Strategy::Thompson => pick_bandit_thompson(&dr.samples),
            Strategy::NaiveRandom => dr.arm,
            Strategy::ConstantFirst => pick_first_bandit_always(&self.bandits),
            Strategy::AdversarialWorst => pick_bandit_adversarial_worst(&self.bandits),
        };
        proof {
            match self.strategy {
                Strategy::Oracle => lemma_best_real_idx(self.bandits@),
                Strategy::Thompson => lemma_best_sample_idx(dr.samples@),
                Strategy::AdversarialWorst => lemma_worst_real_idx(self.bandits@),
                _ => lemma_best_est_idx(self.bandits@),
            }
            lemma_arm_plays_le_total(self.bandits@, k as int);
        }
        let mut chosen: Bandit = self.bandits[k];
        chosen.record_trial(dr.trial);
        self.bandits[k] = chosen;
        proof {
            lemma_totals_update(old(self).bandits@, k as int, chosen);
            assert forall|j: int| 0 <= j < self.bandits@.len() implies (
            #[trigger] self.bandits@[j]).wf() by {
                if j != k as int {
                    assert(self.bandits@[j] == old(self).bandits@[j]);
                }
            }
        }
        let reg: i128 = self.regret_scaled();
        RoundRecord { estimates, regret_scaled: reg }
    }

    /// Runs exactly `num_plays` rounds, drawing for itself in a fixed
    /// per-round order: the explore-vs-exploit draw where the strategy
    /// consumes one, the arm-selection draw where it may pick at
    /// random, then the trial-outcome draw. Thompson sampling needs
    /// posterior samples the library cannot draw, so its rounds go
    /// through [`Casino::step`] instead.
    ///
    /// True probabilities never change; under `ConstantFirst` only arm
    /// 0 is ever played, and under `Oracle` only the best arm.
    pub fn run(&mut self) -> (records: Vec<RoundRecord>)
        requires
            old(self).wf(),
            !old(self).strategy.spec_is_thompson(),
            total_plays(old(self).bandits@) + old(self).num_plays <= u64::MAX,
        ensures
            final(self).wf(),
            final(self).num_plays == old(self).num_plays,
            final(self).strategy == old(self).strategy,
            final(self).bandits@.len() == old(self).bandits@.len(),
            forall|j: int|
                0 <= j < old(self).bandits@.len() ==> (
                #[trigger] final(self).bandits@[j]).prob_real == old(self).bandits@[j].prob_real,
            total_plays(final(self).bandits@) == total_plays(old(self).bandits@) + old(
                self,
            ).num_plays,
            records@.len() == old(self).num_plays,
            forall|i: int|
                0 <= i < records@.len() ==> (#[trigger] records@[i]).estimates@.len() == old(
                    self,
                ).bandits@.len(),
            old(self).strategy == Strategy::ConstantFirst ==> final(self).bandits@[0].plays == old(
                self,
            ).bandits@[0].plays + old(self).num_plays && (forall|j: int|
                1 <= j < old(self).bandits@.len() ==> #[trigger] final(self).bandits@[j] == old(
                    self,
                ).bandits@[j]),
            old(self).strategy == Strategy::Oracle ==> ({
                let k = best_real_idx(old(self).bandits@);
                &&& final(self).bandits@[k].plays == old(self).bandits@[k].plays + old(
                    self,
                ).num_plays
                &&& forall|j: int|
                    0 <= j < old(self).bandits@.len() && j != k ==> #[trigger] final(self).bandits@[j] == old(self).bandits@[j]
            }),
    {
        let mut records: Vec<RoundRecord> = Vec::new();
        let mut i: u64 = 0;
        proof {
            if old(self).strategy == Strategy::Oracle {
                lemma_best_real_idx(old(self).bandits@);
            }
        }
        while i < self.num_plays
            invariant
                0 <= i <= self.num_plays,
                self.wf(),
                self.num_plays == old(self).num_plays,
                self.strategy == old(self).strategy,
                !self.strategy.spec_is_thompson(),
                self.bandits@.len() == old(self).bandits@.len(),
                forall|j: int|
                    0 <= j < old(self).bandits@.len() ==> (
                    #[trigger] self.bandits@[j]).prob_real == old(self).bandits@[j].prob_real,
                total_plays(self.bandits@) == total_plays(old(self).bandits@) + i,
                total_plays(old(self).bandits@) + old(self).num_plays <= u64::MAX,
                records@.len() == i,
                forall|t: int|
                    0 <= t < records@.len() ==> (#[trigger] records@[t]).estimates@.len() == old(
                        self,
                    ).bandits@.len(),
                old(self).strategy == Strategy::ConstantFirst ==> self.bandits@[0].plays == old(
                    self,
                ).bandits@[0].plays + i && (forall|j: int|
                    1 <= j < old(self).bandits@.len() ==> #[trigger] self.bandits@[j] == old(
                        self,
                    ).bandits@[j]),
                old(self).strategy == Strategy::Oracle ==> ({
                    let k = best_real_idx(old(self).bandits@);
                    &&& 0 <= k < old(self).bandits@.len()
                    &&& self.bandits@[k].plays == old(self).bandits@[k].plays + i
                    &&& forall|j: int|
                        0 <= j < old(self).bandits@.len() && j != k ==> #[trigger] self.bandits@[j]
                            == old(self).bandits@[j]
                }),
            decreases self.num_plays - i,
        {
            let explore: u64 = if self.strategy.uses_explore_draw() {
                rand_below(SCALE)
            } else {
                0
            };
            let arm: usize = if self.strategy.uses_arm_draw() {
                let n: u64 = self.bandits.len() as u64;
                rand_below(n) as usize
            } else {
                0
            };
            let trial: u64 = rand_below(SCALE);
            let dr = RoundDraws { explore, arm, trial, samples: Vec::new() };
            let ghost before = *self;
            let rec = self.step(&dr);
            records.push(rec);
            i = i + 1;
            proof {
                if old(self).strategy == Strategy::Oracle {
                    lemma_best_real_idx_same(before.bandits@, old(self).bandits@);
                }
            }
        }
        records
    }
}

/// Why a configuration was rejected; detected before any round runs,
/// so no partial simulation happens.
#[derive(Clone, Copy, PartialEq, Eq, Structural, Debug)]
pub enum ConfigError {
    /// The round count was zero; at least one round must run.
    NonPositiveRounds,
    /// No true probabilities were given; the arm set may not be empty.
    NoArms,
    /// A true probability exceeded [`SCALE`], so it is no fraction in
    /// `[0, 1]`.
    ProbabilityOutOfRange,
    /// A strategy rate parameter exceeded [`SCALE`].
    StrategyParamOutOfRange,
}

/// Every probability is a valid fraction of [`SCALE`].
pub open spec fn probs_ok(ps: Seq<u64>) -> bool {
    forall|j: int| 0 <= j < ps.len() ==> #[trigger] ps[j] <= SCALE
}

/// Validates a configuration and assembles the engine from it, one
/// fresh arm per true probability; rejects exactly the configurations
/// named by [`ConfigError`], checked in that order.
pub fn make_casino(num_plays: u64, strategy: Strategy, probs: &Vec<u64>) -> (r: Result<
    Casino,
    ConfigError,
>)
    ensures
        match r {
            Ok(c) => {
                &&& num_plays >= 1
                &&& probs@.len() >= 1
                &&& probs_ok(probs@)
                &&& strategy.wf()
                &&& c.wf()
                &&& c.num_plays == num_plays
                &&& c.strategy == strategy
                &&& c.bandits@.len() == probs@.len()
                &&& total_plays(c.bandits@) == 0
                &&& forall|j: int|
                    0 <= j < probs@.len() ==> (#[trigger] c.bandits@[j]).plays == 0
                        && c.bandits@[j].wins == 0 && c.bandits@[j].prob_real == probs@[j]
            },
            Err(e) => {
                &&& (e == ConfigError::NonPositiveRounds <==> num_plays == 0)
                &&& (e == ConfigError::NoArms <==> num_plays >= 1 && probs@.len() == 0)
                &&& (e == ConfigError::ProbabilityOutOfRange <==> num_plays >= 1 && probs@.len()
                    >= 1 && !probs_ok(probs@))
                &&& (e == ConfigError::StrategyParamOutOfRange <==> num_plays >= 1 && probs@.len()
                    >= 1 && probs_ok(probs@) && !strategy.wf())
            },
        },
{
    if num_plays == 0 {
        return Err(ConfigError::NonPositiveRounds);
    }
    if probs.len() == 0 {
        return Err(ConfigError::NoArms);
    }
    let mut i: usize = 0;
    while i < probs.len()
        invariant
            0 <= i <= probs@.len(),
            num_plays >= 1,
            probs@.len() >= 1,
            forall|j: int| 0 <= j < i ==> #[trigger] probs@[j] <= SCALE,
        decreases probs@.len() - i,
    {
        if probs[i] > SCALE {
            proof {
                assert(!probs_ok(probs@)) by {
                    assert(probs@[i as int] > SCALE);
                }
            }
            return Err(ConfigError::ProbabilityOutOfRange);
        }
        i = i + 1;
    }
    if !strategy.params_ok() {
        return Err(ConfigError::StrategyParamOutOfRange);
    }
    let mut bandits: Vec<Bandit> = Vec::new();
    let mut i: usize = 0;
    while i < probs.len()
        invariant
            0 <= i <= probs@.len(),
            probs_ok(probs@),
            bandits@.len() == i,
            total_plays(bandits@) == 0,
            forall|j: int|
                0 <= j < i ==> (#[trigger] bandits@[j]).plays == 0 && bandits@[j].wins == 0
                    && bandits@[j].prob_real == probs@[j],
        decreases probs@.len() - i,
    {
        let ghost before = bandits@;
        bandits.push(Bandit::new(probs[i]));
        proof {
            assert(bandits@.drop_last() =~= before);
        }
        i = i + 1;
    }
    proof {
        assert forall|j: int| 0 <= j < bandits@.len() implies (#[trigger] bandits@[j]).wf() by {}
    }
    Ok(Casino::new(num_plays, strategy, bandits))
}

#[verifier::nonlinear]
proof fn lemma_mul_small_by_u64(x: int, y: int)
    requires
        0 <= x <= SCALE,
        0 <= y <= 0xFFFF_FFFF_FFFF_FFFF,
    ensures
        0 <= x * y <= SCALE * 0xFFFF_FFFF_FFFF_FFFF,
{
}

} // verus!
