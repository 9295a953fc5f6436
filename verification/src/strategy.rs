//! The strategy variants and the exploration-rate decay schedule.

use vstd::prelude::*;

use crate::SCALE;

verus! {

/// A decision strategy: one variant per selection rule, each carrying
/// only its own parameters. Rates are fixed-point fractions of
/// [`SCALE`].
#[derive(Clone, Copy, PartialEq, Eq, Structural, Debug)]
pub enum Strategy {
    /// Picks the arm with the greatest true probability; a best-case
    /// regret baseline that needs the ground truth.
    Oracle,
    /// Explores a uniformly drawn arm when the explore draw falls below
    /// the carried rate, exploits the best current estimate otherwise.
    EpsilonGreedy(u64),
    /// Epsilon-greedy whose effective rate starts at the first field
    /// and shrinks by the per-play factor `second field / SCALE` for
    /// every play accumulated across all arms.
    EpsilonDecay(u64, u64),
    /// Samples each arm's Beta posterior and picks the arm with the
    /// strictly greatest sample; the first-sampled maximum wins ties.
    Thompson,
    /// Picks a uniformly drawn arm every round, ignoring all state.
    NaiveRandom,
    /// Always picks arm 0; a fixed baseline with no adaptation.
    ConstantFirst,
    /// Picks the arm with the least true probability; a worst-case
    /// baseline that needs the ground truth.
    AdversarialWorst,
}

impl Strategy {
    /// Well-formed: every carried rate is a valid fraction of [`SCALE`].
    pub open spec fn wf(self) -> bool {
        match self {
            Strategy::EpsilonGreedy(e) => e <= SCALE,
            Strategy::EpsilonDecay(e0, d) => e0 <= SCALE && d <= SCALE,
            _ => true,
        }
    }

    pub open spec fn spec_is_thompson(self) -> bool {
        match self {
            Strategy::Thompson => true,
            _ => false,
        }
    }

    /// Whether this is the Thompson-sampling variant, whose posterior
    /// samples the caller must supply.
    pub fn is_thompson(&self) -> (r: bool)
        ensures
            r == self.spec_is_thompson(),
    {
        matches!(self, Strategy::Thompson)
    }

    pub open spec fn spec_uses_explore_draw(self) -> bool {
        match self {
            Strategy::EpsilonGreedy(_) => true,
            Strategy::EpsilonDecay(_, _) => true,
            _ => false,
        }
    }

    /// Whether a round under this strategy consumes an
    /// explore-vs-exploit draw.
    pub fn uses_explore_draw(&self) -> (r: bool)
        ensures
            r == self.spec_uses_explore_draw(),
    {
        matches!(self, Strategy::EpsilonGreedy(_) | Strategy::EpsilonDecay(_, _))
    }

    pub open spec fn spec_uses_arm_draw(self) -> bool {
        match self {
            Strategy::EpsilonGreedy(_) => true,
            Strategy::EpsilonDecay(_, _) => true,
            Strategy::NaiveRandom => true,
            _ => false,
        }
    }

    /// Whether a round under this strategy may consume a uniform
    /// arm-selection draw.
    pub fn uses_arm_draw(&self) -> (r: bool)
        ensures
            r == self.spec_uses_arm_draw(),
    {
        matches!(
            self,
            Strategy::EpsilonGreedy(_) | Strategy::EpsilonDecay(_, _) | Strategy::NaiveRandom
        )
    }

    /// Checks that every carried rate is a valid fraction of [`SCALE`].
    pub fn params_ok(&self) -> (r: bool)
        ensures
            r == self.wf(),
    {
        match self {
            Strategy::EpsilonGreedy(e) => *e <= SCALE,
            Strategy::EpsilonDecay(e0, d) => *e0 <= SCALE && *d <= SCALE,
            _ => true,
        }
    }
}

/// The exploration rate after `t` accumulated plays: the initial rate
/// `e0` multiplied `t` times by the per-play factor `d / SCALE`, each
/// step rounded down.
pub open spec fn decayed_eps(e0: int, d: int, t: nat) -> int
    decreases t,
{
    if t == 0 {
        e0
    } else {
        decayed_eps(e0, d, (t - 1) as nat) * d / (SCALE as int)
    }
}

/// Computes [`decayed_eps`]; the effective rate never exceeds the
/// initial one.
pub fn decay_eps(e0: u64, d: u64, t: u64) -> (r: u64)
    requires
        e0 <= SCALE,
        d <= SCALE,
    ensures
        r == decayed_eps(e0 as int, d as int, t as nat),
        r <= e0,
{
    let mut e: u64 = e0;
    let mut i: u64 = 0;
    while i < t
        invariant
            i <= t,
            e <= e0,
            e0 <= SCALE,
            d <= SCALE,
            e == decayed_eps(e0 as int, d as int, i as nat),
        decreases t - i,
    {
        proof {
            lemma_decay_step(e as int, d as int);
        }
        e = (e * d) / SCALE;
        i = i + 1;
    }
    e
}

#[verifier::nonlinear]
proof fn lemma_decay_step(e: int, d: int)
    requires
        0 <= e <= SCALE,
        0 <= d <= SCALE,
    ensures
        0 <= e * d <= SCALE * SCALE,
        e * d / (SCALE as int) <= e,
{
}

} // verus!
