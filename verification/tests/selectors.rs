use bandit::SCALE;
use bandit::arm::Bandit;
use bandit::arm::count_plays;
use bandit::arm::count_wins;
use bandit::arm::est_below;
use bandit::select::pick_bandit_adversarial_worst;
use bandit::select::pick_bandit_epsilon_decay_from;
use bandit::select::pick_bandit_epsilon_greedy;
use bandit::select::pick_bandit_epsilon_greedy_from;
use bandit::select::pick_bandit_greedy;
use bandit::select::pick_bandit_naive_random;
use bandit::select::pick_bandit_oracle;
use bandit::select::pick_bandit_thompson;
use bandit::select::pick_first_bandit_always;
use bandit::strategy::decay_eps;

fn arms_with_probs(ps: &[u64]) -> Vec<Bandit> {
    ps.iter().map(|&p| Bandit::new(p)).collect()
}

fn arm_with_counts(plays: u64, wins: u64) -> Bandit {
    let mut b = Bandit::new(0);
    for i in 0..plays {
        // a trial draw of 0 wins only against a positive probability
        b.prob_real = if i < wins { 1 } else { 0 };
        b.record_trial(0);
    }
    b.prob_real = 0;
    b
}

#[test]
fn oracle_picks_greatest_true_probability() {
    let arms = arms_with_probs(&[300_000, 700_000, 500_000, 100_000]);
    assert_eq!(pick_bandit_oracle(&arms), 1);
}

#[test]
fn oracle_breaks_ties_by_first_occurrence() {
    let arms = arms_with_probs(&[300_000, 700_000, 700_000, 1_000_000, 1_000_000]);
    assert_eq!(pick_bandit_oracle(&arms), 3);
    let tied = arms_with_probs(&[500_000, 500_000, 500_000]);
    assert_eq!(pick_bandit_oracle(&tied), 0);
}

#[test]
fn adversarial_picks_least_true_probability_first() {
    let arms = arms_with_probs(&[300_000, 100_000, 100_000, 900_000]);
    assert_eq!(pick_bandit_adversarial_worst(&arms), 1);
}

#[test]
fn constant_first_picks_arm_zero() {
    let arms = arms_with_probs(&[300_000, 900_000]);
    assert_eq!(pick_first_bandit_always(&arms), 0);
}

#[test]
fn estimate_comparison_is_exact_rational() {
    // 1/3 < 1/2 (fresh arm's prior), and 2/3 > 1/2
    let third = arm_with_counts(3, 1);
    let fresh = Bandit::new(0);
    let two_thirds = arm_with_counts(3, 2);
    assert!(est_below(&third, &fresh));
    assert!(!est_below(&fresh, &third));
    assert!(est_below(&fresh, &two_thirds));
    // equal rationals in different terms: 1/2 == 2/4
    let half = arm_with_counts(4, 2);
    assert!(!est_below(&half, &fresh));
    assert!(!est_below(&fresh, &half));
}

#[test]
fn greedy_picks_greatest_estimate_first_on_ties() {
    // estimates: 1/2 (prior), 2/3, 2/3, 0/2
    let arms = vec![
        Bandit::new(0),
        arm_with_counts(3, 2),
        arm_with_counts(3, 2),
        arm_with_counts(2, 0),
    ];
    assert_eq!(pick_bandit_greedy(&arms), 1);
    // all fresh: tie on the prior, first arm wins
    let fresh = arms_with_probs(&[100_000, 900_000, 500_000]);
    assert_eq!(pick_bandit_greedy(&fresh), 0);
}

#[test]
fn epsilon_greedy_explores_below_the_rate_only() {
    let arms = vec![Bandit::new(0), arm_with_counts(2, 2), Bandit::new(0)];
    // explore draw below the rate: the drawn arm is taken as it is
    assert_eq!(pick_bandit_epsilon_greedy_from(&arms, 400_000, 399_999, 2), 2);
    // explore draw at or above the rate: exploit the best estimate
    assert_eq!(pick_bandit_epsilon_greedy_from(&arms, 400_000, 400_000, 2), 1);
}

#[test]
fn epsilon_zero_always_exploits() {
    // the greedy selector's outcome is fixed whatever both draws were
    let arms = vec![arm_with_counts(2, 0), arm_with_counts(2, 2), Bandit::new(0)];
    for explore in [0u64, 1, 123_456, 999_999] {
        for arm in [0usize, 1, 2] {
            assert_eq!(pick_bandit_epsilon_greedy_from(&arms, 0, explore, arm), 1);
        }
    }
}

#[test]
fn epsilon_one_always_explores() {
    let arms = vec![arm_with_counts(2, 0), arm_with_counts(2, 2), Bandit::new(0)];
    for explore in [0u64, 1, 123_456, 999_999] {
        for arm in [0usize, 1, 2] {
            assert_eq!(pick_bandit_epsilon_greedy_from(&arms, SCALE, explore, arm), arm);
        }
    }
}

#[test]
fn epsilon_greedy_total_on_every_draw() {
    let arms = vec![Bandit::new(0), Bandit::new(500_000)];
    for _ in 0..200 {
        assert!(pick_bandit_epsilon_greedy(&arms, 500_000) < arms.len());
    }
}

#[test]
fn naive_random_stays_in_range_and_reaches_every_arm() {
    let arms = arms_with_probs(&[0, 0, 0]);
    let mut seen = [false; 3];
    for _ in 0..1000 {
        let k = pick_bandit_naive_random(&arms);
        assert!(k < 3);
        seen[k] = true;
    }
    assert!(seen.iter().all(|&s| s));
}

#[test]
fn decay_schedule_shrinks_by_the_factor_each_play() {
    // a factor of 1/2 per play halves the rate each time, rounding down
    assert_eq!(decay_eps(1_000_000, 500_000, 0), 1_000_000);
    assert_eq!(decay_eps(1_000_000, 500_000, 1), 500_000);
    assert_eq!(decay_eps(1_000_000, 500_000, 3), 125_000);
    assert_eq!(decay_eps(999, 500_000, 1), 499);
    // a factor of one never decays; a factor of zero kills the rate
    assert_eq!(decay_eps(750_000, 1_000_000, 1000), 750_000);
    assert_eq!(decay_eps(750_000, 0, 1), 0);
}

#[test]
fn epsilon_decay_uses_the_decayed_rate() {
    // two arms with 3 plays each: 6 plays, rate 800_000 * (1/2)^6 = 12_500
    let mut a = arm_with_counts(3, 3);
    a.prob_real = 900_000;
    let b = arm_with_counts(3, 0);
    let arms = vec![b, a];
    // explore draw just below the decayed rate: explore to the drawn arm
    assert_eq!(pick_bandit_epsilon_decay_from(&arms, 800_000, 500_000, 12_499, 0), 0);
    // at the decayed rate: exploit (arm 1 has estimate 1 > 0)
    assert_eq!(pick_bandit_epsilon_decay_from(&arms, 800_000, 500_000, 12_500, 0), 1);
}

#[test]
fn thompson_picks_strictly_greatest_sample_first() {
    assert_eq!(pick_bandit_thompson(&vec![5, 9, 9, 2]), 1);
    assert_eq!(pick_bandit_thompson(&vec![7, 7]), 0);
    assert_eq!(pick_bandit_thompson(&vec![0]), 0);
    assert_eq!(pick_bandit_thompson(&vec![1, 2, 3]), 2);
}

#[test]
fn totals_sum_all_arms() {
    let arms = vec![arm_with_counts(3, 1), arm_with_counts(5, 5), Bandit::new(0)];
    assert_eq!(count_plays(&arms), 8);
    assert_eq!(count_wins(&arms), 6);
}
