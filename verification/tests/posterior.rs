//! The Thompson posterior end to end: shapes from the library, samples
//! from the Beta distribution those shapes parameterize.

use bandit::arm::Bandit;
use rand_distr::Beta;
use rand_distr::Distribution;

fn empirical_mean(alpha: u64, beta: u64, draws: usize) -> f64 {
    let dist = Beta::new(alpha as f64, beta as f64).unwrap();
    let mut rng = rand::rng();
    let mut sum = 0.0f64;
    for _ in 0..draws {
        let theta: f64 = dist.sample(&mut rng);
        assert!((0.0..=1.0).contains(&theta));
        sum += theta;
    }
    sum / draws as f64
}

#[test]
fn untouched_arm_samples_the_uniform_prior() {
    let fresh = Bandit::new(500_000);
    let (a, b) = fresh.posterior_shape();
    assert_eq!((a, b), (1, 1));
    // Beta(1, 1) is uniform(0, 1): mean 1/2
    let mean = empirical_mean(a, b, 20_000);
    assert!((mean - 0.5).abs() < 0.02, "uniform mean came out {mean}");
}

#[test]
fn sure_arm_samples_a_sharply_optimistic_posterior() {
    let mut sure = Bandit::new(1_000_000);
    for _ in 0..10 {
        sure.record_trial(0);
    }
    let (a, b) = sure.posterior_shape();
    assert_eq!((a, b), (11, 1));
    // the posterior mean approximates (wins + 1) / (plays + 2) = 11/12
    let mean = empirical_mean(a, b, 20_000);
    assert!((mean - 11.0 / 12.0).abs() < 0.02, "Beta(11, 1) mean came out {mean}");
}

#[test]
fn posterior_mean_tracks_the_observed_ratio() {
    // 3 wins in 9 plays: Beta(4, 7), mean 4/11
    let mut arm = Bandit::new(0);
    for i in 0..9u64 {
        arm.prob_real = if i < 3 { 1_000_000 } else { 0 };
        arm.record_trial(0);
    }
    let (a, b) = arm.posterior_shape();
    assert_eq!((a, b), (4, 7));
    let mean = empirical_mean(a, b, 20_000);
    assert!((mean - 4.0 / 11.0).abs() < 0.02, "Beta(4, 7) mean came out {mean}");
}
