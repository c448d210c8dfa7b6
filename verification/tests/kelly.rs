use kelly_stake::fixed::{LOG_BOUND, SCALE};
use kelly_stake::kelly::{calculate_kelly_stake, calculate_log_expected_wealth};

/// Natural logarithm on the fixed-point line; non-positive wealth is
/// reported as the most unattractive value the contract allows.
fn fixed_ln(w: i64) -> i64 {
    if w <= 0 {
        -LOG_BOUND
    } else {
        let v = ((w as f64 / SCALE as f64).ln() * SCALE as f64).round() as i64;
        v.clamp(-LOG_BOUND, LOG_BOUND)
    }
}

#[test]
fn kelly_objective_sanity_single_outcome() {
    // A single binary market: back at price 2.0 with probability 0.6,
    // bankroll 100, and the complementary losing outcome carrying the
    // remaining probability 0.4.  The closed-form full-Kelly stake is
    // (0.6 * 1 - 0.4) / 1 = 0.2 of the bankroll, i.e. 20.0.
    let oprobs: Vec<i64> = vec![400_000_000];
    let opos: Vec<i64> = vec![0];
    let r = calculate_kelly_stake(
        2 * SCALE,
        true,
        600_000_000,
        &oprobs,
        0,
        &opos,
        100 * SCALE,
        SCALE,
        &fixed_ln,
    );
    let expected = 20 * SCALE;
    assert!(
        (r.xmin - expected).abs() <= 100_000_000,
        "stake = {} fixed-point units",
        r.xmin
    );
    assert!(r.calls <= 500);
}

#[test]
fn degenerate_probability_drives_stake_to_zero() {
    // Probability zero on the backed outcome: betting has only downside,
    // so the optimal stake is the lower bound of the bracket.
    let oprobs: Vec<i64> = vec![SCALE];
    let opos: Vec<i64> = vec![0];
    let r = calculate_kelly_stake(
        2 * SCALE,
        true,
        0,
        &oprobs,
        0,
        &opos,
        100 * SCALE,
        SCALE,
        &fixed_ln,
    );
    assert!(r.xmin <= 10_000_000, "stake = {} fixed-point units", r.xmin);
}

#[test]
fn lay_equals_back_at_negated_stake() {
    // Mirror symmetry: laying a stake reports exactly the expected log
    // wealth that backing the negated stake reports.
    let oprobs: Vec<i64> = vec![300_000_000, 200_000_000];
    let opos: Vec<i64> = vec![2 * SCALE, -SCALE];
    let stake = 5 * SCALE;
    let w_lay = calculate_log_expected_wealth(
        stake,
        1_800_000_000,
        false,
        500_000_000,
        &oprobs,
        SCALE,
        &opos,
        50 * SCALE,
        &fixed_ln,
    );
    let w_back = calculate_log_expected_wealth(
        -stake,
        1_800_000_000,
        true,
        500_000_000,
        &oprobs,
        SCALE,
        &opos,
        50 * SCALE,
        &fixed_ln,
    );
    assert_eq!(w_lay, w_back);
}

#[test]
fn log_expected_wealth_exact_value() {
    // With a deterministic placeholder logarithm the fixed-point weighted
    // sum is exact: stake 2.0 backed at price 3.0 on bankroll 10.0 gives
    // target wealth 14.0 and other wealth 9.0; with log(w) = w / 1000 the
    // expected value is (0.5 * 14e6 + 0.25 * 9e6) = 9_250_000.
    let placeholder_log = |w: i64| (w / 1_000).clamp(-LOG_BOUND, LOG_BOUND);
    let oprobs: Vec<i64> = vec![250_000_000];
    let opos: Vec<i64> = vec![SCALE];
    let r = calculate_log_expected_wealth(
        2 * SCALE,
        3 * SCALE,
        true,
        500_000_000,
        &oprobs,
        0,
        &opos,
        10 * SCALE,
        &placeholder_log,
    );
    assert_eq!(r, 9_250_000);
}

#[test]
fn nonpositive_wealth_is_unattractive_not_fatal() {
    // A stake that bankrupts the other outcome: the objective stays finite
    // and the optimiser still returns a stake inside the bracket.
    let oprobs: Vec<i64> = vec![500_000_000];
    let opos: Vec<i64> = vec![0];
    let r = calculate_kelly_stake(
        10 * SCALE,
        true,
        500_000_000,
        &oprobs,
        0,
        &opos,
        100 * SCALE,
        SCALE,
        &fixed_ln,
    );
    assert!(0 <= r.xmin && r.xmin <= 100 * SCALE);
    assert!(r.calls <= 500);
    // The optimum must stop short of bankruptcy at stake = bankroll.
    assert!(r.xmin < 100 * SCALE);
}

#[test]
fn evaluation_trace_is_reported_for_diagnostics() {
    let oprobs: Vec<i64> = Vec::new();
    let opos: Vec<i64> = Vec::new();
    let r = calculate_kelly_stake(
        2 * SCALE,
        true,
        600_000_000,
        &oprobs,
        0,
        &opos,
        100 * SCALE,
        SCALE,
        &fixed_ln,
    );
    assert_eq!(r.evals.len() as u64, r.calls);
    assert_eq!(r.steps.len() as u64, r.calls);
    for &(x, v) in r.evals.iter() {
        assert!(0 <= x && x <= 100 * SCALE);
        assert!(r.fmin <= v);
    }
}
