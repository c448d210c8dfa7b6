use kelly_stake::fixed::{SCALE, XATOL};
use kelly_stake::minimize::{bounded_minimisation, StepKind};

/// `(x - 1)^2` on the fixed-point line, scaled up tenfold so that the
/// truncated square is exactly zero only for |x - 1| < xatol: the plateau
/// of exact minimisers then sits inside the absolute tolerance itself.
fn square_about_one(x: i64) -> i64 {
    let d = (x - SCALE) as i128;
    ((d * d) / (SCALE as i128 / 10)) as i64
}

#[test]
fn example1() {
    let r = bounded_minimisation(square_about_one, -4 * SCALE, 4 * SCALE);
    // The minimum of (x - 1)^2 over [-4, 4] is at 1.0, found to within
    // xatol = 1e-5: the result is an exact minimiser of the fixed-point
    // square, whose zero plateau lies strictly inside that tolerance.
    assert_eq!(square_about_one(r.xmin), 0);
    assert!((r.xmin - SCALE).abs() <= XATOL, "xmin = {}", r.xmin);
}

#[test]
fn example2() {
    let r = bounded_minimisation(square_about_one, 3 * SCALE, 4 * SCALE);
    // The minimum lies outside [3, 4], so the nearest boundary 3.0 is
    // returned, to within xatol.
    assert!((r.xmin - 3 * SCALE).abs() <= XATOL, "xmin = {}", r.xmin);
}

#[test]
fn incumbent_values_never_increase() {
    let r = bounded_minimisation(square_about_one, -4 * SCALE, 4 * SCALE);
    let mut best = r.evals[0].1;
    for &(_, v) in r.evals.iter() {
        let new_best = if v < best { v } else { best };
        assert!(new_best <= best);
        best = new_best;
        assert!(r.fmin <= v);
    }
    assert_eq!(best, r.fmin);
}

#[test]
fn call_budget_respected_on_jagged_objective() {
    // A deterministic, jagged, non-unimodal objective.
    let jagged = |x: i64| -> i64 { (x.wrapping_mul(2_654_435_761)) % SCALE };
    let r = bounded_minimisation(jagged, -100 * SCALE, 100 * SCALE);
    assert!(r.calls >= 1);
    assert!(r.calls <= 500);
    assert_eq!(r.evals.len() as u64, r.calls);
    assert_eq!(r.steps.len() as u64, r.calls);
}

#[test]
fn bracket_contains_every_trial_point() {
    let lower = -4 * SCALE;
    let upper = 4 * SCALE;
    let r = bounded_minimisation(square_about_one, lower, upper);
    assert!(lower <= r.bracket_low);
    assert!(r.bracket_low <= r.xmin);
    assert!(r.xmin <= r.bracket_high);
    assert!(r.bracket_high <= upper);
    assert!(r.bracket_low < r.bracket_high);
    for &(x, _) in r.evals.iter() {
        assert!(lower <= x && x <= upper);
    }
}

#[test]
fn trace_starts_with_initial_evaluation() {
    let r = bounded_minimisation(square_about_one, -4 * SCALE, 4 * SCALE);
    assert_eq!(r.steps[0], StepKind::Initial);
    assert!(r
        .steps
        .iter()
        .skip(1)
        .all(|s| *s == StepKind::Golden || *s == StepKind::Parabolic));
}

#[test]
fn tiny_bracket_converges_after_the_seed_evaluation() {
    // A bracket narrower than the tolerance: the seed evaluation already
    // satisfies the convergence criterion.
    let r = bounded_minimisation(square_about_one, 0, 1);
    assert_eq!(r.calls, 1);
    assert!(r.converged);
    assert!(0 <= r.xmin && r.xmin <= 1);
}

#[test]
fn golden_seed_point_is_exact() {
    // On a bracket narrower than the tolerance only the seed evaluation
    // happens, and it sits exactly at the golden-section point
    // a + floor((b - a) * 381966011 / 1e9).
    let r = bounded_minimisation(square_about_one, 0, 1_000);
    assert_eq!(r.calls, 1);
    assert_eq!(r.xmin, 381);
    assert_eq!(r.evals[0], (381, square_about_one(381)));
}

#[test]
fn minimum_value_is_reported_with_its_point() {
    let r = bounded_minimisation(square_about_one, -4 * SCALE, 4 * SCALE);
    assert_eq!(r.fmin, square_about_one(r.xmin));
    assert!(r.evals.contains(&(r.xmin, r.fmin)));
}

#[test]
fn deterministic_trajectory_for_pure_objectives() {
    // A pure objective determines the whole run: the probe sequence, the
    // step kinds, the final bracket and the result.
    let r1 = bounded_minimisation(square_about_one, -4 * SCALE, 4 * SCALE);
    let r2 = bounded_minimisation(square_about_one, -4 * SCALE, 4 * SCALE);
    assert_eq!(r1.xmin, r2.xmin);
    assert_eq!(r1.fmin, r2.fmin);
    assert_eq!(r1.calls, r2.calls);
    assert_eq!(r1.converged, r2.converged);
    assert_eq!(r1.bracket_low, r2.bracket_low);
    assert_eq!(r1.bracket_high, r2.bracket_high);
    assert_eq!(r1.evals, r2.evals);
    assert_eq!(r1.steps, r2.steps);
}
