//! Bounded derivative-free scalar minimisation on the fixed-point line.
//!
//! `bounded_minimisation` keeps a shrinking bracket `[a, b]` around a local
//! minimiser of the supplied objective, proposing each new trial point by
//! parabolic interpolation through the three best points seen so far when
//! that is numerically trustworthy, and by a golden-section step otherwise.
//! The returned record carries the minimiser, its value, the evaluation
//! trace, the final bracket and a convergence flag.

use crate::fixed::{
    iabs, lemma_mul_abs_bound, lemma_tdiv_in_range, spec_tol1, tdiv, tdiv_i128, tol1_of,
    golden_of, abs_i64, FBOUND, GOLDEN_DEN, GOLDEN_NUM, MAXFUN, XBOUND, XATOL_THIRD,
};
use vstd::prelude::*;

verus! {

/// Which rule produced an objective evaluation.
#[derive(Clone, Copy, PartialEq, Eq, Debug)]
pub enum StepKind {
    /// The seed evaluation at the golden-section point of the full bracket.
    Initial,
    /// A golden-section step.
    Golden,
    /// An accepted parabolic-interpolation step.
    Parabolic,
}

/// The outcome of one minimisation run.
pub struct MinResult {
    /// The incumbent minimiser: the best abscissa found.
    pub xmin: i64,
    /// The objective value at `xmin`; the least value ever observed.
    pub fmin: i64,
    /// How many times the objective was evaluated.
    pub calls: u64,
    /// True when the tolerance criterion stopped the run, false when the
    /// evaluation budget did.
    pub converged: bool,
    /// Lower end of the final bracket.
    pub bracket_low: i64,
    /// Upper end of the final bracket.
    pub bracket_high: i64,
    /// Every evaluation in order: abscissa and objective value.
    pub evals: Vec<(i64, i64)>,
    /// The rule that produced each evaluation, aligned with `evals`.
    pub steps: Vec<StepKind>,
}

/// The incumbent (least) objective value after all evaluations of `s`:
/// the running minimum of the recorded values.
pub open spec fn best_value(s: Seq<(i64, i64)>) -> int
    recommends
        s.len() >= 1,
    decreases s.len(),
{
    if s.len() <= 1 {
        s[0].1 as int
    } else {
        let prev = best_value(s.drop_last());
        if s.last().1 <= prev {
            s.last().1 as int
        } else {
            prev
        }
    }
}

proof fn lemma_best_value_push(s: Seq<(i64, i64)>, p: (i64, i64))
    requires
        s.len() >= 1,
    ensures
        best_value(s.push(p)) == if p.1 as int <= best_value(s) {
            p.1 as int
        } else {
            best_value(s)
        },
{
    assert(s.push(p).drop_last() =~= s);
    assert(s.push(p).last() == p);
}

/// The incumbent objective value never increases as evaluations accumulate:
/// after `j >= i` evaluations the best value seen is at most what it was
/// after `i` evaluations.
pub proof fn lemma_incumbent_nonincreasing(s: Seq<(i64, i64)>, i: int, j: int)
    requires
        1 <= i <= j <= s.len(),
    ensures
        best_value(s.take(j)) <= best_value(s.take(i)),
    decreases j - i,
{
    if i < j {
        lemma_incumbent_nonincreasing(s, i, j - 1);
        assert(s.take(j).drop_last() =~= s.take(j - 1));
        assert(s.take(j).len() == j);
    }
}

/// The state the minimisation loop carries from one iteration to the next:
/// the bracket, the three retained trial points with their values, the most
/// recent proposed step `rat` and the step `e` taken two proposals ago.
pub struct LoopState {
    /// Lower end of the bracket.
    pub a: int,
    /// Upper end of the bracket.
    pub b: int,
    /// The incumbent: best abscissa so far.
    pub xf: int,
    /// Second-best abscissa.
    pub nfc: int,
    /// Third-best abscissa.
    pub fulc: int,
    /// Objective value at `xf`.
    pub fx: int,
    /// Objective value at `nfc`.
    pub fnfc: int,
    /// Objective value at `fulc`.
    pub ffulc: int,
    /// The most recent proposed step.
    pub rat: int,
    /// The step proposed two iterations ago.
    pub e: int,
}

/// The golden-section seed point of a bracket: `lower + (3 - sqrt 5)/2 * (upper - lower)`.
pub open spec fn spec_seed(lower: int, upper: int) -> int {
    lower + tdiv((upper - lower) * (GOLDEN_NUM as int), GOLDEN_DEN as int)
}

/// Midpoint of the current bracket.
pub open spec fn spec_xm(s: LoopState) -> int {
    s.a + (s.b - s.a) / 2
}

/// The tolerance criterion: the loop keeps going while the incumbent is
/// further from the bracket midpoint than `tol2` less half the width.
pub open spec fn spec_continues(s: LoopState) -> bool {
    iabs(s.xf - spec_xm(s)) + (s.b - s.a) / 2 > 2 * spec_tol1(s.xf)
}

/// The step proposal of one iteration: the new `rat`, the new `e`, and
/// whether the step is golden-section (true) or parabolic (false).
/// Parabolic interpolation through the three retained points is attempted
/// when the step two proposals ago exceeded `tol1`, and is accepted only
/// when the implied step is small against that step and lands strictly
/// inside the bracket; a candidate within `tol2` of either edge is clamped
/// to a `tol1` step toward the midpoint.
#[verifier::opaque]
pub open spec fn spec_proposal(s: LoopState) -> (int, int, bool) {
    let tol1 = spec_tol1(s.xf);
    let golden_e = if s.xf >= spec_xm(s) {
        s.a - s.xf
    } else {
        s.b - s.xf
    };
    let golden_rat = tdiv(golden_e * (GOLDEN_NUM as int), GOLDEN_DEN as int);
    if iabs(s.e) > tol1 {
        let r0 = (s.xf - s.nfc) * (s.fx - s.ffulc);
        let q0 = (s.xf - s.fulc) * (s.fx - s.fnfc);
        let p0 = (s.xf - s.fulc) * q0 - (s.xf - s.nfc) * r0;
        let q1 = 2 * (q0 - r0);
        let p1 = if q1 > 0 {
            -p0
        } else {
            p0
        };
        let q2 = iabs(q1);
        if 2 * iabs(p1) < iabs(q2 * s.e) && p1 > q2 * (s.a - s.xf) && p1 < q2 * (s.b - s.xf) {
            let rat0 = tdiv(p1, q2);
            let x0 = s.xf + rat0;
            let rat1 = if x0 - s.a < 2 * tol1 || s.b - x0 < 2 * tol1 {
                if spec_xm(s) >= s.xf {
                    tol1
                } else {
                    -tol1
                }
            } else {
                rat0
            };
            (rat1, s.rat, false)
        } else {
            (golden_rat, golden_e, true)
        }
    } else {
        (golden_rat, golden_e, true)
    }
}

/// The trial point a proposal produces: step by `rat`, but never by less
/// than `tol1`, a zero proposal counting as a positive one.
pub open spec fn spec_probe_of(rat: int, tol1: int, xf: int) -> int {
    if rat >= 0 {
        if rat >= tol1 {
            xf + rat
        } else {
            xf + tol1
        }
    } else {
        if -rat >= tol1 {
            xf + rat
        } else {
            xf - tol1
        }
    }
}

/// The trial point the next iteration evaluates from state `s`.
pub open spec fn spec_probe(s: LoopState) -> int {
    spec_probe_of(spec_proposal(s).0, spec_tol1(s.xf), s.xf)
}

/// The bracket shrink and three-point bookkeeping after evaluating `fu`
/// at `x`: a trial at least as good as the incumbent shifts the bracket
/// edge past the old incumbent and rotates the history; a worse trial
/// shrinks the bracket onto itself and may replace the second- or
/// third-best point, stale points equal to the incumbent always counting
/// as replaceable.
#[verifier::opaque]
pub open spec fn spec_update(s: LoopState, rat: int, e: int, x: int, fu: int) -> LoopState {
    if fu <= s.fx {
        LoopState {
            a: if x >= s.xf {
                s.xf
            } else {
                s.a
            },
            b: if x >= s.xf {
                s.b
            } else {
                s.xf
            },
            xf: x,
            nfc: s.xf,
            fulc: s.nfc,
            fx: fu,
            fnfc: s.fx,
            ffulc: s.fnfc,
            rat: rat,
            e: e,
        }
    } else {
        let a2 = if x < s.xf {
            x
        } else {
            s.a
        };
        let b2 = if x < s.xf {
            s.b
        } else {
            x
        };
        if fu <= s.fnfc || s.nfc == s.xf {
            LoopState {
                a: a2,
                b: b2,
                xf: s.xf,
                nfc: x,
                fulc: s.nfc,
                fx: s.fx,
                fnfc: fu,
                ffulc: s.fnfc,
                rat: rat,
                e: e,
            }
        } else if fu <= s.ffulc || s.fulc == s.xf || s.fulc == s.nfc {
            LoopState {
                a: a2,
                b: b2,
                xf: s.xf,
                nfc: s.nfc,
                fulc: x,
                fx: s.fx,
                fnfc: s.fnfc,
                ffulc: fu,
                rat: rat,
                e: e,
            }
        } else {
            LoopState {
                a: a2,
                b: b2,
                xf: s.xf,
                nfc: s.nfc,
                fulc: s.fulc,
                fx: s.fx,
                fnfc: s.fnfc,
                ffulc: s.ffulc,
                rat: rat,
                e: e,
            }
        }
    }
}

/// One whole iteration under the objective model `m`: propose, probe,
/// evaluate, update.
pub open spec fn spec_step(s: LoopState, m: spec_fn(i64) -> i64) -> LoopState {
    let prop = spec_proposal(s);
    let x = spec_probe(s);
    spec_update(s, prop.0, prop.1, x, m(x as i64) as int)
}

/// The state after the seed evaluation at the golden-section point.
pub open spec fn spec_init(m: spec_fn(i64) -> i64, lower: int, upper: int) -> LoopState {
    let x0 = spec_seed(lower, upper);
    let f0 = m(x0 as i64) as int;
    LoopState {
        a: lower,
        b: upper,
        xf: x0,
        nfc: x0,
        fulc: x0,
        fx: f0,
        fnfc: f0,
        ffulc: f0,
        rat: 0,
        e: 0,
    }
}

/// The state after the seed evaluation and `k` loop iterations.
#[verifier::opaque]
pub open spec fn spec_state_at(m: spec_fn(i64) -> i64, lower: int, upper: int, k: nat) -> LoopState
    decreases k,
{
    if k == 0 {
        spec_init(m, lower, upper)
    } else {
        spec_step(spec_state_at(m, lower, upper, (k - 1) as nat), m)
    }
}

/// The abscissa of evaluation number `k` (0-based): the seed, then each
/// iteration's probe.
#[verifier::opaque]
pub open spec fn spec_probe_at(m: spec_fn(i64) -> i64, lower: int, upper: int, k: nat) -> int {
    if k == 0 {
        spec_seed(lower, upper)
    } else {
        spec_probe(spec_state_at(m, lower, upper, (k - 1) as nat))
    }
}

/// The rule that produces evaluation number `k`.
#[verifier::opaque]
pub open spec fn spec_kind_at(
    m: spec_fn(i64) -> i64,
    lower: int,
    upper: int,
    k: nat,
) -> StepKind {
    if k == 0 {
        StepKind::Initial
    } else if spec_proposal(spec_state_at(m, lower, upper, (k - 1) as nat)).2 {
        StepKind::Golden
    } else {
        StepKind::Parabolic
    }
}

/// The objective behaves as the mathematical function `m`: every value it
/// can return is `m` of its argument.  This holds exactly of pure
/// (deterministic) objectives.
pub open spec fn obeys_model<F: Fn(i64) -> i64>(func: F, m: spec_fn(i64) -> i64) -> bool {
    forall|t: i64, v: i64| call_ensures(func, (t,), v) ==> v == m(t)
}

/// The whole recorded trace follows the model: evaluation `k` sits at the
/// modelled probe point `spec_probe_at(m, lower, upper, k)` with the
/// modelled step kind, and every executed iteration still had the
/// tolerance criterion open.
#[verifier::opaque]
pub open spec fn trace_matches(
    m: spec_fn(i64) -> i64,
    lower: int,
    upper: int,
    evals: Seq<(i64, i64)>,
    steps: Seq<StepKind>,
    calls: nat,
) -> bool {
    &&& (forall|k: int|
        0 <= k < evals.len() ==> (#[trigger] evals[k]).0 as int == spec_probe_at(
            m,
            lower,
            upper,
            k as nat,
        ))
    &&& (forall|k: int|
        0 <= k < steps.len() ==> (#[trigger] steps[k]) == spec_kind_at(m, lower, upper, k as nat))
    &&& (forall|j: int|
        0 <= j < calls as int - 1 ==> spec_continues(
            #[trigger] spec_state_at(m, lower, upper, j as nat),
        ))
}

/// The run is the deterministic trajectory of the loop under the objective
/// model `m`: the whole recorded trace follows the model, the result
/// fields are the final state's, and a converged run is one whose final
/// state meets the tolerance criterion.
pub open spec fn matches_trajectory(
    m: spec_fn(i64) -> i64,
    lower: int,
    upper: int,
    r: MinResult,
) -> bool {
    let last = spec_state_at(m, lower, upper, (r.calls - 1) as nat);
    &&& r.xmin as int == last.xf
    &&& r.fmin as int == last.fx
    &&& r.bracket_low as int == last.a
    &&& r.bracket_high as int == last.b
    &&& trace_matches(m, lower, upper, r.evals@, r.steps@, r.calls as nat)
    &&& (r.converged ==> !spec_continues(last))
}

spec fn locals_match(
    s: LoopState,
    a: i64,
    b: i64,
    xf: i64,
    nfc: i64,
    fulc: i64,
    fx: i64,
    fnfc: i64,
    ffulc: i64,
    rat: i64,
    e: i64,
) -> bool {
    &&& a as int == s.a
    &&& b as int == s.b
    &&& xf as int == s.xf
    &&& nfc as int == s.nfc
    &&& fulc as int == s.fulc
    &&& fx as int == s.fx
    &&& fnfc as int == s.fnfc
    &&& ffulc as int == s.ffulc
    &&& rat as int == s.rat
    &&& e as int == s.e
}

proof fn lemma_iteration_match(
    m: spec_fn(i64) -> i64,
    lower: int,
    upper: int,
    k: nat,
    pre: LoopState,
    rat: i64,
    e: i64,
    golden: bool,
    x: i64,
    fu: i64,
    post: LoopState,
)
    requires
        k >= 1,
        pre == spec_state_at(m, lower, upper, (k - 1) as nat),
        spec_proposal(pre) == (rat as int, e as int, golden),
        x as int == spec_probe_of(rat as int, spec_tol1(pre.xf), pre.xf),
        fu as int == m(x) as int,
        post == spec_update(pre, rat as int, e as int, x as int, fu as int),
    ensures
        spec_state_at(m, lower, upper, k) == post,
        spec_probe_at(m, lower, upper, k) == x as int,
        spec_kind_at(m, lower, upper, k) == (if golden {
            StepKind::Golden
        } else {
            StepKind::Parabolic
        }),
{
    reveal(spec_state_at);
    reveal(spec_probe_at);
    reveal(spec_kind_at);
    assert(spec_state_at(m, lower, upper, k) == spec_step(pre, m));
    assert(spec_probe(pre) == x as int);
    assert(spec_state_at(m, lower, upper, k) == post);
}

proof fn lemma_init_match(m: spec_fn(i64) -> i64, lower: int, upper: int, x0: i64, f0: i64)
    requires
        x0 as int == spec_seed(lower, upper),
        f0 == m(x0),
    ensures
        spec_state_at(m, lower, upper, 0) == (LoopState {
            a: lower,
            b: upper,
            xf: x0 as int,
            nfc: x0 as int,
            fulc: x0 as int,
            fx: f0 as int,
            fnfc: f0 as int,
            ffulc: f0 as int,
            rat: 0,
            e: 0,
        }),
        spec_probe_at(m, lower, upper, 0) == x0 as int,
        spec_kind_at(m, lower, upper, 0) == StepKind::Initial,
{
    reveal(spec_state_at);
    reveal(spec_probe_at);
    reveal(spec_kind_at);
    assert(spec_seed(lower, upper) as i64 == x0);
}

proof fn lemma_trace_push(
    m: spec_fn(i64) -> i64,
    lower: int,
    upper: int,
    k: nat,
    evals_old: Seq<(i64, i64)>,
    steps_old: Seq<StepKind>,
    x: i64,
    fu: i64,
    kind: StepKind,
    pre: LoopState,
)
    requires
        trace_matches(m, lower, upper, evals_old, steps_old, k),
        evals_old.len() == k,
        steps_old.len() == k,
        k >= 1,
        pre == spec_state_at(m, lower, upper, (k - 1) as nat),
        spec_continues(pre),
        x as int == spec_probe_at(m, lower, upper, k),
        kind == spec_kind_at(m, lower, upper, k),
    ensures
        trace_matches(
            m,
            lower,
            upper,
            evals_old.push((x, fu)),
            steps_old.push(kind),
            (k + 1) as nat,
        ),
{
    reveal(trace_matches);
    let evals_new = evals_old.push((x, fu));
    let steps_new = steps_old.push(kind);
    assert forall|k2: int| 0 <= k2 < evals_new.len() implies (#[trigger] evals_new[k2]).0 as int
        == spec_probe_at(m, lower, upper, k2 as nat) by {
        if k2 < evals_old.len() {
            assert(evals_new[k2] == evals_old[k2]);
        } else {
            assert(evals_new[k2] == (x, fu));
        }
    }
    assert forall|k2: int| 0 <= k2 < steps_new.len() implies (#[trigger] steps_new[k2])
        == spec_kind_at(m, lower, upper, k2 as nat) by {
        if k2 < steps_old.len() {
            assert(steps_new[k2] == steps_old[k2]);
        } else {
            assert(steps_new[k2] == kind);
        }
    }
    assert forall|j: int| 0 <= j < (k + 1) as int - 1 implies spec_continues(
        #[trigger] spec_state_at(m, lower, upper, j as nat),
    ) by {
        if j == k - 1 {
            assert(spec_state_at(m, lower, upper, j as nat) == pre);
        }
    }
}

/// Minimises `func` over the bracket `[lower_bound, upper_bound]`.
///
/// The objective must be callable everywhere in the bracket and its values
/// must stay within `FBOUND` so that the interpolation arithmetic cannot
/// overflow.  The result's `fmin` is exactly the least value the objective
/// returned over the whole run, attained at `xmin`, and the run makes at
/// most `MAXFUN` evaluations.  When `converged` is set, the final bracket
/// has shrunk to the width the tolerance criterion demands.  The first
/// evaluation always sits at the golden-section seed point, and for a pure
/// objective — one all of whose possible return values are a single
/// function `m` of the argument — the whole run is pinned down: the trace,
/// the final bracket and the result follow the trajectory that
/// `spec_state_at` computes under `m` (`matches_trajectory`), so the
/// returned minimiser is a deterministic function of the objective and the
/// bounds alone.
#[verifier::rlimit(100)]
#[verifier::spinoff_prover]
pub fn bounded_minimisation<F: Fn(i64) -> i64>(
    func: F,
    lower_bound: i64,
    upper_bound: i64,
) -> (r: MinResult)
    requires
        -XBOUND <= lower_bound,
        lower_bound < upper_bound,
        upper_bound <= XBOUND,
        forall|t: i64| lower_bound <= t <= upper_bound ==> call_requires(func, (t,)),
        forall|t: i64, v: i64| call_ensures(func, (t,), v) ==> -FBOUND <= v <= FBOUND,
    ensures
        lower_bound <= r.bracket_low <= r.xmin <= r.bracket_high <= upper_bound,
        r.bracket_low < r.bracket_high,
        call_ensures(func, (r.xmin,), r.fmin),
        1 <= r.calls <= MAXFUN,
        r.evals@.len() == r.calls,
        r.steps@.len() == r.calls,
        r.steps@[0] == StepKind::Initial,
        forall|i: int|
            1 <= i < r.steps@.len() ==> (#[trigger] r.steps@[i]) == StepKind::Golden
                || r.steps@[i] == StepKind::Parabolic,
        forall|i: int|
            0 <= i < r.evals@.len() ==> lower_bound <= (#[trigger] r.evals@[i]).0 <= upper_bound
                && call_ensures(func, (r.evals@[i].0,), r.evals@[i].1),
        forall|i: int| 0 <= i < r.evals@.len() ==> r.fmin <= (#[trigger] r.evals@[i]).1,
        r.fmin as int == best_value(r.evals@),
        r.evals@.contains((r.xmin, r.fmin)),
        r.converged ==> r.bracket_high as int - r.bracket_low as int <= 4 * spec_tol1(
            r.xmin as int,
        ) + 1,
        !r.converged ==> r.calls == MAXFUN,
        r.evals@[0].0 as int == spec_seed(lower_bound as int, upper_bound as int),
        forall|m: spec_fn(i64) -> i64| #[trigger] obeys_model(func, m) ==> matches_trajectory(
            m,
            lower_bound as int,
            upper_bound as int,
            r,
        ),
{
    let mut a = lower_bound;
    let mut b = upper_bound;
    let g0 = golden_of(b - a);
    let mut fulc = a + g0;
    let mut nfc = fulc;
    let mut xf = fulc;

    let mut rat: i64 = 0;
    let mut e: i64 = 0;

    let mut fx = func(xf);
    let mut num: u64 = 1;
    let mut ffulc = fx;
    let mut fnfc = fx;

    let mut evals: Vec<(i64, i64)> = Vec::new();
    evals.push((xf, fx));
    let mut steps: Vec<StepKind> = Vec::new();
    steps.push(StepKind::Initial);
    let ghost mut best_i: int = 0;

    let w0: u64 = (b - a) as u64;
    let mut half_w: i64 = (w0 / 2) as i64;
    let mut xm: i64 = a + half_w;
    let mut tol1: i64 = tol1_of(xf);
    let mut tol2: i64 = 2 * tol1;
    let mut d: i64 = if xf >= xm {
        xf - xm
    } else {
        xm - xf
    };
    let mut converged = true;

    proof {
        assert forall|m: spec_fn(i64) -> i64| #[trigger] obeys_model(func, m) implies locals_match(
            spec_state_at(m, lower_bound as int, upper_bound as int, (num - 1) as nat),
            a,
            b,
            xf,
            nfc,
            fulc,
            fx,
            fnfc,
            ffulc,
            rat,
            e,
        ) && trace_matches(
            m,
            lower_bound as int,
            upper_bound as int,
            evals@,
            steps@,
            num as nat,
        ) by {
            assert(xf as int == spec_seed(lower_bound as int, upper_bound as int));
            assert(fx == m(xf));
            lemma_init_match(m, lower_bound as int, upper_bound as int, xf, fx);
            assert(trace_matches(
                m,
                lower_bound as int,
                upper_bound as int,
                evals@,
                steps@,
                num as nat,
            )) by {
                reveal(trace_matches);
                assert(evals@[0] == (xf, fx));
                assert(steps@[0] == StepKind::Initial);
            }
        }
    }

    while d + half_w > tol2
        invariant_except_break
            converged,
            num < MAXFUN,
        invariant
            -XBOUND <= lower_bound <= a < b <= upper_bound <= XBOUND,
            a <= xf <= b,
            lower_bound <= nfc <= upper_bound,
            lower_bound <= fulc <= upper_bound,
            forall|t: i64| lower_bound <= t <= upper_bound ==> call_requires(func, (t,)),
            forall|t: i64, v: i64| call_ensures(func, (t,), v) ==> -FBOUND <= v <= FBOUND,
            call_ensures(func, (xf,), fx),
            call_ensures(func, (nfc,), fnfc),
            call_ensures(func, (fulc,), ffulc),
            -2 * XBOUND <= e <= 2 * XBOUND,
            -2 * XBOUND <= rat <= 2 * XBOUND,
            half_w as int == (b as int - a as int) / 2,
            xm == a + half_w,
            tol1 as int == spec_tol1(xf as int),
            XATOL_THIRD <= tol1 <= 20_000,
            tol2 == 2 * tol1,
            d as int == iabs(xf as int - xm as int),
            1 <= num <= MAXFUN,
            evals@.len() == num,
            steps@.len() == num,
            steps@[0] == StepKind::Initial,
            forall|i: int|
                1 <= i < steps@.len() ==> (#[trigger] steps@[i]) == StepKind::Golden
                    || steps@[i] == StepKind::Parabolic,
            forall|i: int|
                0 <= i < evals@.len() ==> lower_bound <= (#[trigger] evals@[i]).0 <= upper_bound
                    && call_ensures(func, (evals@[i].0,), evals@[i].1),
            forall|i: int| 0 <= i < evals@.len() ==> fx <= (#[trigger] evals@[i]).1,
            fx as int == best_value(evals@),
            0 <= best_i < evals@.len(),
            evals@[best_i] == (xf, fx),
            evals@[0].0 as int == spec_seed(lower_bound as int, upper_bound as int),
            forall|m: spec_fn(i64) -> i64| #[trigger] obeys_model(func, m) ==> locals_match(
                spec_state_at(m, lower_bound as int, upper_bound as int, (num - 1) as nat),
                a,
                b,
                xf,
                nfc,
                fulc,
                fx,
                fnfc,
                ffulc,
                rat,
                e,
            ) && trace_matches(
                m,
                lower_bound as int,
                upper_bound as int,
                evals@,
                steps@,
                num as nat,
            ),
        ensures
            converged ==> b as int - a as int <= 4 * spec_tol1(xf as int) + 1,
            converged ==> d as int + half_w as int <= tol2 as int,
            !converged ==> num == MAXFUN,
        decreases MAXFUN - num,
    {
        let ghost pre = LoopState {
            a: a as int,
            b: b as int,
            xf: xf as int,
            nfc: nfc as int,
            fulc: fulc as int,
            fx: fx as int,
            fnfc: fnfc as int,
            ffulc: ffulc as int,
            rat: rat as int,
            e: e as int,
        };
        let ghost k_old: nat = num as nat;
        let ghost evals_old = evals@;
        let ghost steps_old = steps@;
        proof {
            assert(b as int - a as int > tol2 as int && half_w >= tol1) by {
                assert(b as int - a as int > tol2 as int);
            }
            assert(spec_continues(pre)) by {
            }
        }
        let mut golden: bool = true;
        if abs_i64(e) > tol1 {
            golden = false;
            let dxn: i128 = xf as i128 - (nfc as i128);
            let dxq: i128 = xf as i128 - (fulc as i128);
            let dfn: i128 = fx as i128 - (ffulc as i128);
            let dfq: i128 = fx as i128 - (fnfc as i128);
            let lo: i128 = a as i128 - (xf as i128);
            let hi: i128 = b as i128 - (xf as i128);
            proof {
                assert(-2_000_000_000_000 <= dxn <= 2_000_000_000_000);
                assert(-2_000_000_000_000 <= dxq <= 2_000_000_000_000);
                assert(-2_000_000_000_000 <= dfn <= 2_000_000_000_000);
                assert(-2_000_000_000_000 <= dfq <= 2_000_000_000_000);
                lemma_mul_abs_bound(dxn as int, dfn as int, 2_000_000_000_000, 2_000_000_000_000);
                lemma_mul_abs_bound(dxq as int, dfq as int, 2_000_000_000_000, 2_000_000_000_000);
            }
            let r0: i128 = dxn * dfn;
            let q0: i128 = dxq * dfq;
            proof {
                lemma_mul_abs_bound(
                    dxq as int,
                    q0 as int,
                    2_000_000_000_000,
                    4_000_000_000_000_000_000_000_000,
                );
                lemma_mul_abs_bound(
                    dxn as int,
                    r0 as int,
                    2_000_000_000_000,
                    4_000_000_000_000_000_000_000_000,
                );
            }
            let mut p: i128 = dxq * q0 - dxn * r0;
            let mut q: i128 = 2 * (q0 - r0);
            if q > 0 {
                p = -p;
            }
            if q < 0 {
                q = -q;
            }
            let r1: i128 = e as i128;
            e = rat;
            let absp: i128 = if p >= 0 {
                p
            } else {
                -p
            };
            proof {
                assert(0 <= q <= 16_000_000_000_000_000_000_000_000);
                lemma_mul_abs_bound(
                    q as int,
                    r1 as int,
                    16_000_000_000_000_000_000_000_000,
                    2_000_000_000_000,
                );
                lemma_mul_abs_bound(
                    q as int,
                    lo as int,
                    16_000_000_000_000_000_000_000_000,
                    2_000_000_000_000,
                );
                lemma_mul_abs_bound(
                    q as int,
                    hi as int,
                    16_000_000_000_000_000_000_000_000,
                    2_000_000_000_000,
                );
            }
            let qr: i128 = q * r1;
            let absqr: i128 = if qr >= 0 {
                qr
            } else {
                -qr
            };
            if 2 * absp < absqr && p > q * lo && p < q * hi {
                proof {
                    lemma_tdiv_in_range(
                        p as int,
                        q as int,
                        a as int - xf as int,
                        b as int - xf as int,
                    );
                }
                let t: i128 = tdiv_i128(p, q);
                rat = t as i64;
                let x0: i64 = xf + rat;
                if x0 - a < tol2 || b - x0 < tol2 {
                    rat = if xm >= xf {
                        tol1
                    } else {
                        -tol1
                    };
                }
                proof {
                    assert((rat >= tol1 ==> xf as int + rat as int <= b as int) && (rat <= -tol1
                        ==> xf as int + rat as int >= a as int) && (0 <= rat < tol1 ==> xf as int
                        + tol1 as int <= b as int) && (-tol1 < rat < 0 ==> xf as int
                        - tol1 as int >= a as int)) by {
                    }
                }
            } else {
                golden = true;
            }
        }
        if golden {
            e = if xf >= xm {
                a - xf
            } else {
                b - xf
            };
            rat = golden_of(e);
            proof {
                assert((rat >= tol1 ==> xf as int + rat as int <= b as int) && (rat <= -tol1
                    ==> xf as int + rat as int >= a as int) && (0 <= rat < tol1 ==> xf as int
                    + tol1 as int <= b as int) && (-tol1 < rat < 0 ==> xf as int
                    - tol1 as int >= a as int)) by {
                }
            }
        }
        proof {
            assert(spec_proposal(pre) == (rat as int, e as int, golden)) by {
                reveal(spec_proposal);
            }
        }
        let kind = if golden {
            StepKind::Golden
        } else {
            StepKind::Parabolic
        };

        let adj: i64 = if rat >= 0 {
            if rat >= tol1 {
                rat
            } else {
                tol1
            }
        } else {
            if -rat >= tol1 {
                rat
            } else {
                -tol1
            }
        };
        let x: i64 = xf + adj;
        proof {
            assert(a <= x <= b && x != xf) by {
            }
            assert(x as int == spec_probe_of(rat as int, spec_tol1(pre.xf), pre.xf)) by {
            }
        }
        let fu = func(x);
        num = num + 1;
        proof {
            lemma_best_value_push(evals@, (x, fu));
        }
        evals.push((x, fu));
        steps.push(kind);

        if fu <= fx {
            if x >= xf {
                a = xf;
            } else {
                b = xf;
            }
            fulc = nfc;
            ffulc = fnfc;
            nfc = xf;
            fnfc = fx;
            xf = x;
            fx = fu;
            proof {
                best_i = evals@.len() - 1;
            }
        } else {
            if x < xf {
                a = x;
            } else {
                b = x;
            }
            if fu <= fnfc || nfc == xf {
                fulc = nfc;
                ffulc = fnfc;
                nfc = x;
                fnfc = fu;
            } else if fu <= ffulc || fulc == xf || fulc == nfc {
                fulc = x;
                ffulc = fu;
            }
        }

        let w: u64 = (b - a) as u64;
        half_w = (w / 2) as i64;
        xm = a + half_w;
        tol1 = tol1_of(xf);
        tol2 = 2 * tol1;
        d = if xf >= xm {
            xf - xm
        } else {
            xm - xf
        };

        proof {
            let post = LoopState {
                a: a as int,
                b: b as int,
                xf: xf as int,
                nfc: nfc as int,
                fulc: fulc as int,
                fx: fx as int,
                fnfc: fnfc as int,
                ffulc: ffulc as int,
                rat: rat as int,
                e: e as int,
            };
            assert(post == spec_update(pre, rat as int, e as int, x as int, fu as int)) by {
                reveal(spec_update);
            }
            assert(evals@ == evals_old.push((x, fu)));
            assert(steps@ == steps_old.push(kind));
            assert forall|m: spec_fn(i64) -> i64| #[trigger] obeys_model(
                func,
                m,
            ) implies locals_match(
                spec_state_at(m, lower_bound as int, upper_bound as int, (num - 1) as nat),
                a,
                b,
                xf,
                nfc,
                fulc,
                fx,
                fnfc,
                ffulc,
                rat,
                e,
            ) && trace_matches(
                m,
                lower_bound as int,
                upper_bound as int,
                evals@,
                steps@,
                num as nat,
            ) by {
                assert(pre == spec_state_at(
                    m,
                    lower_bound as int,
                    upper_bound as int,
                    (k_old - 1) as nat,
                ));
                assert(fu as int == m(x) as int);
                lemma_iteration_match(
                    m,
                    lower_bound as int,
                    upper_bound as int,
                    k_old,
                    pre,
                    rat,
                    e,
                    golden,
                    x,
                    fu,
                    post,
                );
                lemma_trace_push(
                    m,
                    lower_bound as int,
                    upper_bound as int,
                    k_old,
                    evals_old,
                    steps_old,
                    x,
                    fu,
                    kind,
                    pre,
                );
                assert((num - 1) as nat == k_old);
                assert((k_old + 1) as nat == num as nat);
            }
        }

        if num >= MAXFUN {
            converged = false;
            break ;
        }
    }

    let r = MinResult {
        xmin: xf,
        fmin: fx,
        calls: num,
        converged,
        bracket_low: a,
        bracket_high: b,
        evals,
        steps,
    };
    proof {
        assert forall|m: spec_fn(i64) -> i64| #[trigger] obeys_model(
            func,
            m,
        ) implies matches_trajectory(m, lower_bound as int, upper_bound as int, r) by {
            let last = spec_state_at(m, lower_bound as int, upper_bound as int, (num - 1) as nat);
            assert(locals_match(last, a, b, xf, nfc, fulc, fx, fnfc, ffulc, rat, e));
            if converged {
                assert(d as int + half_w as int <= tol2 as int);
                assert(!spec_continues(last));
            }
        }
    }
    r
}

} // verus!
