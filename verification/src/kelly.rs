//! The Kelly log-wealth objective and the staking entry point.
//!
//! A market is described by the price and side (back or lay) of the targeted
//! outcome, the bettor's probability for it, parallel sequences of
//! probabilities and existing positions for the mutually exclusive other
//! outcomes, an existing position on the targeted outcome and a bankroll.
//! For a candidate stake the expected log wealth is the probability-weighted
//! sum of the logarithm of the wealth under each outcome; `calculate_kelly_stake`
//! minimises its negation over `[0, bankroll]`.  The natural logarithm is the
//! one operation the fixed-point line cannot express exactly, so it is
//! supplied by the caller as a closure from fixed-point wealth to fixed-point
//! log; every contract here is stated relative to that closure's behaviour.

use crate::fixed::{
    iabs, lemma_mul_abs_bound, lemma_tdiv_in_range, lemma_tdiv_monotone, spec_tol1, tdiv,
    tdiv_i128, FBOUND, LOG_BOUND, MAXFUN, MAX_OUTCOMES, SCALE, XBOUND,
};
use crate::minimize::{
    best_value, bounded_minimisation, matches_trajectory, obeys_model, MinResult,
};
use vstd::prelude::*;

verus! {

/// Wealth after the targeted outcome occurs: the bankroll, the existing
/// position, and the stake's profit `stake * (price - 1)`, gained when
/// backing and paid out when laying.
pub open spec fn spec_target_wealth(
    stake: int,
    price: int,
    is_back: bool,
    position: int,
    bankroll: int,
) -> int {
    if is_back {
        bankroll + position + tdiv(stake * (price - SCALE as int), SCALE as int)
    } else {
        bankroll + position - tdiv(stake * (price - SCALE as int), SCALE as int)
    }
}

/// Wealth after some other outcome occurs: a back stake is lost, a lay
/// stake is kept.
pub open spec fn spec_other_wealth(
    stake: int,
    is_back: bool,
    other_position: int,
    bankroll: int,
) -> int {
    if is_back {
        bankroll + other_position - stake
    } else {
        bankroll + other_position + stake
    }
}

/// The dot product of the first `n` probabilities and log values.
pub open spec fn weighted_prefix(probs: Seq<i64>, lvals: Seq<i64>, n: int) -> int
    decreases n,
{
    if n <= 0 {
        0
    } else {
        weighted_prefix(probs, lvals, n - 1) + probs[n - 1] * lvals[n - 1]
    }
}

/// One concrete way the supplied logarithm can account for a value `r` of
/// the expected log wealth at `stake`: a log value `lt` for the targeted
/// outcome's wealth and one per other outcome, each a possible output of
/// the closure on that wealth, whose probability-weighted sum (rescaled to
/// fixed point) is `r`.
pub open spec fn log_wealth_witness<L: Fn(i64) -> i64>(
    log: L,
    stake: i64,
    price: i64,
    is_back: bool,
    probability: i64,
    oprobs: Seq<i64>,
    position: i64,
    opos: Seq<i64>,
    bankroll: i64,
    lt: i64,
    lvals: Seq<i64>,
    r: i64,
) -> bool {
    &&& call_ensures(
        log,
        (
            spec_target_wealth(
                stake as int,
                price as int,
                is_back,
                position as int,
                bankroll as int,
            ) as i64,
        ),
        lt,
    )
    &&& lvals.len() == opos.len()
    &&& (forall|i: int|
        0 <= i < lvals.len() ==> call_ensures(
            log,
            (spec_other_wealth(stake as int, is_back, opos[i] as int, bankroll as int) as i64, ),
            #[trigger] lvals[i],
        ))
    &&& r as int == tdiv(
        probability as int * lt as int + weighted_prefix(oprobs, lvals, opos.len() as int),
        SCALE as int,
    )
}

/// `r` is an expected log wealth the market can report at `stake`, for some
/// outputs of the supplied logarithm closure.
pub open spec fn is_log_wealth_value<L: Fn(i64) -> i64>(
    log: L,
    stake: i64,
    price: i64,
    is_back: bool,
    probability: i64,
    oprobs: Seq<i64>,
    position: i64,
    opos: Seq<i64>,
    bankroll: i64,
    r: i64,
) -> bool {
    exists|lt: i64, lvals: Seq<i64>|
        log_wealth_witness(
            log,
            stake,
            price,
            is_back,
            probability,
            oprobs,
            position,
            opos,
            bankroll,
            lt,
            lvals,
            r,
        )
}

/// `v` is a value of the minimisation objective at `stake`: the negation of
/// an expected log wealth there.
pub open spec fn is_objective_value<L: Fn(i64) -> i64>(
    log: L,
    price: i64,
    is_back: bool,
    probability: i64,
    oprobs: Seq<i64>,
    position: i64,
    opos: Seq<i64>,
    bankroll: i64,
    stake: i64,
    v: i64,
) -> bool {
    exists|w: i64|
        is_log_wealth_value(
            log,
            stake,
            price,
            is_back,
            probability,
            oprobs,
            position,
            opos,
            bankroll,
            w,
        ) && v as int == -(w as int)
}

/// The log closure behaves as the mathematical function `lm`: every value
/// it can return is `lm` of its argument.  This holds exactly of pure
/// (deterministic) logarithms.
pub open spec fn obeys_log_model<L: Fn(i64) -> i64>(log: L, lm: spec_fn(i64) -> i64) -> bool {
    forall|w: i64, v: i64| call_ensures(log, (w,), v) ==> v == lm(w)
}

/// The weighted sum of modelled logs of the first `n` other-outcome wealths.
pub open spec fn spec_weighted_model(
    lm: spec_fn(i64) -> i64,
    stake: i64,
    is_back: bool,
    oprobs: Seq<i64>,
    opos: Seq<i64>,
    bankroll: i64,
    n: int,
) -> int
    decreases n,
{
    if n <= 0 {
        0
    } else {
        spec_weighted_model(lm, stake, is_back, oprobs, opos, bankroll, n - 1) + oprobs[n - 1]
            * lm(
            spec_other_wealth(stake as int, is_back, opos[n - 1] as int, bankroll as int) as i64,
        ) as int
    }
}

/// The negated expected log wealth as a function of the stake, under the
/// log model `lm`: the exact objective the minimiser runs on when the log
/// closure is deterministic.
pub open spec fn spec_objective_model(
    lm: spec_fn(i64) -> i64,
    price: i64,
    is_back: bool,
    probability: i64,
    oprobs: Seq<i64>,
    position: i64,
    opos: Seq<i64>,
    bankroll: i64,
) -> spec_fn(i64) -> i64 {
    |stake: i64|
        (-tdiv(
            probability as int * lm(
                spec_target_wealth(
                    stake as int,
                    price as int,
                    is_back,
                    position as int,
                    bankroll as int,
                ) as i64,
            ) as int + spec_weighted_model(
                lm,
                stake,
                is_back,
                oprobs,
                opos,
                bankroll,
                opos.len() as int,
            ),
            SCALE as int,
        )) as i64
}

proof fn lemma_weighted_model(
    lm: spec_fn(i64) -> i64,
    stake: i64,
    is_back: bool,
    oprobs: Seq<i64>,
    opos: Seq<i64>,
    bankroll: i64,
    lvals: Seq<i64>,
    n: int,
)
    requires
        lvals.len() == opos.len(),
        0 <= n <= opos.len(),
        forall|i: int|
            0 <= i < opos.len() ==> #[trigger] lvals[i] == lm(
                spec_other_wealth(stake as int, is_back, opos[i] as int, bankroll as int) as i64,
            ),
    ensures
        weighted_prefix(oprobs, lvals, n) == spec_weighted_model(
            lm,
            stake,
            is_back,
            oprobs,
            opos,
            bankroll,
            n,
        ),
    decreases n,
{
    if n > 0 {
        lemma_weighted_model(lm, stake, is_back, oprobs, opos, bankroll, lvals, n - 1);
    }
}

proof fn lemma_weighted_prefix_frame(probs: Seq<i64>, l1: Seq<i64>, l2: Seq<i64>, n: int)
    requires
        0 <= n <= l1.len(),
        n <= l2.len(),
        forall|i: int| 0 <= i < n ==> l1[i] == l2[i],
    ensures
        weighted_prefix(probs, l1, n) == weighted_prefix(probs, l2, n),
    decreases n,
{
    if n > 0 {
        lemma_weighted_prefix_frame(probs, l1, l2, n - 1);
    }
}

/// The expected log wealth of the market at `stake`, using the supplied
/// fixed-point logarithm closure for every `ln`.
pub fn calculate_log_expected_wealth<L: Fn(i64) -> i64>(
    stake: i64,
    price: i64,
    is_back: bool,
    probability: i64,
    other_probabilities: &Vec<i64>,
    position: i64,
    other_positions: &Vec<i64>,
    bankroll: i64,
    log: &L,
) -> (r: i64)
    requires
        other_probabilities@.len() == other_positions@.len(),
        other_positions@.len() <= MAX_OUTCOMES,
        -XBOUND <= stake <= XBOUND,
        -XBOUND <= price <= XBOUND,
        0 <= probability <= SCALE,
        -XBOUND <= position <= XBOUND,
        -XBOUND <= bankroll <= XBOUND,
        forall|i: int|
            0 <= i < other_probabilities@.len() ==> 0 <= #[trigger] other_probabilities@[i]
                <= SCALE,
        forall|i: int|
            0 <= i < other_positions@.len() ==> -XBOUND <= #[trigger] other_positions@[i]
                <= XBOUND,
        forall|w: i64| call_requires(*log, (w,)),
        forall|w: i64, v: i64| call_ensures(*log, (w,), v) ==> -LOG_BOUND <= v <= LOG_BOUND,
    ensures
        is_log_wealth_value(
            *log,
            stake,
            price,
            is_back,
            probability,
            other_probabilities@,
            position,
            other_positions@,
            bankroll,
            r,
        ),
        -FBOUND <= r <= FBOUND,
{
    let pd: i64 = price - SCALE;
    proof {
        lemma_mul_abs_bound(stake as int, pd as int, 1_000_000_000_000, 2_000_000_000_000);
    }
    let prod: i128 = (stake as i128) * (pd as i128);
    proof {
        lemma_tdiv_in_range(
            prod as int,
            SCALE as int,
            -2_000_000_000_000_001,
            2_000_000_000_000_001,
        );
    }
    let tq: i128 = tdiv_i128(prod, 1_000_000_000);
    let tw128: i128 = if is_back {
        bankroll as i128 + position as i128 + tq
    } else {
        bankroll as i128 + position as i128 - tq
    };
    let tw: i64 = tw128 as i64;
    proof {
        assert(tw as int == spec_target_wealth(
            stake as int,
            price as int,
            is_back,
            position as int,
            bankroll as int,
        ));
    }
    let lt: i64 = (log)(tw);

    let n: usize = other_positions.len();
    let mut acc: i128 = 0;
    let ghost mut lvals: Seq<i64> = Seq::empty();
    let mut j: usize = 0;
    while j < n
        invariant
            n == other_positions@.len(),
            other_probabilities@.len() == other_positions@.len(),
            n <= MAX_OUTCOMES,
            -XBOUND <= stake <= XBOUND,
            -XBOUND <= bankroll <= XBOUND,
            forall|i: int|
                0 <= i < other_probabilities@.len() ==> 0 <= #[trigger] other_probabilities@[i]
                    <= SCALE,
            forall|i: int|
                0 <= i < other_positions@.len() ==> -XBOUND <= #[trigger] other_positions@[i]
                    <= XBOUND,
            forall|w: i64| call_requires(*log, (w,)),
            forall|w: i64, v: i64| call_ensures(*log, (w,), v) ==> -LOG_BOUND <= v <= LOG_BOUND,
            0 <= j <= n,
            lvals.len() == j,
            forall|i: int|
                0 <= i < j as int ==> call_ensures(
                    *log,
                    (
                        spec_other_wealth(
                            stake as int,
                            is_back,
                            other_positions@[i] as int,
                            bankroll as int,
                        ) as i64,
                    ),
                    #[trigger] lvals[i],
                ),
            acc as int == weighted_prefix(other_probabilities@, lvals, j as int),
            iabs(acc as int) <= j as int * 10_000_000_000_000_000_000,
        decreases n - j,
    {
        let op: i64 = other_positions[j];
        let ow128: i128 = if is_back {
            bankroll as i128 + op as i128 - stake as i128
        } else {
            bankroll as i128 + op as i128 + stake as i128
        };
        let ow: i64 = ow128 as i64;
        proof {
            assert(ow as int == spec_other_wealth(
                stake as int,
                is_back,
                other_positions@[j as int] as int,
                bankroll as int,
            ));
        }
        let lv: i64 = (log)(ow);
        let oq: i64 = other_probabilities[j];
        proof {
            lemma_mul_abs_bound(oq as int, lv as int, 1_000_000_000, 10_000_000_000);
        }
        acc = acc + (oq as i128) * (lv as i128);
        proof {
            let lvals0 = lvals;
            lvals = lvals.push(lv);
            lemma_weighted_prefix_frame(other_probabilities@, lvals0, lvals, j as int);
            assert(lvals[j as int] == lv);
        }
        j = j + 1;
    }

    proof {
        lemma_mul_abs_bound(probability as int, lt as int, 1_000_000_000, 10_000_000_000);
    }
    let total: i128 = (probability as i128) * (lt as i128) + acc;
    proof {
        lemma_tdiv_in_range(
            total as int,
            SCALE as int,
            -1_000_000_000_001,
            1_000_000_000_001,
        );
    }
    let rq: i128 = tdiv_i128(total, 1_000_000_000);
    let r: i64 = rq as i64;
    proof {
        assert(log_wealth_witness(
            *log,
            stake,
            price,
            is_back,
            probability,
            other_probabilities@,
            position,
            other_positions@,
            bankroll,
            lt,
            lvals,
            r,
        ));
    }
    r
}

/// The full-Kelly stake for the market: minimises the negated expected log
/// wealth over stakes in `[0, bankroll]` and returns the whole minimisation
/// record; the stake is its `xmin`.
///
/// `kelly_fraction` is accepted for interface compatibility but is not
/// applied to the result: the returned stake is the unscaled full-Kelly
/// stake.
pub fn calculate_kelly_stake<L: Fn(i64) -> i64>(
    price: i64,
    is_back: bool,
    probability: i64,
    other_probabilities: &Vec<i64>,
    position: i64,
    other_positions: &Vec<i64>,
    bankroll: i64,
    kelly_fraction: i64,
    log: &L,
) -> (r: MinResult)
    requires
        0 < bankroll <= XBOUND,
        -XBOUND <= price <= XBOUND,
        0 <= probability <= SCALE,
        -XBOUND <= position <= XBOUND,
        other_probabilities@.len() == other_positions@.len(),
        other_positions@.len() <= MAX_OUTCOMES,
        forall|i: int|
            0 <= i < other_probabilities@.len() ==> 0 <= #[trigger] other_probabilities@[i]
                <= SCALE,
        forall|i: int|
            0 <= i < other_positions@.len() ==> -XBOUND <= #[trigger] other_positions@[i]
                <= XBOUND,
        forall|w: i64| call_requires(*log, (w,)),
        forall|w: i64, v: i64| call_ensures(*log, (w,), v) ==> -LOG_BOUND <= v <= LOG_BOUND,
    ensures
        0 <= r.bracket_low <= r.xmin <= r.bracket_high <= bankroll,
        r.bracket_low < r.bracket_high,
        1 <= r.calls <= MAXFUN,
        r.evals@.len() == r.calls,
        r.steps@.len() == r.calls,
        forall|i: int|
            0 <= i < r.evals@.len() ==> 0 <= (#[trigger] r.evals@[i]).0 <= bankroll
                && is_objective_value(
                *log,
                price,
                is_back,
                probability,
                other_probabilities@,
                position,
                other_positions@,
                bankroll,
                r.evals@[i].0,
                r.evals@[i].1,
            ),
        forall|i: int| 0 <= i < r.evals@.len() ==> r.fmin <= (#[trigger] r.evals@[i]).1,
        r.fmin as int == best_value(r.evals@),
        r.evals@.contains((r.xmin, r.fmin)),
        is_objective_value(
            *log,
            price,
            is_back,
            probability,
            other_probabilities@,
            position,
            other_positions@,
            bankroll,
            r.xmin,
            r.fmin,
        ),
        r.converged ==> r.bracket_high as int - r.bracket_low as int <= 4 * spec_tol1(
            r.xmin as int,
        ) + 1,
        !r.converged ==> r.calls == MAXFUN,
        forall|lm: spec_fn(i64) -> i64| #[trigger] obeys_log_model(*log, lm)
            ==> matches_trajectory(
            spec_objective_model(
                lm,
                price,
                is_back,
                probability,
                other_probabilities@,
                position,
                other_positions@,
                bankroll,
            ),
            0,
            bankroll as int,
            r,
        ),
{
    let _ = kelly_fraction;
    let objective = |stake: i64| -> (v: i64)
        requires
            0 <= stake <= bankroll,
        ensures
            is_objective_value(
                *log,
                price,
                is_back,
                probability,
                other_probabilities@,
                position,
                other_positions@,
                bankroll,
                stake,
                v,
            ),
            -FBOUND <= v <= FBOUND,
        {
            let w = calculate_log_expected_wealth(
                stake,
                price,
                is_back,
                probability,
                other_probabilities,
                position,
                other_positions,
                bankroll,
                log,
            );
            -w
        };
    let r = bounded_minimisation(objective, 0, bankroll);
    proof {
        assert forall|lm: spec_fn(i64) -> i64| #[trigger] obeys_log_model(*log, lm) implies
            matches_trajectory(
            spec_objective_model(
                lm,
                price,
                is_back,
                probability,
                other_probabilities@,
                position,
                other_positions@,
                bankroll,
            ),
            0,
            bankroll as int,
            r,
        ) by {
            let m = spec_objective_model(
                lm,
                price,
                is_back,
                probability,
                other_probabilities@,
                position,
                other_positions@,
                bankroll,
            );
            assert forall|t: i64, v: i64| call_ensures(objective, (t,), v) implies v == m(t) by {
                let w = choose|w: i64|
                    is_log_wealth_value(
                        *log,
                        t,
                        price,
                        is_back,
                        probability,
                        other_probabilities@,
                        position,
                        other_positions@,
                        bankroll,
                        w,
                    ) && v as int == -(w as int);
                let (lt, lvals) = choose|lt: i64, lvals: Seq<i64>|
                    log_wealth_witness(
                        *log,
                        t,
                        price,
                        is_back,
                        probability,
                        other_probabilities@,
                        position,
                        other_positions@,
                        bankroll,
                        lt,
                        lvals,
                        w,
                    );
                assert(lt == lm(
                    spec_target_wealth(
                        t as int,
                        price as int,
                        is_back,
                        position as int,
                        bankroll as int,
                    ) as i64,
                ));
                assert forall|i: int| 0 <= i < other_positions@.len() implies #[trigger] lvals[i]
                    == lm(
                    spec_other_wealth(
                        t as int,
                        is_back,
                        other_positions@[i] as int,
                        bankroll as int,
                    ) as i64,
                ) by {
                    assert(call_ensures(
                        *log,
                        (
                            spec_other_wealth(
                                t as int,
                                is_back,
                                other_positions@[i] as int,
                                bankroll as int,
                            ) as i64,
                        ),
                        lvals[i],
                    ));
                }
                lemma_weighted_model(
                    lm,
                    t,
                    is_back,
                    other_probabilities@,
                    other_positions@,
                    bankroll,
                    lvals,
                    other_positions@.len() as int,
                );
            }
            assert(obeys_model(objective, m));
        }
    }
    r
}

/// Mirror law for one wealth profile: laying a stake yields, outcome for
/// outcome, exactly the wealth that backing the negated stake yields at the
/// same price, position and bankroll.
pub proof fn lemma_back_lay_mirror(
    stake: int,
    price: int,
    position: int,
    bankroll: int,
    other_position: int,
)
    ensures
        spec_target_wealth(stake, price, false, position, bankroll) == spec_target_wealth(
            -stake,
            price,
            true,
            position,
            bankroll,
        ),
        spec_other_wealth(stake, false, other_position, bankroll) == spec_other_wealth(
            -stake,
            true,
            other_position,
            bankroll,
        ),
{
    assert((-stake) * (price - SCALE as int) == -(stake * (price - SCALE as int)))
        by (nonlinear_arith);
}

/// Mirror law for the whole objective: the expected log wealths a lay
/// market can report at some stake are exactly those the same market,
/// backed instead of laid, reports at the negated stake — swapping the
/// side while negating the stake's `(price - 1)` contributions leaves the
/// attainable objective values unchanged.
pub proof fn lemma_log_wealth_mirror<L: Fn(i64) -> i64>(
    log: L,
    stake_lay: i64,
    stake_back: i64,
    price: i64,
    probability: i64,
    oprobs: Seq<i64>,
    position: i64,
    opos: Seq<i64>,
    bankroll: i64,
    r: i64,
)
    requires
        stake_back as int == -(stake_lay as int),
    ensures
        is_log_wealth_value(
            log,
            stake_lay,
            price,
            false,
            probability,
            oprobs,
            position,
            opos,
            bankroll,
            r,
        ) <==> is_log_wealth_value(
            log,
            stake_back,
            price,
            true,
            probability,
            oprobs,
            position,
            opos,
            bankroll,
            r,
        ),
{
    lemma_back_lay_mirror(
        stake_lay as int,
        price as int,
        position as int,
        bankroll as int,
        0,
    );
    assert(forall|opi: int|
        spec_other_wealth(stake_lay as int, false, opi, bankroll as int)
            == #[trigger] spec_other_wealth(stake_back as int, true, opi, bankroll as int));
    if is_log_wealth_value(
        log,
        stake_lay,
        price,
        false,
        probability,
        oprobs,
        position,
        opos,
        bankroll,
        r,
    ) {
        let (lt, lvals) = choose|lt: i64, lvals: Seq<i64>|
            log_wealth_witness(
                log,
                stake_lay,
                price,
                false,
                probability,
                oprobs,
                position,
                opos,
                bankroll,
                lt,
                lvals,
                r,
            );
        assert(log_wealth_witness(
            log,
            stake_back,
            price,
            true,
            probability,
            oprobs,
            position,
            opos,
            bankroll,
            lt,
            lvals,
            r,
        ));
    }
    if is_log_wealth_value(
        log,
        stake_back,
        price,
        true,
        probability,
        oprobs,
        position,
        opos,
        bankroll,
        r,
    ) {
        let (lt, lvals) = choose|lt: i64, lvals: Seq<i64>|
            log_wealth_witness(
                log,
                stake_back,
                price,
                true,
                probability,
                oprobs,
                position,
                opos,
                bankroll,
                lt,
                lvals,
                r,
            );
        assert(log_wealth_witness(
            log,
            stake_lay,
            price,
            false,
            probability,
            oprobs,
            position,
            opos,
            bankroll,
            lt,
            lvals,
            r,
        ));
    }
}

proof fn lemma_weighted_prefix_monotone(probs: Seq<i64>, l1: Seq<i64>, l2: Seq<i64>, n: int)
    requires
        0 <= n <= l1.len(),
        n <= l2.len(),
        n <= probs.len(),
        forall|i: int| 0 <= i < n ==> #[trigger] l2[i] <= l1[i],
        forall|i: int| 0 <= i < n ==> 0 <= #[trigger] probs[i],
    ensures
        weighted_prefix(probs, l2, n) <= weighted_prefix(probs, l1, n),
    decreases n,
{
    if n > 0 {
        lemma_weighted_prefix_monotone(probs, l1, l2, n - 1);
        vstd::arithmetic::mul::lemma_mul_inequality(l2[n - 1] as int, l1[n - 1] as int, probs[n
            - 1] as int);
        assert(probs[n - 1] as int * l2[n - 1] as int == l2[n - 1] as int * probs[n - 1] as int)
            by (nonlinear_arith);
        assert(probs[n - 1] as int * l1[n - 1] as int == l1[n - 1] as int * probs[n - 1] as int)
            by (nonlinear_arith);
    }
}

/// Degenerate-probability law: when the backed outcome has probability
/// zero and the supplied logarithm is monotone, raising the stake never
/// raises the expected log wealth — betting has only downside, so the
/// objective is minimised toward the lower end of the stake bracket.
pub proof fn lemma_zero_probability_stake_useless<L: Fn(i64) -> i64>(
    log: L,
    stake_small: i64,
    stake_large: i64,
    price: i64,
    oprobs: Seq<i64>,
    position: i64,
    opos: Seq<i64>,
    bankroll: i64,
    w_small: i64,
    w_large: i64,
)
    requires
        stake_small <= stake_large,
        oprobs.len() == opos.len(),
        forall|i: int| 0 <= i < oprobs.len() ==> 0 <= #[trigger] oprobs[i],
        forall|x1: i64, x2: i64, v1: i64, v2: i64|
            call_ensures(log, (x1,), v1) && call_ensures(log, (x2,), v2) && x1 <= x2 ==> v1 <= v2,
        -XBOUND <= bankroll <= XBOUND,
        -XBOUND <= stake_small,
        stake_large <= XBOUND,
        forall|i: int| 0 <= i < opos.len() ==> -XBOUND <= #[trigger] opos[i] <= XBOUND,
        is_log_wealth_value(
            log,
            stake_small,
            price,
            true,
            0,
            oprobs,
            position,
            opos,
            bankroll,
            w_small,
        ),
        is_log_wealth_value(
            log,
            stake_large,
            price,
            true,
            0,
            oprobs,
            position,
            opos,
            bankroll,
            w_large,
        ),
    ensures
        w_large <= w_small,
{
    let (lt1, lvals1) = choose|lt: i64, lvals: Seq<i64>|
        log_wealth_witness(
            log,
            stake_small,
            price,
            true,
            0,
            oprobs,
            position,
            opos,
            bankroll,
            lt,
            lvals,
            w_small,
        );
    let (lt2, lvals2) = choose|lt: i64, lvals: Seq<i64>|
        log_wealth_witness(
            log,
            stake_large,
            price,
            true,
            0,
            oprobs,
            position,
            opos,
            bankroll,
            lt,
            lvals,
            w_large,
        );
    assert forall|i: int| 0 <= i < opos.len() implies #[trigger] lvals2[i] <= lvals1[i] by {
        assert(spec_other_wealth(stake_large as int, true, opos[i] as int, bankroll as int)
            <= spec_other_wealth(stake_small as int, true, opos[i] as int, bankroll as int));
    }
    lemma_weighted_prefix_monotone(oprobs, lvals1, lvals2, opos.len() as int);
    lemma_tdiv_monotone(
        0 * lt2 as int + weighted_prefix(oprobs, lvals2, opos.len() as int),
        0 * lt1 as int + weighted_prefix(oprobs, lvals1, opos.len() as int),
        SCALE as int,
    );
}

} // verus!
