//! One step of the bounded random walk that every metric value follows.

use crate::metric::{Metric, SCALE};
use vstd::prelude::*;

verus! {

/// Largest relative change of one step, in millionths: a step moves a value by
/// at most ten percent either way.
pub const STEP_LIMIT: i64 = 100_000;

/// Least factor, in millionths, by which a value jumps when an overload starts.
pub const ONSET_MIN: i64 = 1_200_000;

/// Bound that the overload factor, in millionths, stays below.
pub const ONSET_END: i64 = 1_500_000;

/// Least length of an outage, in milliseconds.
pub const OUTAGE_MIN: i64 = 10_000;

/// Bound that the length of an outage, in milliseconds, stays below.
pub const OUTAGE_END: i64 = 30_000;

/// What one tick takes from the random source.
#[derive(Clone, Copy, Debug, PartialEq, Eq, Structural)]
pub struct Draws {
    /// Relative change of the step, in millionths.
    pub step: i64,
    /// The factor, in millionths, of an overload that starts on this tick.
    pub onset: Option<i64>,
    /// The length, in milliseconds, of an outage that starts on this tick.
    pub outage: Option<i64>,
}

impl Draws {
    /// Every draw lies in the range it is taken from.
    pub open spec fn valid(self) -> bool {
        &&& -STEP_LIMIT <= self.step <= STEP_LIMIT
        &&& self.onset matches Some(f) ==> ONSET_MIN <= f < ONSET_END
        &&& self.outage matches Some(d) ==> OUTAGE_MIN <= d < OUTAGE_END
    }

    /// A tick on which nothing starts: the step alone.
    pub open spec fn calm(step: i64) -> Draws {
        Draws { step, onset: None, outage: None }
    }

    /// The draws that numbers taken evenly from zero upwards stand for: the
    /// step is the first number less the limit of a step, the factor of an
    /// overload its least value plus the second, the length of an outage its
    /// least value plus the third.
    pub open spec fn from_raw_spec(step: u64, onset: Option<u64>, outage: Option<u64>) -> Draws {
        Draws {
            step: (step - STEP_LIMIT) as i64,
            onset: match onset {
                Some(extra) => Some((ONSET_MIN + extra) as i64),
                None => None,
            },
            outage: match outage {
                Some(extra) => Some((OUTAGE_MIN + extra) as i64),
                None => None,
            },
        }
    }

    /// Makes draws of numbers taken evenly from zero upwards: a step from a
    /// number up to twice the limit of a step, the factor of an overload from
    /// a number below the width of its range, the length of an outage
    /// likewise.
    pub fn from_raw(step: u64, onset: Option<u64>, outage: Option<u64>) -> (draws: Draws)
        requires
            step <= 2 * STEP_LIMIT,
            onset matches Some(extra) ==> extra < ONSET_END - ONSET_MIN,
            outage matches Some(extra) ==> extra < OUTAGE_END - OUTAGE_MIN,
        ensures
            draws == Draws::from_raw_spec(step, onset, outage),
            draws.valid(),
    {
        Draws {
            step: step as i64 - STEP_LIMIT,
            onset: match onset {
                Some(extra) => Some(ONSET_MIN + extra as i64),
                None => None,
            },
            outage: match outage {
                Some(extra) => Some(OUTAGE_MIN + extra as i64),
                None => None,
            },
        }
    }

    pub fn is_valid(&self) -> (ok: bool)
        ensures
            ok == self.valid(),
    {
        let step_ok: bool = -STEP_LIMIT <= self.step && self.step <= STEP_LIMIT;
        let onset_ok: bool = match self.onset {
            Some(f) => ONSET_MIN <= f && f < ONSET_END,
            None => true,
        };
        let outage_ok: bool = match self.outage {
            Some(d) => OUTAGE_MIN <= d && d < OUTAGE_END,
            None => true,
        };
        step_ok && onset_ok && outage_ok
    }
}

/// Tenths by which a value is multiplied on a tick: thirteen on an overloaded
/// host, ten otherwise.
pub open spec fn gain_tenths(amplified: bool) -> int {
    if amplified {
        13
    } else {
        10
    }
}

/// Millionths by which a value is multiplied on a tick on account of an
/// overload that starts on it.
pub open spec fn burst_millionths(onset: Option<i64>) -> int {
    match onset {
        Some(f) => f as int,
        None => SCALE as int,
    }
}

/// The numerator of a step: the previous value times the three factors, each
/// still carrying its denominator.
pub open spec fn walk_product(prev: int, step: int, amplified: bool, onset: Option<i64>) -> int {
    prev * (SCALE + step) * gain_tenths(amplified) * burst_millionths(onset)
}

/// The three denominators of a step in one.
pub open spec fn walk_divisor() -> int {
    SCALE * 10 * SCALE
}

/// The value after one step, before it is clamped: the previous value moved by
/// the step, times 1.3 on an overloaded host, times the factor of an overload
/// that starts; rounded down once, at the end.
pub open spec fn walk(prev: int, step: int, amplified: bool, onset: Option<i64>) -> int {
    walk_product(prev, step, amplified, onset) / walk_divisor()
}

/// The value a metric takes after one step from `prev`.
pub open spec fn stepped(
    metric: Metric,
    prev: int,
    step: int,
    amplified: bool,
    onset: Option<i64>,
) -> int {
    metric.clamp_spec(walk(prev, step, amplified, onset))
}

/// The product of a step has the sign of the previous value, and stays within
/// 128 bits for any previous value that fits in 64.
pub proof fn lemma_walk_product_bounds(prev: int, step: int, amplified: bool, onset: Option<i64>)
    requires
        -STEP_LIMIT <= step <= STEP_LIMIT,
        onset matches Some(f) ==> ONSET_MIN <= f < ONSET_END,
    ensures
        prev >= 0 ==> walk_product(prev, step, amplified, onset) >= 0,
        prev <= 0 ==> walk_product(prev, step, amplified, onset) <= 0,
        0 <= prev <= i64::MAX ==> walk_product(prev, step, amplified, onset) <= i64::MAX
            * 1_100_000 * 13 * 1_500_000,
{
    let a = SCALE + step;
    let g = gain_tenths(amplified);
    let b = burst_millionths(onset);
    assert(900_000 <= a <= 1_100_000);
    assert(10 <= g <= 13);
    assert(1_000_000 <= b <= 1_500_000);
    let f = a * g * b;
    assert(0 < f <= 1_100_000 * 13 * 1_500_000) by (nonlinear_arith)
        requires
            900_000 <= a <= 1_100_000,
            10 <= g <= 13,
            1_000_000 <= b <= 1_500_000,
            f == a * g * b,
    ;
    assert(walk_product(prev, step, amplified, onset) == prev * f) by (nonlinear_arith)
        requires
            walk_product(prev, step, amplified, onset) == prev * a * g * b,
            f == a * g * b,
    ;
    assert(prev >= 0 ==> prev * f >= 0) by (nonlinear_arith)
        requires
            f > 0,
    ;
    assert(prev <= 0 ==> prev * f <= 0) by (nonlinear_arith)
        requires
            f > 0,
    ;
    assert(0 <= prev <= i64::MAX ==> prev * f <= i64::MAX * (1_100_000 * 13 * 1_500_000))
        by (nonlinear_arith)
        requires
            0 < f <= 1_100_000 * 13 * 1_500_000,
    ;
}

/// Rounding down loses less than one unit: the walk times its divisor lies
/// within one divisor below the product.
pub proof fn lemma_walk_rounding(prev: int, step: int, amplified: bool, onset: Option<i64>)
    ensures
        walk(prev, step, amplified, onset) * walk_divisor() <= walk_product(
            prev,
            step,
            amplified,
            onset,
        ) < (walk(prev, step, amplified, onset) + 1) * walk_divisor(),
{
    let p = walk_product(prev, step, amplified, onset);
    let d = walk_divisor();
    assert(d == 10_000_000_000_000);
    assert((p / d) * d <= p < (p / d + 1) * d) by (nonlinear_arith)
        requires
            d == 10_000_000_000_000,
    ;
}

/// A value never jumps: from a previous value in the metric's range, one tick
/// takes it no lower than nine tenths of it (less the one unit that rounding
/// may cost), and no higher than the previous value times 1.1, times 1.3 on an
/// overloaded host, times the factor of an overload that starts. Whatever is
/// drawn, the new value stays below 2.145 times the previous one.
pub proof fn lemma_bounded_drift(
    metric: Metric,
    prev: int,
    step: int,
    amplified: bool,
    onset: Option<i64>,
)
    requires
        metric.admits(prev),
        -STEP_LIMIT <= step <= STEP_LIMIT,
        onset matches Some(f) ==> ONSET_MIN <= f < ONSET_END,
    ensures
        9 * prev < 10 * (stepped(metric, prev, step, amplified, onset) + 1),
        stepped(metric, prev, step, amplified, onset) * 100 * SCALE <= prev * 11 * gain_tenths(
            amplified,
        ) * burst_millionths(onset),
        1000 * stepped(metric, prev, step, amplified, onset) <= 2145 * prev,
{
    let w = walk(prev, step, amplified, onset);
    let v = stepped(metric, prev, step, amplified, onset);
    let p = walk_product(prev, step, amplified, onset);
    let a = SCALE + step;
    let g = gain_tenths(amplified);
    let b = burst_millionths(onset);
    lemma_walk_rounding(prev, step, amplified, onset);
    assert(walk_divisor() == 10_000_000_000_000);
    assert(0 <= prev);
    let f = a * g * b;
    assert(p == prev * f) by (nonlinear_arith)
        requires
            p == prev * a * g * b,
            f == a * g * b,
    ;
    assert(9_000_000_000_000 <= f <= 1_100_000 * g * b && 1_100_000 * g * b
        <= 21_450_000_000_000) by (nonlinear_arith)
        requires
            900_000 <= a <= 1_100_000,
            10 <= g <= 13,
            1_000_000 <= b <= 1_500_000,
            f == a * g * b,
    ;
    // The walk itself keeps to the bounds.
    assert(9 * prev < 10 * (w + 1)) by (nonlinear_arith)
        requires
            p < (w + 1) * 10_000_000_000_000,
            p == prev * f,
            f >= 9_000_000_000_000,
            prev >= 0,
    ;
    assert(w * 100 * SCALE <= prev * 11 * g * b) by (nonlinear_arith)
        requires
            w * 10_000_000_000_000 <= p,
            p == prev * f,
            f <= 1_100_000 * g * b,
            prev >= 0,
    ;
    // Clamping moves the value towards the previous one, which is in range.
    assert(prev * 11 * g * b >= prev * 100 * SCALE && prev * 11 * g * b <= prev * 214_500_000)
        by (nonlinear_arith)
        requires
            prev >= 0,
            10 <= g <= 13,
            1_000_000 <= b <= 1_500_000,
    ;
    if w < metric.floor_spec() {
        assert(v == metric.floor_spec());
        assert(v <= prev);
    } else if w > metric.ceiling_spec() {
        assert(v == metric.ceiling_spec());
        assert(prev <= v);
        assert(v < w);
    } else {
        assert(v == w);
    }
}

/// On a tick on which no overload is in force and none starts, the new value
/// lies within ten percent of the previous one, rounding aside.
pub proof fn lemma_calm_step(metric: Metric, prev: int, step: int)
    requires
        metric.admits(prev),
        -STEP_LIMIT <= step <= STEP_LIMIT,
    ensures
        9 * prev < 10 * (stepped(metric, prev, step, false, None) + 1),
        10 * stepped(metric, prev, step, false, None) <= 11 * prev,
{
    lemma_bounded_drift(metric, prev, step, false, None);
    let v = stepped(metric, prev, step, false, None);
    assert(gain_tenths(false) == 10 && burst_millionths(None) == 1_000_000);
    assert(prev * 11 * 10 * 1_000_000 == 110_000_000 * prev) by (nonlinear_arith);
    assert(v * 100 * SCALE == 100_000_000 * v) by (nonlinear_arith);
}

/// Computes the value a metric takes after one step: the previous value moved
/// by the step, amplified on an overloaded host and by an overload that starts,
/// then kept in the metric's range.
pub fn next_value(metric: Metric, prev: i64, step: i64, amplified: bool, onset: Option<i64>) -> (v:
    i64)
    requires
        -STEP_LIMIT <= step <= STEP_LIMIT,
        onset matches Some(f) ==> ONSET_MIN <= f < ONSET_END,
    ensures
        v == stepped(metric, prev as int, step as int, amplified, onset),
        metric.admits(v as int),
{
    proof {
        lemma_walk_product_bounds(prev as int, step as int, amplified, onset);
    }
    if prev <= 0 {
        assert(walk(prev as int, step as int, amplified, onset) <= 0) by (nonlinear_arith)
            requires
                walk_product(prev as int, step as int, amplified, onset) <= 0,
                walk(prev as int, step as int, amplified, onset) == walk_product(
                    prev as int,
                    step as int,
                    amplified,
                    onset,
                ) / 10_000_000_000_000,
        ;
        if prev == 0 {
            assert(walk_product(0, step as int, amplified, onset) == 0) by (nonlinear_arith)
                requires
                    walk_product(0, step as int, amplified, onset) == 0 * (SCALE + step)
                        * gain_tenths(amplified) * burst_millionths(onset),
            ;
        }
        return metric.clamp(0);
    }
    let gain: i128 = if amplified {
        13
    } else {
        10
    };
    let burst: i128 = match onset {
        Some(f) => f as i128,
        None => SCALE as i128,
    };
    let moved: i128 = SCALE as i128 + step as i128;
    assert(prev * moved <= i64::MAX * 1_100_000 && prev * moved >= 0) by (nonlinear_arith)
        requires
            0 < prev <= i64::MAX,
            900_000 <= moved <= 1_100_000,
    ;
    let a: i128 = prev as i128 * moved;
    assert(0 <= a * gain <= i64::MAX * 1_100_000 * 13) by (nonlinear_arith)
        requires
            0 <= a <= i64::MAX * 1_100_000,
            10 <= gain <= 13,
    ;
    let b: i128 = a * gain;
    assert(0 <= b * burst <= i64::MAX * 1_100_000 * 13 * 1_500_000) by (nonlinear_arith)
        requires
            0 <= b <= i64::MAX * 1_100_000 * 13,
            1_000_000 <= burst <= 1_500_000,
    ;
    let c: i128 = b * burst;
    assert(c == walk_product(prev as int, step as int, amplified, onset));
    let q: i128 = c / 10_000_000_000_000;
    assert(q == walk(prev as int, step as int, amplified, onset));
    let hi: i64 = metric.ceiling();
    if q > hi as i128 {
        hi
    } else {
        metric.clamp(q as i64)
    }
}

} // verus!
