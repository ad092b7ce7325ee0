//! Reward curves: how a multiplier, in basis points, depends on the time
//! for which shares have been staked.

use crate::math::lemma_part_of_amount;
use vstd::prelude::*;

verus! {

/// Number of basis points in one whole.
pub const BPS: u32 = 10_000;

/// The number of seconds in a day.
pub const DAY: u64 = 86_400;

/// A curve that rises in a straight line from `min_value` at time zero to
/// `max_value` at `duration`, and stays there.
#[derive(Clone, Copy, Debug, PartialEq, Eq, Structural)]
pub struct LinearCurve {
    pub min_value: u32,
    pub max_value: u32,
    pub duration: u64,
}

/// A curve that starts at `initial_value` and loses `decay_rate` basis
/// points of its value with every full `period`.
#[derive(Clone, Copy, Debug, PartialEq, Eq, Structural)]
pub struct ExponentialDecayCurve {
    pub initial_value: u32,
    pub decay_rate: u32,
    pub period: u64,
}

/// A curve of five levels: each level holds up to and including its
/// threshold, and the last level holds beyond the fourth threshold.
#[derive(Clone, Copy, Debug, PartialEq, Eq, Structural)]
pub struct SteppedCurve {
    pub step0_threshold: u64,
    pub step0_value: u32,
    pub step1_threshold: u64,
    pub step1_value: u32,
    pub step2_threshold: u64,
    pub step2_value: u32,
    pub step3_threshold: u64,
    pub step3_value: u32,
    pub step4_threshold: u64,
    pub step4_value: u32,
}

impl SteppedCurve {
    /// The value of the curve at `time`: that of the first level whose
    /// threshold is not below `time`, and that of the last level where there
    /// is none among the first four.
    pub open spec fn spec_evaluate(self, time: u64) -> u32 {
        if time <= self.step0_threshold {
            self.step0_value
        } else if time <= self.step1_threshold {
            self.step1_value
        } else if time <= self.step2_threshold {
            self.step2_value
        } else if time <= self.step3_threshold {
            self.step3_value
        } else {
            self.step4_value
        }
    }

    /// The curve with the five levels `steps`, each a threshold and a value.
    pub fn new(steps: [(u64, u32); 5]) -> (curve: SteppedCurve)
        ensures
            curve == (SteppedCurve {
                step0_threshold: steps[0].0,
                step0_value: steps[0].1,
                step1_threshold: steps[1].0,
                step1_value: steps[1].1,
                step2_threshold: steps[2].0,
                step2_value: steps[2].1,
                step3_threshold: steps[3].0,
                step3_value: steps[3].1,
                step4_threshold: steps[4].0,
                step4_value: steps[4].1,
            }),
    {
        SteppedCurve {
            step0_threshold: steps[0].0,
            step0_value: steps[0].1,
            step1_threshold: steps[1].0,
            step1_value: steps[1].1,
            step2_threshold: steps[2].0,
            step2_value: steps[2].1,
            step3_threshold: steps[3].0,
            step3_value: steps[3].1,
            step4_threshold: steps[4].0,
            step4_value: steps[4].1,
        }
    }

    /// The value of the curve at `time`.
    pub fn evaluate(&self, time: u64) -> (value: u32)
        ensures
            value == self.spec_evaluate(time),
    {
        if time <= self.step0_threshold {
            return self.step0_value;
        }
        if time <= self.step1_threshold {
            return self.step1_value;
        }
        if time <= self.step2_threshold {
            return self.step2_value;
        }
        if time <= self.step3_threshold {
            return self.step3_value;
        }
        self.step4_value
    }
}

/// The curves that a reward calculation can follow.
#[derive(Clone, Copy, Debug, PartialEq, Eq, Structural)]
pub enum CurveType {
    /// The same value at every time.
    Constant(u32),
    /// A straight rise from a minimum to a maximum.
    Linear(LinearCurve),
    /// Five levels.
    Stepped(SteppedCurve),
    /// A value that shrinks by a fixed share with every period.
    ExponentialDecay(ExponentialDecayCurve),
}

/// A value after one period of decay: it loses `decay_rate` basis points of
/// itself, rounded down, and never falls below zero. The loss is taken
/// modulo 2^32 before it is subtracted.
pub open spec fn decay_once(value: int, decay_rate: int) -> int {
    let loss = ((value * decay_rate) / 10_000) % 0x1_0000_0000;
    if loss >= value {
        0
    } else {
        value - loss
    }
}

/// A value after `periods` periods of decay.
pub open spec fn decay(value: int, decay_rate: int, periods: nat) -> int
    decreases periods,
{
    if periods == 0 {
        value
    } else {
        decay_once(decay(value, decay_rate, (periods - 1) as nat), decay_rate)
    }
}

/// The value of a linear curve at `time`.
pub open spec fn spec_linear(curve: LinearCurve, time: u64) -> int {
    if time >= curve.duration {
        curve.max_value as int
    } else if curve.max_value <= curve.min_value {
        curve.min_value as int
    } else {
        curve.min_value + ((curve.max_value - curve.min_value) * time) / (curve.duration as int)
    }
}

/// The value of a decaying curve at `time`: the initial value after one
/// decay for each full period that has passed, a thousand at most.
pub open spec fn spec_exponential_decay(curve: ExponentialDecayCurve, time: u64) -> int {
    if curve.period == 0 {
        curve.initial_value as int
    } else {
        let periods = time / curve.period;
        decay(
            curve.initial_value as int,
            curve.decay_rate as int,
            if periods < 1000 {
                periods as nat
            } else {
                1000
            },
        )
    }
}

proof fn lemma_decay_once_bounds(value: int, decay_rate: int)
    requires
        0 <= value <= u32::MAX,
        0 <= decay_rate <= u32::MAX,
    ensures
        0 <= decay_once(value, decay_rate) <= value,
{
    assert(value * decay_rate >= 0) by (nonlinear_arith)
        requires
            value >= 0,
            decay_rate >= 0,
    ;
}

impl CurveType {
    /// The value of the curve at `time`.
    pub open spec fn spec_evaluate(self, time: u64) -> int {
        match self {
            CurveType::Constant(value) => value as int,
            CurveType::Linear(params) => spec_linear(params, time),
            CurveType::Stepped(stepped) => stepped.spec_evaluate(time) as int,
            CurveType::ExponentialDecay(params) => spec_exponential_decay(params, time),
        }
    }

    /// The curve that is `value` at every time.
    pub fn constant(value: u32) -> (curve: CurveType)
        ensures
            curve == CurveType::Constant(value),
    {
        CurveType::Constant(value)
    }

    /// The curve that rises from `min_value` to `max_value` over `duration`.
    pub fn linear(min_value: u32, max_value: u32, duration: u64) -> (curve: CurveType)
        ensures
            curve == CurveType::Linear(LinearCurve { min_value, max_value, duration }),
    {
        CurveType::Linear(LinearCurve { min_value, max_value, duration })
    }

    /// The staking curve used by default: 10000 up to seven days, 11000 up
    /// to fourteen, 12000 up to thirty, 12500 up to sixty, 13000 beyond.
    pub fn default_staking() -> (curve: CurveType)
        ensures
            curve == CurveType::Stepped(
                SteppedCurve {
                    step0_threshold: 604_800,
                    step0_value: 10_000,
                    step1_threshold: 1_209_600,
                    step1_value: 11_000,
                    step2_threshold: 2_592_000,
                    step2_value: 12_000,
                    step3_threshold: 5_184_000,
                    step3_value: 12_500,
                    step4_threshold: u64::MAX,
                    step4_value: 13_000,
                },
            ),
    {
        CurveType::Stepped(
            SteppedCurve::new(
                [
                    (DAY * 7, 10_000),
                    (DAY * 14, 11_000),
                    (DAY * 30, 12_000),
                    (DAY * 60, 12_500),
                    (u64::MAX, 13_000),
                ],
            ),
        )
    }

    /// The value of the curve at `time`, a number of seconds.
    pub fn evaluate(&self, time: u64) -> (value: u32)
        ensures
            value == self.spec_evaluate(time),
    {
        match self {
            CurveType::Constant(value) => *value,
            CurveType::Linear(params) => {
                if time >= params.duration {
                    params.max_value
                } else if params.max_value <= params.min_value {
                    params.min_value
                } else {
                    let range: u128 = (params.max_value - params.min_value) as u128;
                    proof {
                        lemma_part_of_amount(
                            time as int,
                            params.duration as int,
                            range as int,
                        );
                        assert(range * time <= u32::MAX * u64::MAX) by (nonlinear_arith)
                            requires
                                0 <= range <= u32::MAX,
                                0 <= time <= u64::MAX,
                        ;
                    }
                    let increase: u128 = (range * (time as u128)) / (params.duration as u128);
                    params.min_value + (increase as u32)
                }
            },
            CurveType::Stepped(stepped) => stepped.evaluate(time),
            CurveType::ExponentialDecay(params) => {
                if params.period == 0 {
                    return params.initial_value;
                }
                let periods: u64 = time / params.period;
                let max_periods: u64 = if periods < 1000 {
                    periods
                } else {
                    1000
                };
                let mut value: u32 = params.initial_value;
                let mut done: u64 = 0;
                while done < max_periods
                    invariant
                        done <= max_periods,
                        value == decay(
                            params.initial_value as int,
                            params.decay_rate as int,
                            done as nat,
                        ),
                    decreases max_periods - done,
                {
                    proof {
                        lemma_decay_once_bounds(value as int, params.decay_rate as int);
                        assert(value * params.decay_rate <= u32::MAX * u32::MAX)
                            by (nonlinear_arith)
                            requires
                                0 <= value <= u32::MAX,
                                0 <= params.decay_rate <= u32::MAX,
                        ;
                    }
                    let loss: u64 = ((value as u64) * (params.decay_rate as u64)) / (BPS as u64);
                    let cut: u32 = (loss % 0x1_0000_0000) as u32;
                    value = value.saturating_sub(cut);
                    done = done + 1;
                    assert(decay(
                        params.initial_value as int,
                        params.decay_rate as int,
                        done as nat,
                    ) == decay_once(
                        decay(
                            params.initial_value as int,
                            params.decay_rate as int,
                            (done - 1) as nat,
                        ),
                        params.decay_rate as int,
                    ));
                }
                value
            },
        }
    }
}

/// The reward multiplier, in basis points, earned after staking for
/// `duration_seconds`: the default staking curve at that time.
pub fn calculate_staking_multiplier(duration_seconds: u64) -> (r: u32)
    ensures
        r == if duration_seconds <= 604_800 {
            10_000u32
        } else if duration_seconds <= 1_209_600 {
            11_000u32
        } else if duration_seconds <= 2_592_000 {
            12_000u32
        } else if duration_seconds <= 5_184_000 {
            12_500u32
        } else {
            13_000u32
        },
{
    if duration_seconds <= 604_800 {
        10_000
    } else if duration_seconds <= 1_209_600 {
        11_000
    } else if duration_seconds <= 2_592_000 {
        12_000
    } else if duration_seconds <= 5_184_000 {
        12_500
    } else {
        13_000
    }
}

/// The share, in basis points, that has vested once `elapsed` seconds have
/// passed.
pub open spec fn spec_vesting_percentage(elapsed: u64, cliff: u64, duration: u64) -> int {
    if elapsed < cliff {
        0
    } else if duration == 0 || elapsed - cliff >= duration {
        10_000
    } else {
        ((elapsed - cliff) * 10_000) / (duration as int)
    }
}

/// The share, in basis points, that has vested once `elapsed` seconds have
/// passed: nothing before the cliff, everything once `duration` has passed
/// after the cliff, and in between the part of `duration` that has passed,
/// rounded down.
pub fn calculate_vesting_percentage(elapsed: u64, cliff: u64, duration: u64) -> (r: u32)
    ensures
        r == spec_vesting_percentage(elapsed, cliff, duration),
        r <= 10_000,
{
    if elapsed < cliff {
        return 0;
    }
    let vesting_time: u64 = elapsed - cliff;
    if duration == 0 || vesting_time >= duration {
        return BPS;
    }
    proof {
        assert(0 <= (vesting_time * 10_000) / (duration as int) < 10_000) by (nonlinear_arith)
            requires
                0 <= vesting_time < duration,
        ;
    }
    (((vesting_time as u128) * (BPS as u128)) / (duration as u128)) as u32
}

} // verus!
