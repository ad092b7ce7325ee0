use astroswap::curve::{
    calculate_staking_multiplier, calculate_vesting_percentage, CurveType, ExponentialDecayCurve,
    LinearCurve, SteppedCurve, BPS, DAY,
};

#[test]
fn test_constant_curve() {
    let curve = CurveType::constant(15_000);
    assert_eq!(curve.evaluate(0), 15_000);
    assert_eq!(curve.evaluate(1000), 15_000);
    assert_eq!(curve.evaluate(u64::MAX), 15_000);
}

#[test]
fn test_linear_curve() {
    let curve = CurveType::linear(10_000, 20_000, 100);

    assert_eq!(curve.evaluate(0), 10_000);
    assert_eq!(curve.evaluate(50), 15_000);
    assert_eq!(curve.evaluate(100), 20_000);
    assert_eq!(curve.evaluate(200), 20_000); // Capped at max
}

#[test]
fn lib_test_staking_multiplier() {
    assert_eq!(calculate_staking_multiplier(0), 10_000);
    assert_eq!(calculate_staking_multiplier(DAY * 5), 10_000);
    assert_eq!(calculate_staking_multiplier(DAY * 10), 11_000);
    assert_eq!(calculate_staking_multiplier(DAY * 100), 13_000);
}

#[test]
fn test_vesting() {
    // 30 day cliff, 365 day duration
    let cliff = DAY * 30;
    let duration = DAY * 365;

    // Before cliff: 0%
    assert_eq!(calculate_vesting_percentage(DAY * 10, cliff, duration), 0);

    // At cliff: 0%
    assert_eq!(calculate_vesting_percentage(cliff, cliff, duration), 0);

    // Halfway through vesting
    let halfway = cliff + duration / 2;
    assert_eq!(calculate_vesting_percentage(halfway, cliff, duration), 5_000);

    // Fully vested
    assert_eq!(calculate_vesting_percentage(cliff + duration, cliff, duration), BPS);
}

// ---- further cases ----

#[test]
fn stepped_curve_holds_each_level_up_to_its_threshold() {
    let curve = SteppedCurve::new([(10, 1), (20, 2), (30, 3), (40, 4), (50, 5)]);
    assert_eq!(curve.step0_threshold, 10);
    assert_eq!(curve.step4_value, 5);
    assert_eq!(curve.evaluate(0), 1);
    assert_eq!(curve.evaluate(10), 1);
    assert_eq!(curve.evaluate(11), 2);
    assert_eq!(curve.evaluate(20), 2);
    assert_eq!(curve.evaluate(21), 3);
    assert_eq!(curve.evaluate(30), 3);
    assert_eq!(curve.evaluate(31), 4);
    assert_eq!(curve.evaluate(40), 4);
    assert_eq!(curve.evaluate(41), 5);
    // the last threshold is not consulted
    assert_eq!(curve.evaluate(51), 5);
    assert_eq!(curve.evaluate(u64::MAX), 5);
    assert_eq!(CurveType::Stepped(curve).evaluate(25), 3);
}

#[test]
fn default_staking_curve_agrees_with_the_multiplier() {
    let curve = CurveType::default_staking();
    for t in [0, 1, DAY * 7, DAY * 7 + 1, DAY * 14, DAY * 14 + 1, DAY * 30, DAY * 30 + 1, DAY * 60, DAY * 60 + 1, u64::MAX] {
        assert_eq!(curve.evaluate(t), calculate_staking_multiplier(t));
    }
    assert_eq!(
        curve,
        CurveType::Stepped(SteppedCurve {
            step0_threshold: 604_800,
            step0_value: 10_000,
            step1_threshold: 1_209_600,
            step1_value: 11_000,
            step2_threshold: 2_592_000,
            step2_value: 12_000,
            step3_threshold: 5_184_000,
            step3_value: 12_500,
            step4_threshold: u64::MAX,
            step4_value: 13_000,
        })
    );
}

#[test]
fn linear_curve_edge_cases() {
    // a duration of zero is the maximum at once
    assert_eq!(CurveType::linear(1, 9, 0).evaluate(0), 9);
    // a maximum below the minimum never rises
    assert_eq!(CurveType::linear(9, 1, 100).evaluate(50), 9);
    assert_eq!(CurveType::linear(9, 1, 100).evaluate(100), 1);
    // rounds down
    assert_eq!(CurveType::linear(0, 10, 3).evaluate(1), 3);
    assert_eq!(CurveType::linear(0, 10, 3).evaluate(2), 6);
    // the full range over the longest duration
    let curve = CurveType::Linear(LinearCurve { min_value: 0, max_value: u32::MAX, duration: u64::MAX });
    assert_eq!(curve.evaluate(u64::MAX - 1), u32::MAX - 1);
    assert_eq!(curve.evaluate(u64::MAX / 2), u32::MAX / 2);
}

#[test]
fn exponential_decay_curve() {
    let curve = CurveType::ExponentialDecay(ExponentialDecayCurve {
        initial_value: 10_000,
        decay_rate: 1_000,
        period: 10,
    });
    assert_eq!(curve.evaluate(0), 10_000);
    assert_eq!(curve.evaluate(9), 10_000);
    assert_eq!(curve.evaluate(10), 9_000);
    assert_eq!(curve.evaluate(20), 8_100);
    assert_eq!(curve.evaluate(35), 7_290);
    // a period of zero never decays
    let still = CurveType::ExponentialDecay(ExponentialDecayCurve {
        initial_value: 7,
        decay_rate: 5_000,
        period: 0,
    });
    assert_eq!(still.evaluate(u64::MAX), 7);
    // at most a thousand periods are applied
    let slow = CurveType::ExponentialDecay(ExponentialDecayCurve {
        initial_value: u32::MAX,
        decay_rate: 1,
        period: 1,
    });
    assert_eq!(slow.evaluate(1000), slow.evaluate(u64::MAX));
    assert!(slow.evaluate(1000) < slow.evaluate(999));
    // a rate of the whole takes everything at the first period
    let all = CurveType::ExponentialDecay(ExponentialDecayCurve {
        initial_value: 123,
        decay_rate: 10_000,
        period: 5,
    });
    assert_eq!(all.evaluate(4), 123);
    assert_eq!(all.evaluate(5), 0);
}

#[test]
fn vesting_edge_cases() {
    assert_eq!(calculate_vesting_percentage(0, 0, 0), 10_000);
    assert_eq!(calculate_vesting_percentage(5, 5, 0), 10_000);
    assert_eq!(calculate_vesting_percentage(4, 5, 0), 0);
    assert_eq!(calculate_vesting_percentage(1, 0, 3), 3_333);
    assert_eq!(calculate_vesting_percentage(2, 0, 3), 6_666);
    // a cliff and a duration whose sum does not fit in 64 bits
    assert_eq!(calculate_vesting_percentage(u64::MAX, u64::MAX - 10, u64::MAX), 0);
    assert_eq!(calculate_vesting_percentage(u64::MAX, u64::MAX - 10, 20), 5_000);
    assert_eq!(calculate_vesting_percentage(u64::MAX, 0, u64::MAX), 10_000);
    assert_eq!(calculate_vesting_percentage(u64::MAX - 1, 0, u64::MAX), 9_999);
}
