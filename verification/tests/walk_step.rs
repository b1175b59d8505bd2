use dc_generator::metric::Metric;
use dc_generator::walk::{
    next_value, Draws, ONSET_END, ONSET_MIN, OUTAGE_END, OUTAGE_MIN, STEP_LIMIT,
};

#[test]
fn step_moves_by_the_drawn_fraction() {
    assert_eq!(next_value(Metric::CpuUsage, 50_000_000, 0, false, None), 50_000_000);
    assert_eq!(next_value(Metric::CpuUsage, 50_000_000, 100_000, false, None), 55_000_000);
    assert_eq!(next_value(Metric::CpuUsage, 50_000_000, -100_000, false, None), 45_000_000);
    assert_eq!(next_value(Metric::NetIn, 100_000_000, 12_345, false, None), 101_234_500);
    assert_eq!(next_value(Metric::NetIn, 100_000_000, -1, false, None), 99_999_900);
}

#[test]
fn overloaded_host_amplifies_by_thirteen_tenths() {
    assert_eq!(next_value(Metric::CpuUsage, 50_000_000, 0, true, None), 65_000_000);
    assert_eq!(next_value(Metric::DiskIoRead, 100_000_000, 100_000, true, None), 143_000_000);
}

#[test]
fn overload_onset_multiplies_by_its_factor() {
    assert_eq!(next_value(Metric::CpuUsage, 50_000_000, 0, false, Some(1_200_000)), 60_000_000);
    assert_eq!(
        next_value(Metric::CpuUsage, 50_000_000, 0, false, Some(1_499_999)),
        74_999_950
    );
}

#[test]
fn amplification_and_onset_both_apply() {
    assert_eq!(
        next_value(Metric::CpuUsage, 50_000_000, 50_000, true, Some(1_250_000)),
        85_312_500
    );
    assert_eq!(
        next_value(Metric::NetOut, 100_000_000, 100_000, true, Some(1_499_999)),
        214_499_857
    );
}

#[test]
fn result_is_rounded_down_once() {
    assert_eq!(next_value(Metric::NetIn, 1, 0, false, None), 1);
    assert_eq!(next_value(Metric::NetIn, 1, -100_000, false, None), 0);
    assert_eq!(next_value(Metric::NetIn, 3, 100_000, false, None), 3);
    assert_eq!(next_value(Metric::NetIn, 7, 100_000, true, Some(1_300_000)), 13);
    assert_eq!(next_value(Metric::NetIn, 0, 100_000, true, Some(1_300_000)), 0);
}

#[test]
fn shares_are_capped_at_one_hundred() {
    assert_eq!(next_value(Metric::CpuUsage, 90_000_000, 100_000, true, None), 100_000_000);
    assert_eq!(next_value(Metric::MemUsage, 100_000_000, 1, false, None), 100_000_000);
    assert_eq!(next_value(Metric::MemUsage, 100_000_000, -1, false, None), 99_999_900);
}

#[test]
fn temperature_stays_between_twenty_and_one_hundred() {
    assert_eq!(next_value(Metric::CpuTemp, 20_000_000, -100_000, false, None), 20_000_000);
    assert_eq!(next_value(Metric::CpuTemp, 60_000_000, 0, false, None), 60_000_000);
    assert_eq!(next_value(Metric::CpuTemp, 95_000_000, 100_000, false, None), 100_000_000);
    assert_eq!(next_value(Metric::CpuTemp, 0, 0, false, None), 20_000_000);
}

#[test]
fn rates_stop_at_the_largest_value() {
    assert_eq!(next_value(Metric::DiskIoRead, i64::MAX, 100_000, false, None), i64::MAX);
    assert_eq!(
        next_value(Metric::DiskIoWrite, i64::MAX, 100_000, true, Some(1_499_999)),
        i64::MAX
    );
    assert_eq!(
        next_value(Metric::DiskIoWrite, i64::MAX, -100_000, false, None),
        8_301_034_833_169_298_226
    );
}

#[test]
fn values_below_zero_are_floored() {
    assert_eq!(next_value(Metric::CpuUsage, -5, 0, false, None), 0);
    assert_eq!(next_value(Metric::NetIn, i64::MIN, 100_000, true, Some(1_300_000)), 0);
    assert_eq!(next_value(Metric::CpuTemp, -5, 0, false, None), 20_000_000);
}

#[test]
fn every_value_is_in_range_and_drift_is_bounded() {
    let metrics = [
        Metric::CpuUsage,
        Metric::MemUsage,
        Metric::DiskIoRead,
        Metric::DiskIoWrite,
        Metric::NetIn,
        Metric::NetOut,
        Metric::CpuTemp,
    ];
    let steps = [-100_000i64, -33_333, 0, 1, 99_999, 100_000];
    let onsets = [None, Some(1_200_000i64), Some(1_333_333), Some(1_499_999)];
    for m in metrics {
        let mut prevs = vec![m.floor(), m.baseline(), m.ceiling(), m.floor() + 1];
        if m.ceiling() > 100_000_000 {
            prevs.push(123_456_789_012);
        }
        for prev in prevs {
            for step in steps {
                for amplified in [false, true] {
                    for onset in onsets {
                        let v = next_value(m, prev, step, amplified, onset);
                        assert!(v >= 0);
                        assert!(m.floor() <= v && v <= m.ceiling());
                        let (p, v) = (prev as i128, v as i128);
                        assert!(9 * p < 10 * (v + 1));
                        assert!(1000 * v <= 2145 * p);
                        if !amplified && onset.is_none() {
                            assert!(10 * v <= 11 * p);
                        }
                    }
                }
            }
        }
    }
}

#[test]
fn draws_are_valid_within_their_ranges_only() {
    let calm = Draws { step: 0, onset: None, outage: None };
    assert!(calm.is_valid());
    assert!(Draws { step: STEP_LIMIT, onset: Some(ONSET_MIN), outage: Some(OUTAGE_MIN) }.is_valid());
    assert!(Draws { step: -STEP_LIMIT, onset: Some(ONSET_END - 1), outage: Some(OUTAGE_END - 1) }
        .is_valid());
    assert!(!Draws { step: STEP_LIMIT + 1, ..calm }.is_valid());
    assert!(!Draws { step: -STEP_LIMIT - 1, ..calm }.is_valid());
    assert!(!Draws { onset: Some(ONSET_MIN - 1), ..calm }.is_valid());
    assert!(!Draws { onset: Some(ONSET_END), ..calm }.is_valid());
    assert!(!Draws { outage: Some(OUTAGE_MIN - 1), ..calm }.is_valid());
    assert!(!Draws { outage: Some(OUTAGE_END), ..calm }.is_valid());
    assert_eq!((STEP_LIMIT, ONSET_MIN, ONSET_END), (100_000, 1_200_000, 1_500_000));
    assert_eq!((OUTAGE_MIN, OUTAGE_END), (10_000, 30_000));
}

#[test]
fn raw_numbers_are_shifted_into_their_ranges() {
    assert_eq!(Draws::from_raw(0, None, None), Draws { step: -100_000, onset: None, outage: None });
    assert_eq!(
        Draws::from_raw(100_000, Some(0), Some(0)),
        Draws { step: 0, onset: Some(1_200_000), outage: Some(10_000) }
    );
    assert_eq!(
        Draws::from_raw(200_000, Some(299_999), Some(19_999)),
        Draws { step: 100_000, onset: Some(1_499_999), outage: Some(29_999) }
    );
    assert_eq!(
        Draws::from_raw(123_456, None, Some(5)),
        Draws { step: 23_456, onset: None, outage: Some(10_005) }
    );
    for step in [0u64, 1, 99_999, 100_001, 200_000] {
        assert!(Draws::from_raw(step, Some(150_000), Some(10_000)).is_valid());
    }
}
