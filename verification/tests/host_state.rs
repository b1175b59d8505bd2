use dc_generator::host::{HostState, Status};
use dc_generator::metric::Metric;
use dc_generator::walk::Draws;

const CALM: Draws = Draws { step: 0, onset: None, outage: None };

#[test]
fn new_host_is_normal_and_has_no_values() {
    let host = HostState::new();
    assert_eq!(host.status(), Status::Normal);
    assert_eq!(host.failure_until(), None);
    assert_eq!(host.last_value(Metric::CpuUsage), None);
    assert_eq!(host.last_value(Metric::CpuTemp), None);
    assert!(!host.is_down(0));
    assert!(!host.is_down(i64::MAX));
}

#[test]
fn first_cpu_usage_reading_is_within_ten_percent_of_fifty() {
    for step in [-100_000i64, -50_000, -1, 0, 1, 50_000, 100_000] {
        let mut host = HostState::new();
        let v = host.tick(Metric::CpuUsage, 1_000, Draws { step, ..CALM }).unwrap();
        assert!(45_000_000 <= v && v <= 55_000_000);
        assert_eq!(v, 50_000_000 + 50 * step);
        assert_eq!(host.status(), Status::Normal);
        assert_eq!(host.failure_until(), None);
    }
}

#[test]
fn first_reading_starts_from_the_baseline() {
    let mut host = HostState::new();
    assert_eq!(host.tick(Metric::MemUsage, 5, CALM), Some(50_000_000));
    assert_eq!(host.tick(Metric::DiskIoRead, 5, CALM), Some(100_000_000));
    assert_eq!(host.tick(Metric::DiskIoWrite, 5, CALM), Some(100_000_000));
    assert_eq!(host.tick(Metric::NetIn, 5, CALM), Some(100_000_000));
    assert_eq!(host.tick(Metric::NetOut, 5, CALM), Some(100_000_000));
    assert_eq!(host.tick(Metric::CpuTemp, 5, CALM), Some(60_000_000));
}

#[test]
fn value_is_kept_and_the_next_step_starts_from_it() {
    let mut host = HostState::new();
    let up = Draws { step: 100_000, ..CALM };
    assert_eq!(host.tick(Metric::NetIn, 1, up), Some(110_000_000));
    assert_eq!(host.last_value(Metric::NetIn), Some(110_000_000));
    assert_eq!(host.last_value(Metric::NetOut), None);
    assert_eq!(host.tick(Metric::NetIn, 2, up), Some(121_000_000));
    assert_eq!(host.tick(Metric::NetOut, 3, up), Some(110_000_000));
    assert_eq!(host.last_value(Metric::NetIn), Some(121_000_000));
    assert_eq!(host.last_value(Metric::NetOut), Some(110_000_000));
}

#[test]
fn overload_starts_with_its_factor_and_then_amplifies() {
    let mut host = HostState::new();
    let onset = Draws { onset: Some(1_200_000), ..CALM };
    assert_eq!(host.tick(Metric::DiskIoRead, 1, onset), Some(120_000_000));
    assert_eq!(host.status(), Status::Overloaded);
    assert_eq!(host.tick(Metric::DiskIoRead, 2, CALM), Some(156_000_000));
    assert_eq!(host.status(), Status::Overloaded);
    assert_eq!(host.tick(Metric::DiskIoRead, 3, onset), Some(243_360_000));
    assert_eq!(host.tick(Metric::CpuUsage, 4, CALM), Some(65_000_000));
}

#[test]
fn outage_silences_the_host_until_its_end() {
    let mut host = HostState::new();
    let outage = Draws { outage: Some(10_000), ..CALM };
    assert_eq!(host.tick(Metric::CpuUsage, 1_000, outage), Some(50_000_000));
    assert_eq!(host.failure_until(), Some(11_000));
    assert!(host.is_down(1_000));
    assert!(host.is_down(10_999));
    assert!(!host.is_down(11_000));
    for now in [1_000i64, 1_001, 5_000, 10_999] {
        assert_eq!(host.tick(Metric::CpuUsage, now, Draws { step: 100_000, ..CALM }), None);
        assert_eq!(host.tick(Metric::NetIn, now, CALM), None);
        assert_eq!(host.failure_until(), Some(11_000));
        assert_eq!(host.last_value(Metric::CpuUsage), Some(50_000_000));
        assert_eq!(host.last_value(Metric::NetIn), None);
        assert_eq!(host.status(), Status::Normal);
    }
    assert_eq!(host.tick(Metric::CpuUsage, 11_000, CALM), Some(50_000_000));
    assert_eq!(host.failure_until(), None);
}

#[test]
fn host_is_normal_again_after_an_outage() {
    let mut host = HostState::new();
    let both = Draws { step: 0, onset: Some(1_200_000), outage: Some(29_999) };
    assert_eq!(host.tick(Metric::NetIn, 0, both), Some(120_000_000));
    assert_eq!(host.status(), Status::Overloaded);
    assert_eq!(host.failure_until(), Some(29_999));
    assert_eq!(host.tick(Metric::NetIn, 29_998, CALM), None);
    assert_eq!(host.status(), Status::Overloaded);
    assert_eq!(host.tick(Metric::NetIn, 29_999, CALM), Some(120_000_000));
    assert_eq!(host.status(), Status::Normal);
    assert_eq!(host.failure_until(), None);
    assert_eq!(host.tick(Metric::NetIn, 30_000, CALM), Some(120_000_000));
}

#[test]
fn overload_may_start_on_the_tick_that_ends_an_outage() {
    let mut host = HostState::new();
    assert_eq!(
        host.tick(Metric::NetIn, 0, Draws { step: 0, onset: Some(1_200_000), outage: Some(10_000) }),
        Some(120_000_000)
    );
    let again = Draws { step: 0, onset: Some(1_250_000), outage: Some(20_000) };
    assert_eq!(host.tick(Metric::NetIn, 10_000, again), Some(150_000_000));
    assert_eq!(host.status(), Status::Overloaded);
    assert_eq!(host.failure_until(), Some(30_000));
}

#[test]
fn end_of_outage_stops_at_the_last_instant() {
    let mut host = HostState::new();
    let outage = Draws { outage: Some(10_000), ..CALM };
    assert_eq!(host.tick(Metric::CpuTemp, i64::MAX - 5, outage), Some(60_000_000));
    assert_eq!(host.failure_until(), Some(i64::MAX));
    assert!(host.is_down(i64::MAX - 1));
    assert!(!host.is_down(i64::MAX));
    let mut early = HostState::new();
    assert_eq!(early.tick(Metric::CpuTemp, i64::MIN, outage), Some(60_000_000));
    assert_eq!(early.failure_until(), Some(i64::MIN + 10_000));
}

#[test]
fn long_walk_stays_in_range() {
    let mut host = HostState::new();
    let mut prev: Option<i64> = None;
    for i in 0..5_000i64 {
        let step = (i * 7_919) % 200_001 - 100_000;
        let onset = if i % 20 == 7 { Some(1_200_000 + (i * 31) % 300_000) } else { None };
        let v = host.tick(Metric::CpuTemp, i, Draws { step, onset, outage: None }).unwrap();
        assert!(20_000_000 <= v && v <= 100_000_000);
        if let Some(p) = prev {
            assert!(9 * p < 10 * (v + 1));
            assert!(1000 * v <= 2145 * p);
        }
        prev = Some(v);
    }
}
