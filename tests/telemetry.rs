//! Tests of counters and timings.

use quantaterm::limits::TimeSpan;
use quantaterm::telemetry::Telemetry;

#[test]
fn test_telemetry_creation() {
    let telemetry = Telemetry::new();
    assert!(telemetry.is_enabled());

    let disabled = Telemetry::disabled();
    assert!(!disabled.is_enabled());
}

#[test]
fn test_counter_operations() {
    let mut telemetry = Telemetry::new();

    telemetry.increment_counter("test_counter");
    assert_eq!(telemetry.get_counter("test_counter"), 1);

    telemetry.add_counter("test_counter", 5);
    assert_eq!(telemetry.get_counter("test_counter"), 6);

    assert_eq!(telemetry.get_counter("nonexistent"), 0);
}

#[test]
fn test_disabled_telemetry() {
    let mut telemetry = Telemetry::disabled();

    telemetry.increment_counter("test");
    assert_eq!(telemetry.get_counter("test"), 0);

    telemetry.start_timing("test");
    let duration = telemetry.end_timing("test");
    assert!(duration.is_none());
}

#[test]
fn counters_saturate_and_stay_apart() {
    let mut telemetry = Telemetry::new();
    telemetry.add_counter("a", u64::MAX - 1);
    telemetry.add_counter("a", 5);
    telemetry.increment_counter("b");
    assert_eq!(telemetry.get_counter("a"), u64::MAX);
    assert_eq!(telemetry.get_counter("b"), 1);
    telemetry.clear();
    assert_eq!(telemetry.get_counter("a"), 0);
}

#[test]
fn timing_records_one_duration() {
    let mut telemetry = Telemetry::new();
    assert!(telemetry.end_timing("op").is_none());
    telemetry.start_timing("op");
    let d = telemetry.end_timing("op");
    assert!(d.is_some());
    let stats = telemetry.get_timing_stats("op").unwrap();
    assert_eq!(stats.count, 1);
    assert_eq!(stats.min, d.unwrap());
    assert_eq!(stats.median, d.unwrap());
    assert!(telemetry.get_timing_stats("other").is_none());
    let summary = telemetry.get_summary();
    assert_eq!(summary.timings.len(), 1);
    assert!(summary.timings[0].1.max >= TimeSpan { nanos: 0 });
}

#[test]
fn timing_stats_of_several_durations() {
    let mut telemetry = Telemetry::new();
    let spans: Vec<TimeSpan> = [40u64, 10, 30, 20].iter().map(|n| TimeSpan { nanos: *n }).collect();
    telemetry.timings.push(("op".to_string(), spans));
    let stats = telemetry.get_timing_stats("op").unwrap();
    assert_eq!(stats.count, 4);
    assert_eq!(stats.min.nanos, 10);
    assert_eq!(stats.max.nanos, 40);
    assert_eq!(stats.total.nanos, 100);
    assert_eq!(stats.avg.nanos, 25);
    assert_eq!(stats.median.nanos, 30);
}

#[test]
fn ending_a_timing_records_it_once() {
    let mut telemetry = Telemetry::new();
    telemetry.start_timing("op");
    let d = telemetry.end_timing("op").unwrap();
    assert!(telemetry.start_times.is_empty());
    assert_eq!(telemetry.timings.len(), 1);
    assert_eq!(telemetry.timings[0].1.last(), Some(&d));
    assert!(telemetry.end_timing("op").is_none());
    telemetry.start_timing("op");
    let e = telemetry.end_timing("op").unwrap();
    assert_eq!(telemetry.timings[0].1, vec![d, e]);
}
