//! Tick statistics.

use rukkit::protocol::types::Float64;
use rukkit::server::tick::{Duration, TickMetrics};

fn target() -> Duration {
    Duration::from_millis(50)
}

fn metrics() -> TickMetrics {
    TickMetrics::new(target(), 100)
}

fn seconds(span: Duration) -> f64 {
    let nanos = span.as_nanos();
    std::time::Duration::new((nanos / 1_000_000_000) as u64, (nanos % 1_000_000_000) as u32)
        .as_secs_f64()
}

fn milliseconds(span: Duration) -> f64 {
    seconds(span) * 1000.0
}

fn mean_mspt(m: &TickMetrics) -> f64 {
    if m.samples() == 0 {
        return 0.0;
    }
    let total: f64 = m.window().iter().map(|span| seconds(*span)).sum();
    total * 1000.0 / m.samples() as f64
}

fn max_mspt(m: &TickMetrics) -> f64 {
    m.max_sample().map_or(0.0, milliseconds)
}

fn percentile_mspt(m: &TickMetrics, quantile: f64) -> f64 {
    let rank = (quantile.clamp(0.0, 1.0) * m.samples() as f64).ceil() as usize;
    m.sample_at_rank(rank).map_or(0.0, milliseconds)
}

fn tps(m: &TickMetrics) -> f64 {
    let target_tps = 1.0 / seconds(m.target());
    let mean = mean_mspt(m);
    if mean <= 0.0 {
        return target_tps;
    }
    (1000.0 / mean).min(target_tps)
}

fn number(value: f64) -> Float64 {
    Float64 { bits: value.to_bits() }
}

fn is_healthy(m: &TickMetrics) -> bool {
    m.is_healthy(number(mean_mspt(m)), number(milliseconds(m.target())))
}

#[test]
fn an_idle_server_reports_the_target_rate() {
    let m = metrics();
    assert_eq!(tps(&m), 20.0);
    assert_eq!(mean_mspt(&m), 0.0);
    assert!(is_healthy(&m));
}

#[test]
fn finishing_early_does_not_exceed_the_target_rate() {
    let mut m = metrics();
    for _ in 0..10 {
        m.record(Duration::from_millis(1));
    }
    // 1 ms of work would be 1000 TPS if uncapped; the clock still runs at 20.
    assert_eq!(tps(&m), 20.0);
    assert!(is_healthy(&m));
    assert_eq!(m.overrun_ticks(), 0);
}

#[test]
fn overrunning_ticks_drag_the_rate_down() {
    let mut m = metrics();
    for _ in 0..10 {
        m.record(Duration::from_millis(100));
    }
    assert!((tps(&m) - 10.0).abs() < 0.001, "tps was {}", tps(&m));
    assert!(!is_healthy(&m));
    assert_eq!(m.overrun_ticks(), 10);
}

#[test]
fn the_window_forgets_old_samples() {
    let mut m = TickMetrics::new(target(), 3);
    m.record(Duration::from_millis(100));
    m.record(Duration::from_millis(10));
    m.record(Duration::from_millis(10));
    assert!((mean_mspt(&m) - 40.0).abs() < 0.001);

    // Pushes the 100 ms sample out of the window.
    m.record(Duration::from_millis(10));
    assert_eq!(m.samples(), 3);
    assert!((mean_mspt(&m) - 10.0).abs() < 0.001);

    // Lifetime counters still remember it.
    assert_eq!(m.total_ticks(), 4);
    assert_eq!(m.overrun_ticks(), 1);
}

#[test]
fn a_single_spike_shows_in_the_tail_not_the_mean() {
    // The reason percentiles are tracked at all: 99 fast ticks and one
    // terrible one look healthy on average.
    let mut m = metrics();
    for _ in 0..99 {
        m.record(Duration::from_millis(1));
    }
    m.record(Duration::from_millis(500));

    assert!(mean_mspt(&m) < 10.0, "mean was {}", mean_mspt(&m));
    assert!(is_healthy(&m), "the mean hides the spike");
    assert_eq!(max_mspt(&m), 500.0, "but the max does not");
    assert_eq!(m.overrun_ticks(), 1);
}

#[test]
fn percentiles_use_nearest_rank() {
    let mut m = metrics();
    for i in 1..=100u64 {
        m.record(Duration::from_millis(i));
    }
    assert!((percentile_mspt(&m, 0.5) - 50.0).abs() < 0.001);
    assert!((percentile_mspt(&m, 0.95) - 95.0).abs() < 0.001);
    assert!((percentile_mspt(&m, 1.0) - 100.0).abs() < 0.001);
    // The lowest sample, not a panic.
    assert!((percentile_mspt(&m, 0.0) - 1.0).abs() < 0.001);
}

#[test]
fn percentiles_are_clamped_to_a_valid_range() {
    let mut m = metrics();
    m.record(Duration::from_millis(5));
    assert_eq!(percentile_mspt(&m, -1.0), 5.0);
    assert_eq!(percentile_mspt(&m, 2.0), 5.0);
}

#[test]
fn empty_metrics_do_not_divide_by_zero() {
    let m = metrics();
    assert_eq!(percentile_mspt(&m, 0.5), 0.0);
    assert_eq!(max_mspt(&m), 0.0);
    assert_eq!(m.samples(), 0);
}

#[test]
fn summary_mentions_the_headline_numbers() {
    let mut m = metrics();
    m.record(Duration::from_millis(25));
    let summary = m.summary("20.00", "25.00", "25.00", "25.00");
    assert!(summary.contains("TPS"), "{summary}");
    assert!(summary.contains("MSPT"), "{summary}");
    assert_eq!(
        summary,
        "TPS 20.00 | MSPT mean 25.00 p95 25.00 max 25.00 | 0 overruns of 1 ticks"
    );
}

#[test]
fn health_is_what_the_mean_and_the_target_say() {
    let mut m = TickMetrics::new(target(), 3);
    assert!(m.is_healthy(number(51.0), number(50.0)), "nothing was recorded");
    m.record(target());
    assert!(is_healthy(&m));
    assert!(m.is_healthy(number(50.0), number(50.0)));
    assert!(!m.is_healthy(number(50.000_000_000_000_01), number(50.0)));
    assert!(m.is_healthy(number(49.999_999_999_999_99), number(50.0)));
    assert!(!m.is_healthy(number(f64::NAN), number(50.0)));
}

#[test]
fn three_ticks_on_target_add_up_to_a_little_more() {
    let mut m = metrics();
    m.record(target());
    m.record(target());
    assert!(is_healthy(&m));
    m.record(target());
    assert_eq!(mean_mspt(&m), 50.000_000_000_000_01);
    assert!(!is_healthy(&m));
}

#[test]
fn numbers_compare_as_they_do_in_hardware() {
    let values = [
        0.0,
        -0.0,
        1.0,
        -1.0,
        50.0,
        50.000_000_000_000_01,
        f64::MIN_POSITIVE,
        -f64::MIN_POSITIVE,
        f64::from_bits(1),
        -f64::from_bits(1),
        f64::MAX,
        f64::MIN,
        f64::INFINITY,
        f64::NEG_INFINITY,
        f64::NAN,
        -f64::NAN,
        f64::from_bits(0x7FF0_0000_0000_0001),
    ];
    for a in values {
        for b in values {
            assert_eq!(number(a).at_most(number(b)), a <= b, "{a} and {b}");
        }
    }
}

#[test]
fn ranks_outside_the_window_are_moved_to_its_ends() {
    let mut m = metrics();
    assert!(m.sample_at_rank(1).is_none());
    for millis in [30, 10, 20, 10] {
        m.record(Duration::from_millis(millis));
    }
    assert_eq!(m.sample_at_rank(0), Some(Duration::from_millis(10)));
    assert_eq!(m.sample_at_rank(2), Some(Duration::from_millis(10)));
    assert_eq!(m.sample_at_rank(3), Some(Duration::from_millis(20)));
    assert_eq!(m.sample_at_rank(usize::MAX), Some(Duration::from_millis(30)));
}

#[test]
fn the_window_is_kept_in_order() {
    let mut m = TickMetrics::new(target(), 2);
    for millis in [1, 2, 3] {
        m.record(Duration::from_millis(millis));
    }
    assert_eq!(
        m.window(),
        vec![Duration::from_millis(2), Duration::from_millis(3)]
    );
}

#[test]
fn a_tick_on_target_is_no_overrun() {
    let mut m = metrics();
    m.record(target());
    assert_eq!(m.overrun_ticks(), 0);
    m.record(Duration {
        nanos: target().as_nanos() + 1,
    });
    assert_eq!(m.overrun_ticks(), 1);
}
