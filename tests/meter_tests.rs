use rust_portforward::endpoint::{Endpoint, IpAddress};
use rust_portforward::meter::{
    bytes_per_second, drain_step, shutdown_step, window_rate, Aggregator, Direction, Message,
    MeterStep, Poll, Rate, Sample, ShutdownError,
};

fn endpoint(port: u16) -> Endpoint {
    Endpoint::new(IpAddress::V4(0x7f00_0001), port)
}

fn message(port: u16, direction: Direction, instant_us: u64, n_bytes: usize) -> Message {
    Message { src_sockaddr: endpoint(port), direction, instant_us, n_bytes }
}

#[test]
fn rate_of_two_samples_half_a_second_apart() {
    let samples = vec![
        Sample { instant_us: 0, n_bytes: 100 },
        Sample { instant_us: 500_000, n_bytes: 100 },
    ];
    let rate = window_rate(&samples).unwrap();
    assert_eq!(rate, Rate { total_bytes: 200, elapsed_us: 500_000, bytes_per_sec: 400 });
}

#[test]
fn window_with_one_sample_has_no_rate() {
    assert_eq!(window_rate(&vec![Sample { instant_us: 7, n_bytes: 100 }]), None);
    assert_eq!(window_rate(&vec![]), None);
}

#[test]
fn window_without_elapsed_time_has_no_rate() {
    let samples = vec![Sample { instant_us: 5, n_bytes: 1 }, Sample { instant_us: 5, n_bytes: 2 }];
    assert_eq!(window_rate(&samples), None);
}

#[test]
fn rate_uses_earliest_and_latest_times() {
    let samples = vec![
        Sample { instant_us: 300, n_bytes: 10 },
        Sample { instant_us: 100, n_bytes: 20 },
        Sample { instant_us: 200, n_bytes: 30 },
    ];
    let rate = window_rate(&samples).unwrap();
    assert_eq!(rate.total_bytes, 60);
    assert_eq!(rate.elapsed_us, 200);
    assert_eq!(rate.bytes_per_sec, 300_000);
}

#[test]
fn bytes_per_second_rounds_down() {
    assert_eq!(bytes_per_second(1, 3), 333_333);
    assert_eq!(bytes_per_second(200, 500_000), 400);
    assert_eq!(bytes_per_second(0, 9), 0);
}

#[test]
fn bytes_per_second_saturates() {
    assert_eq!(bytes_per_second(u128::MAX, 1), u128::MAX);
    assert_eq!(bytes_per_second(u128::MAX / 1_000_000, 1), (u128::MAX / 1_000_000) * 1_000_000);
}

#[test]
fn cycle_reports_and_keeps_latest_sample() {
    let mut agg = Aggregator::new();
    agg.record(&message(1000, Direction::From, 0, 100));
    agg.record(&message(1000, Direction::From, 500_000, 100));
    agg.record(&message(1000, Direction::To, 0, 0));
    assert_eq!(agg.len(), 2);
    let reports = agg.cycle();
    assert_eq!(reports.len(), 1);
    assert_eq!(reports[0].endpoint, endpoint(1000));
    assert_eq!(reports[0].direction, Direction::From);
    assert_eq!(reports[0].rate.bytes_per_sec, 400);
    // Only the most recent sample is left: alone, it gives no rate.
    assert_eq!(agg.cycle().len(), 0);
    // It seeds the next window.
    agg.record(&message(1000, Direction::From, 1_500_000, 300));
    let reports = agg.cycle();
    assert_eq!(reports.len(), 1);
    assert_eq!(reports[0].rate.total_bytes, 400);
    assert_eq!(reports[0].rate.elapsed_us, 1_000_000);
    assert_eq!(reports[0].rate.bytes_per_sec, 400);
}

#[test]
fn windows_are_kept_apart_by_endpoint_and_direction() {
    let mut agg = Aggregator::new();
    agg.record(&message(1, Direction::From, 0, 10));
    agg.record(&message(2, Direction::From, 0, 10));
    agg.record(&message(1, Direction::To, 0, 10));
    agg.record(&message(1, Direction::From, 1_000_000, 10));
    assert_eq!(agg.len(), 3);
    let reports = agg.cycle();
    assert_eq!(reports.len(), 1);
    assert_eq!(reports[0].endpoint, endpoint(1));
    assert_eq!(reports[0].rate.bytes_per_sec, 20);
}

#[test]
fn meter_loop_decisions() {
    assert_eq!(drain_step(Poll::Received), MeterStep::Continue);
    assert_eq!(drain_step(Poll::Empty), MeterStep::Stop);
    assert_eq!(drain_step(Poll::Disconnected), MeterStep::Fatal);
    assert_eq!(shutdown_step(Poll::Received), MeterStep::Stop);
    assert_eq!(shutdown_step(Poll::Empty), MeterStep::Continue);
    assert_eq!(shutdown_step(Poll::Disconnected), MeterStep::Fatal);
}

#[test]
fn shutdown_errors_are_distinct() {
    assert_ne!(ShutdownError::SendCommandError, ShutdownError::JoinError);
}
