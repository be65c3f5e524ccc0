use multiping::host::{Address, Host, Sla, Status};
use multiping::number::{Fraction, Number};
use multiping::palette::Color;
use multiping::stats::Sample;

const MS: u64 = 1_000_000;
const S: u64 = 1_000_000_000;

fn host() -> Host {
    Host::new(7, "alpha".to_string(), 1_000, 3)
}

fn pinged(rtts: &[Option<u64>]) -> Host {
    let mut h = host();
    for (i, rtt) in rtts.iter().enumerate() {
        h.record((i as u64 + 1) * S, *rtt);
    }
    h
}

fn fraction(num: u128, den: u128) -> Fraction {
    Fraction { num, den }
}

#[test]
fn new_host_has_no_data() {
    let h = host();
    assert_eq!(h.id, 7);
    assert_eq!(h.name, "alpha");
    assert_eq!(h.ip, None);
    assert_eq!(h.status, Status::Idle);
    assert_eq!(h.interval_ms, 1_000);
    assert!(!h.paused && !h.removed && h.visible);
    assert_eq!((h.time_origin, h.color_idx), (0, 3));
    assert_eq!((h.sent, h.received), (0, 0));
    assert_eq!(h.avg_rtt(), None);
    assert_eq!(h.avg_jitter(), None);
    assert_eq!(h.loss_pct(), Number { offset: 0, gain: 100, num: 0, den: 1 });
    assert_eq!(h.rtt_samples_sorted(), Vec::<u64>::new());
    assert_eq!(h.sla_result(50 * MS, 1_000_000), ("  —  ", Color::Dim));
}

#[test]
fn answers_are_counted() {
    let h = pinged(&[Some(10 * MS), None, Some(14 * MS), Some(11 * MS)]);
    assert_eq!((h.sent, h.received, h.lost()), (4, 3, 1));
    assert_eq!(h.min_rtt, Some(10 * MS));
    assert_eq!(h.max_rtt, 14 * MS);
    assert_eq!(h.last_rtt, Some(11 * MS));
    assert_eq!(h.avg_rtt(), Some(fraction(35 * MS as u128, 3)));
    assert_eq!(h.avg_jitter(), Some(fraction(7 * MS as u128, 2)));
    assert_eq!(h.loss_pct(), Number { offset: 0, gain: 100, num: 1, den: 4 });
    assert_eq!(h.rtt_samples_sorted(), vec![10 * MS, 11 * MS, 14 * MS]);
    assert_eq!(
        h.history,
        vec![
            Sample { at: 1_000_000_000, rtt: Some(10 * MS) },
            Sample { at: 2_000_000_000, rtt: None },
            Sample { at: 3_000_000_000, rtt: Some(14 * MS) },
            Sample { at: 4_000_000_000, rtt: Some(11 * MS) },
        ]
    );
}

#[test]
fn jitter_needs_two_answers_and_skips_losses() {
    assert_eq!(pinged(&[Some(5)]).avg_jitter(), None);
    assert_eq!(pinged(&[Some(5), None, None]).avg_jitter(), None);
    assert_eq!(pinged(&[Some(5), None, Some(9)]).avg_jitter(), Some(fraction(4, 1)));
    assert_eq!(pinged(&[Some(9), Some(5), Some(5)]).avg_jitter(), Some(fraction(4, 2)));
}

#[test]
fn a_loss_keeps_the_round_trip_statistics() {
    let mut h = pinged(&[Some(30 * MS), Some(20 * MS)]);
    let before = (h.min_rtt, h.max_rtt, h.avg_rtt(), h.avg_jitter(), h.received);
    h.record(9 * S, None);
    assert_eq!((h.min_rtt, h.max_rtt, h.avg_rtt(), h.avg_jitter(), h.received), before);
    assert_eq!(h.last_rtt, None);
    assert_eq!(h.lost(), 1);
}

#[test]
fn a_zero_round_trip_is_an_answer() {
    let h = pinged(&[Some(0), Some(0)]);
    assert_eq!((h.min_rtt, h.max_rtt, h.received), (Some(0), 0, 2));
    assert_eq!(h.avg_jitter(), Some(fraction(0, 1)));
}

#[test]
fn reset_forgets_and_anchors_time() {
    let mut h = pinged(&[Some(10 * MS), None]);
    h.status = Status::Online;
    h.ip = Some(Address { text: "10.0.0.1".to_string(), v6: false });
    h.reset_at(100 * S);
    assert_eq!((h.sent, h.received, h.last_rtt, h.min_rtt, h.max_rtt), (0, 0, None, None, 0));
    assert_eq!(h.history, Vec::<Sample>::new());
    assert_eq!(h.status, Status::Online);
    assert!(h.ip.is_some());
    h.record(103 * S, Some(MS));
    assert_eq!(h.history, vec![Sample { at: 3_000_000_000, rtt: Some(MS) }]);
    assert_eq!(h.avg_jitter(), None);
    h.reset();
    assert_eq!(h.time_origin, 100 * S);
    assert_eq!(h.history, Vec::<Sample>::new());
}

#[test]
fn a_ping_can_end_before_the_reset_that_overtook_it() {
    let mut h = host();
    h.reset_at(10 * S);
    h.record(9 * S, Some(MS));
    assert_eq!(h.history[0].at, -1_000_000_000);
}

#[test]
fn hidden_hosts_collect() {
    let mut h = host();
    h.visible = false;
    h.record(S, Some(4 * MS));
    assert_eq!((h.sent, h.received), (1, 1));
}

#[test]
fn percentiles_interpolate() {
    let sorted = [10u64, 20, 30, 40];
    assert_eq!(Host::percentile(&sorted, 0, 4), Some(fraction(40, 4)));
    assert_eq!(Host::percentile(&sorted, 1, 4), Some(fraction(70, 4)));
    assert_eq!(Host::percentile(&sorted, 2, 4), Some(fraction(100, 4)));
    assert_eq!(Host::percentile(&sorted, 3, 4), Some(fraction(130, 4)));
    assert_eq!(Host::percentile(&sorted, 4, 4), Some(fraction(160, 4)));
    assert_eq!(Host::percentile(&sorted, 95, 100), Some(fraction(3_850, 100)));
    assert_eq!(Host::percentile(&[42], 3, 4), Some(fraction(168, 4)));
    assert_eq!(Host::percentile(&[], 1, 4), None);
    assert_eq!(
        Host::percentile(&[u64::MAX, u64::MAX], u64::MAX - 1, u64::MAX),
        Some(fraction(u64::MAX as u128 * u64::MAX as u128, u64::MAX as u128))
    );
}

#[test]
fn percentiles_stay_between_the_extremes_and_in_order() {
    let h = pinged(&[Some(9), Some(2), None, Some(7), Some(7), Some(30)]);
    let sorted = h.rtt_samples_sorted();
    let mut last = 0u128;
    for k in 0..=100 {
        let p = Host::percentile(&sorted, k, 100).unwrap();
        assert!(p.num >= last);
        assert!(2 * 100 <= p.num && p.num <= 30 * 100);
        last = p.num;
    }
}

#[test]
fn percentiles_of_different_wholes_stay_in_order() {
    let sorted = [2u64, 7, 7, 9, 30];
    for (a, b) in [((1, 3), (1, 2)), ((1, 2), (3, 5)), ((2, 4), (1, 2)), ((0, 7), (1, 9))] {
        let p = Host::percentile(&sorted, a.0, a.1).unwrap();
        let q = Host::percentile(&sorted, b.0, b.1).unwrap();
        assert!(p.num * q.den <= q.num * p.den, "{a:?} {b:?}");
    }
}

#[test]
fn mean_lies_between_the_extremes() {
    let h = pinged(&[Some(9), Some(2), Some(7)]);
    let mean = h.avg_rtt().unwrap();
    assert!(h.min_rtt.unwrap() as u128 * mean.den <= mean.num);
    assert!(mean.num <= h.max_rtt as u128 * mean.den);
}

#[test]
fn verdicts_of_the_service_level() {
    let h = pinged(&[Some(50 * MS), Some(50 * MS), Some(50 * MS), None]);
    // 50 ms on the average and 25 % loss, both on the threshold.
    assert_eq!(h.sla(50 * MS, 25_000_000), Sla::Pass);
    assert_eq!(h.sla(50 * MS - 1, 25_000_000), Sla::Warn);
    assert_eq!(h.sla(50 * MS, 24_999_999), Sla::Warn);
    assert_eq!(h.sla(50 * MS - 1, 24_999_999), Sla::Fail);
    assert_eq!(h.sla_result(50 * MS, 25_000_000), (" PASS ", Color::Good));
    assert_eq!(h.sla_result(49 * MS, 25_000_000), (" WARN ", Color::Warn));
    assert_eq!(h.sla_result(49 * MS, 1_000_000), (" FAIL ", Color::Bad));
    assert_eq!(pinged(&[None, None]).sla(MS, 0), Sla::NoData);
    assert_eq!(h.sla(u64::MAX, u64::MAX), Sla::Pass);
}

#[test]
fn verdict_texts() {
    let all = [Sla::NoData, Sla::Pass, Sla::Warn, Sla::Fail];
    let words: Vec<&str> = all.iter().map(|v| v.word_text()).collect();
    let classes: Vec<&str> = all.iter().map(|v| v.class_text()).collect();
    assert_eq!(words, ["—", "PASS", "WARN", "FAIL"]);
    assert_eq!(classes, ["warn", "pass", "warn", "fail"]);
}

#[test]
fn status_labels() {
    assert_eq!(Status::Idle.label(), "idle");
    assert_eq!(Status::Resolving.label(), "resolving…");
    assert_eq!(Status::Online.label(), "online");
    assert_eq!(Status::Timeout.label(), "timeout");
    assert_eq!(Status::Error("x".to_string()).label(), "error");
    assert!(Status::Online.is_online());
    assert!(!Status::Timeout.is_online());
}

#[test]
fn status_colors() {
    assert_eq!(Status::Online.color(0), Color::Good);
    assert_eq!(Status::Online.color(1), Color::Warn);
    assert_eq!(Status::Online.color(u64::MAX), Color::Warn);
    assert_eq!(Status::Timeout.color(0), Color::Bad);
    assert_eq!(Status::Error(String::new()).color(0), Color::Bad);
    assert_eq!(Status::Resolving.color(0), Color::Info);
    assert_eq!(Status::Idle.color(9), Color::Dim);
    let mut h = pinged(&[Some(1), None]);
    h.status = Status::Online;
    assert_eq!(h.status_color(), Color::Warn);
}
