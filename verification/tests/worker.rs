use std::collections::VecDeque;

use multiping::host::{Address, Status, MAX_SENT};
use multiping::log::{LogEntry, LogLevel};
use multiping::monitor::{Edit, Monitor};
use multiping::worker::{mark_error, Answer, Lookup, Socket, Step, Worker, PING_TIMEOUT_MS};

const MS: u64 = 1_000_000;

fn setup() -> (Monitor, VecDeque<LogEntry>, Worker) {
    let mut m = Monitor::new();
    let mut logs = VecDeque::new();
    m.add_host_named(&mut logs, "other".to_string(), 1_000);
    m.add_host_named(&mut logs, "alpha".to_string(), 1_000);
    logs.clear();
    (m, logs, Worker::new(2, "alpha".to_string()))
}

fn resolved() -> (Monitor, VecDeque<LogEntry>, Worker) {
    let (mut m, mut logs, mut w) = setup();
    let found = Lookup::Found(Address { text: "10.0.0.9".to_string(), v6: false });
    w.resolved(&mut m, &mut logs, found);
    logs.clear();
    (m, logs, w)
}

fn last(logs: &VecDeque<LogEntry>) -> (&str, &str, LogLevel) {
    let e = &logs[logs.len() - 1];
    (e.host.as_str(), e.msg.as_str(), e.level)
}

#[test]
fn begins_by_resolving() {
    let (mut m, _, w) = setup();
    assert_eq!(w.begin(&mut m), "alpha:0");
    assert_eq!(m.hosts[1].status, Status::Resolving);
    assert_eq!(m.hosts[0].status, Status::Idle);
}

#[test]
fn resolved_addresses_are_noted() {
    let (mut m, mut logs, mut w) = setup();
    let found = Lookup::Found(Address { text: "10.0.0.9".to_string(), v6: false });
    assert_eq!(w.resolved(&mut m, &mut logs, found), Some(Socket { v6: false, ident: 2 }));
    assert_eq!(m.hosts[1].ip, Some(Address { text: "10.0.0.9".to_string(), v6: false }));
    assert_eq!(m.hosts[0].ip, None);
    assert_eq!(last(&logs), ("alpha", "Resolved → 10.0.0.9", LogLevel::Info));
    assert_eq!(w.address, "10.0.0.9");
}

#[test]
fn version_6_and_large_numbers() {
    let (mut m, mut logs, _) = setup();
    let mut w = Worker::new(0x1_0005, "v6".to_string());
    let found = Lookup::Found(Address { text: "fe80::1".to_string(), v6: true });
    assert_eq!(w.resolved(&mut m, &mut logs, found), Some(Socket { v6: true, ident: 5 }));
}

#[test]
fn failed_lookups_end_the_worker() {
    let (mut m, mut logs, mut w) = setup();
    assert_eq!(w.resolved(&mut m, &mut logs, Lookup::Nothing), None);
    assert_eq!(m.hosts[1].status, Status::Error("DNS error: no addresses returned".to_string()));
    assert_eq!(last(&logs), ("alpha", "DNS error: no addresses returned", LogLevel::Bad));
    assert_eq!(w.resolved(&mut m, &mut logs, Lookup::Failed("nope".to_string())), None);
    assert_eq!(m.hosts[1].status, Status::Error("DNS error: nope".to_string()));
    assert_eq!(last(&logs), ("alpha", "DNS error: nope", LogLevel::Bad));
}

#[test]
fn failed_sockets_end_the_worker() {
    let (mut m, mut logs, w) = resolved();
    assert!(w.opened(&mut m, &mut logs, None));
    assert!(logs.is_empty());
    assert!(!w.opened(&mut m, &mut logs, Some("denied".to_string())));
    let msg = "Socket error: denied  →  Run as Administrator";
    assert_eq!(m.hosts[1].status, Status::Error(msg.to_string()));
    assert_eq!(last(&logs), ("alpha", msg, LogLevel::Bad));
}

#[test]
fn running_hosts_are_pinged() {
    let (mut m, _, mut w) = resolved();
    m.edit(2, Edit::Interval(250));
    assert_eq!(w.poll(&m), Step::Ping(0));
    assert_eq!(w.interval_ms, 250);
}

#[test]
fn paused_hosts_rest() {
    let (mut m, _, mut w) = resolved();
    m.set_all_paused(true);
    assert_eq!(w.poll(&m), Step::Sleep(100_000_000));
}

#[test]
fn workers_of_removed_hosts_stop() {
    let (mut m, _, mut w) = resolved();
    m.edit(2, Edit::TogglePause);
    m.edit(2, Edit::Remove);
    assert_eq!(w.poll(&m), Step::Stop);
    m.collect_removed();
    assert_eq!(w.poll(&m), Step::Stop);
}

#[test]
fn replies_are_recorded() {
    let (mut m, mut logs, mut w) = resolved();
    w.poll(&m);
    let step = w.answered(&mut m, &mut logs, 5_000 * MS, 12 * MS as u128, Answer::Reply(12_345_678));
    assert_eq!(step, Step::Sleep(988_000_000));
    assert_eq!(m.hosts[1].status, Status::Online);
    assert_eq!((m.hosts[1].sent, m.hosts[1].last_rtt), (1, Some(12_345_678)));
    assert_eq!(m.hosts[1].history[0].at, 5_000_000_000);
    assert_eq!(last(&logs), ("alpha", "Reply from 10.0.0.9  seq=0  rtt=12.35 ms", LogLevel::Good));
    assert_eq!(w.seq, 1);
    assert_eq!(m.hosts[0].sent, 0);
}

#[test]
fn timeouts_are_recorded() {
    let (mut m, mut logs, mut w) = resolved();
    w.poll(&m);
    let step = w.answered(&mut m, &mut logs, MS, 3_000 * MS as u128, Answer::Timeout);
    assert_eq!(step, Step::Sleep(0));
    assert_eq!(m.hosts[1].status, Status::Timeout);
    assert_eq!((m.hosts[1].sent, m.hosts[1].lost()), (1, 1));
    assert_eq!(last(&logs), ("alpha", "Request timeout  seq=0", LogLevel::Warn));
}

#[test]
fn failures_are_recorded() {
    let (mut m, mut logs, mut w) = resolved();
    w.poll(&m);
    let step = w.answered(&mut m, &mut logs, MS, 0, Answer::Failed("broken".to_string()));
    assert_eq!(step, Step::Sleep(1_000_000_000));
    assert_eq!(m.hosts[1].status, Status::Error("broken".to_string()));
    assert_eq!(m.hosts[1].lost(), 1);
    assert_eq!(last(&logs), ("alpha", "Error: broken", LogLevel::Bad));
}

#[test]
fn answers_for_a_dropped_host_end_the_worker() {
    let (mut m, mut logs, mut w) = resolved();
    w.poll(&m);
    m.edit(2, Edit::Remove);
    m.collect_removed();
    assert_eq!(w.answered(&mut m, &mut logs, MS, 0, Answer::Timeout), Step::Stop);
    assert!(logs.is_empty());
    assert_eq!(w.seq, 0);
}

#[test]
fn answers_for_a_removed_host_still_count() {
    let (mut m, mut logs, mut w) = resolved();
    w.poll(&m);
    m.edit(2, Edit::Remove);
    assert_eq!(w.answered(&mut m, &mut logs, MS, 0, Answer::Timeout), Step::Sleep(1_000_000_000));
    assert_eq!(m.hosts[1].sent, 1);
    assert_eq!(w.poll(&m), Step::Stop);
}

#[test]
fn sequence_numbers_wrap() {
    let (mut m, mut logs, mut w) = resolved();
    w.seq = u16::MAX;
    assert_eq!(w.poll(&m), Step::Ping(u16::MAX));
    w.answered(&mut m, &mut logs, MS, 0, Answer::Timeout);
    assert_eq!(last(&logs).1, "Request timeout  seq=65535");
    assert_eq!(w.seq, 0);
}

#[test]
fn the_interval_of_the_ping_counts() {
    let (mut m, mut logs, mut w) = resolved();
    w.poll(&m);
    m.edit(2, Edit::Interval(60_000));
    let step = w.answered(&mut m, &mut logs, MS, 1, Answer::Timeout);
    assert_eq!(step, Step::Sleep(999_999_999));
    w.poll(&m);
    assert_eq!(w.interval_ms, 60_000);
}

#[test]
fn counting_has_room() {
    let (mut m, _, _) = resolved();
    assert!(m.has_room(2));
    assert!(m.has_room(99));
    m.hosts[1].sent = MAX_SENT;
    assert!(!m.has_room(2));
}

#[test]
fn errors_of_unknown_hosts_are_only_logged() {
    let (mut m, mut logs, _) = setup();
    mark_error(&mut m, &mut logs, 99, "ghost", "lost");
    assert!(m.hosts.iter().all(|h| h.status == Status::Idle));
    assert_eq!(last(&logs), ("ghost", "lost", LogLevel::Bad));
}

#[test]
fn ping_timeout() {
    assert_eq!(PING_TIMEOUT_MS, 3_000);
}
