use std::collections::VecDeque;

use multiping::console::{
    Export, MultiPingApp, MAX_INTERVAL_MS, MAX_SLA_LOSS, MAX_SLA_RTT, MIN_INTERVAL_MS, MIN_SLA_RTT,
};
use multiping::host::Status;
use multiping::log::LogEntry;
use multiping::monitor::Monitor;

fn setup() -> (MultiPingApp, Monitor, VecDeque<LogEntry>) {
    (MultiPingApp::new(), Monitor::new(), VecDeque::new())
}

#[test]
fn defaults() {
    let app = MultiPingApp::new();
    assert_eq!(app.interval_ms, 1_000);
    assert_eq!((app.sla_rtt, app.sla_loss), (50_000_000, 1_000_000));
    assert!(app.log_autoscroll && app.show_log);
    assert!(app.host_input.is_empty() && app.sweep_input.is_empty() && app.log_filter.is_empty());
    assert!(app.network_location.is_empty() && app.report_comment.is_empty());
    assert_eq!(
        app.status_bar,
        "Ready — enter a hostname or IP address above to start monitoring."
    );
}

#[test]
fn adding_a_typed_host() {
    let (mut app, mut m, mut logs) = setup();
    app.host_input = "  alpha \t".to_string();
    app.interval_ms = 300;
    assert_eq!(app.add_host(&mut m, &mut logs), Some(1));
    assert_eq!(app.host_input, "");
    assert_eq!(app.status_bar, "Added host #1.");
    assert_eq!((m.hosts[0].name.as_str(), m.hosts[0].interval_ms), ("alpha", 300));
    assert_eq!(logs[0].msg, "Host added  interval=300ms");
}

#[test]
fn adding_a_host_again() {
    let (mut app, mut m, mut logs) = setup();
    app.add_host_named(&mut m, &mut logs, "alpha".to_string());
    assert_eq!(app.add_host_named(&mut m, &mut logs, "alpha".to_string()), None);
    assert_eq!(app.status_bar, "'alpha' is already being monitored.");
    assert_eq!((m.hosts.len(), logs.len()), (1, 1));
}

#[test]
fn adding_nothing_says_nothing() {
    let (mut app, mut m, mut logs) = setup();
    app.host_input = "   ".to_string();
    let before = app.status_bar.clone();
    assert_eq!(app.add_host(&mut m, &mut logs), None);
    assert_eq!(app.status_bar, before);
    assert_eq!(app.host_input, "");
    assert!(m.hosts.is_empty() && logs.is_empty());
}

#[test]
fn sweeping_a_block() {
    let (mut app, mut m, mut logs) = setup();
    app.add_host_named(&mut m, &mut logs, "10.0.0.2".to_string());
    app.sweep_input = "10.0.0.0/29".to_string();
    assert_eq!(app.sweep(&mut m, &mut logs), vec![2, 3, 4, 5, 6]);
    assert_eq!(app.status_bar, "Sweep: queued 6 targets.");
    let names: Vec<&str> = m.hosts.iter().map(|h| h.name.as_str()).collect();
    assert_eq!(
        names,
        ["10.0.0.2", "10.0.0.1", "10.0.0.3", "10.0.0.4", "10.0.0.5", "10.0.0.6"]
    );
    assert_eq!(logs.len(), 6);
    assert_eq!(app.sweep_input, "10.0.0.0/29");
}

#[test]
fn sweeping_a_list_with_repeats() {
    let (mut app, mut m, mut logs) = setup();
    app.sweep_input = "a,b,a".to_string();
    assert_eq!(app.sweep(&mut m, &mut logs), vec![1, 2]);
    assert_eq!(app.status_bar, "Sweep: queued 3 targets.");
}

#[test]
fn sweeping_nothing() {
    let (mut app, mut m, mut logs) = setup();
    app.sweep_input = "10.0.0.0/99".to_string();
    assert_eq!(app.sweep(&mut m, &mut logs), Vec::<usize>::new());
    assert_eq!(app.status_bar, "No valid targets parsed from sweep input.");
    assert!(m.hosts.is_empty());
}

#[test]
fn resetting_and_removing() {
    let (mut app, mut m, mut logs) = setup();
    for name in ["a", "b", "c"] {
        app.add_host_named(&mut m, &mut logs, name.to_string());
    }
    m.hosts[0].record(5, Some(7));
    app.reset_all(&mut m, 9);
    assert_eq!(app.status_bar, "All statistics reset. t=0 restarted for all hosts.");
    assert_eq!((m.hosts[0].sent, m.hosts[0].time_origin), (0, 9));
    m.hosts[0].status = Status::Online;
    app.remove_offline(&mut m);
    assert_eq!(app.status_bar, "Removed 2 offline host(s).");
    assert!(!m.hosts[0].removed && m.hosts[1].removed && m.hosts[2].removed);
    app.remove_all(&mut m);
    assert_eq!(app.status_bar, "All hosts removed.");
    assert!(m.hosts.iter().all(|h| h.removed));
}

#[test]
fn what_came_of_an_export() {
    let mut app = MultiPingApp::new();
    let mut says = |kind: Export, failure: Option<&str>| {
        app.report_export(kind, "f.x", failure);
        app.status_bar.clone()
    };
    assert_eq!(says(Export::Log, None), "✓ Log saved → f.x");
    assert_eq!(says(Export::Stats, None), "✓ Stats saved → f.x");
    assert_eq!(says(Export::Report, None), "✓ Report saved → f.x");
    assert_eq!(says(Export::Log, Some("full")), "✕ Export failed: full");
    assert_eq!(says(Export::Stats, Some("full")), "✕ Export failed: full");
    assert_eq!(says(Export::Report, Some("full")), "✕ Report failed: full");
}

#[test]
fn limits_of_the_controls() {
    assert_eq!((MIN_INTERVAL_MS, MAX_INTERVAL_MS), (200, 60_000));
    assert_eq!((MIN_SLA_RTT, MAX_SLA_RTT, MAX_SLA_LOSS), (1_000_000, 10_000_000_000, 100_000_000));
}
