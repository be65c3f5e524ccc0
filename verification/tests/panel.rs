use std::collections::VecDeque;

use multiping::console::MultiPingApp;
use multiping::doc::write_number;
use multiping::host::{Address, Host, Status};
use multiping::log::{push_entry, LogLevel};
use multiping::monitor::{Edit, Monitor, Summary};
use multiping::palette::{host_color, Color};
use multiping::panel::{
    axis_limits, chart_series, draw_latency_row, latency_panel, log_counts, log_rows,
    pause_all_texts, strip_text, summary_labels, Clicks, REPAINT_INTERVAL_MS,
};

const MS: u64 = 1_000_000;
const S: u64 = 1_000_000_000;

fn monitored(names: &[&str]) -> Monitor {
    let mut m = Monitor::new();
    let mut logs = VecDeque::new();
    for name in names {
        m.add_host_named(&mut logs, name.to_string(), 1_000);
    }
    m
}

fn summary(total: usize, online: usize, timeout: usize, err: usize) -> Vec<(String, Color)> {
    summary_labels(&Summary { total, online, timeout, err })
        .into_iter()
        .map(|l| (l.text, l.color))
        .collect()
}

#[test]
fn live_summary() {
    assert_eq!(summary(0, 0, 0, 0), vec![]);
    assert_eq!(summary(3, 3, 0, 0), vec![("● 3/3 online".to_string(), Color::Good)]);
    assert_eq!(
        summary(6, 2, 3, 1),
        vec![
            ("✕ 1 err".to_string(), Color::Bad),
            ("⚠ 3 timeout".to_string(), Color::Warn),
            ("● 2/6 online".to_string(), Color::Warn),
        ]
    );
}

#[test]
fn buttons_for_all_hosts() {
    assert_eq!(pause_all_texts(true), ("⏸  Pause All", "⏸", "Pause All"));
    assert_eq!(pause_all_texts(false), ("▶  Resume All", "▶", "Resume All"));
}

#[test]
fn lines_of_the_log_panel() {
    let mut logs = VecDeque::new();
    push_entry(&mut logs, "t1".to_string(), "alpha", "Hello".to_string(), LogLevel::Info);
    push_entry(&mut logs, "t2".to_string(), "beta", "Bye".to_string(), LogLevel::Bad);
    let all = log_rows(&logs, "");
    assert_eq!(all.len(), 2);
    let rows = log_rows(&logs, "BETA");
    assert_eq!(rows.len(), 1);
    let r = &rows[0];
    assert_eq!((r.time.as_str(), r.tag, r.color, r.msg.as_str()), ("t2", "ERR ", Color::Bad, "Bye"));
    assert_eq!(r.host, format!("{:22}", "beta"));
}

#[test]
fn counts_of_the_log_panel() {
    assert_eq!(log_counts(0), ("0 entries".to_string(), "0 log entries".to_string()));
    assert_eq!(log_counts(5_000), ("5000 entries".to_string(), "5000 log entries".to_string()));
}

#[test]
fn strip_above_the_chart() {
    let mut h = Host::new(1, "alpha".to_string(), 1_000, 0);
    assert_eq!(strip_text(&h), "alpha  —");
    h.record(S, Some(12_360_000));
    assert_eq!(strip_text(&h), "alpha  12.4 ms");
    h.record(2 * S, None);
    assert_eq!(strip_text(&h), "alpha  —");
}

#[test]
fn axes_of_the_chart() {
    let (x, y) = axis_limits(&Vec::new());
    assert_eq!((write_number(&x, 1), write_number(&y, 1)), ("10.0".to_string(), "12.0".to_string()));
    let mut h = Host::new(1, "alpha".to_string(), 1_000, 0);
    h.record(25 * S, Some(40 * MS));
    let (x, y) = axis_limits(&vec![&h]);
    assert_eq!((write_number(&x, 1), write_number(&y, 1)), ("25.0".to_string(), "48.0".to_string()));
}

#[test]
fn visible_hosts_are_drawn() {
    let mut m = monitored(&["a", "b", "c"]);
    m.hosts[0].record(S, Some(MS));
    m.hosts[0].record(2 * S, None);
    m.edit(2, Edit::ToggleVisible);
    let all = chart_series(&m.kept_hosts());
    assert_eq!(all.len(), 2);
    assert_eq!((all[0].name.as_str(), all[0].color), ("a", host_color(0)));
    assert_eq!((all[1].name.as_str(), all[1].color), ("c", host_color(2)));
    assert_eq!(all[0].line, vec![(1_000_000_000, MS)]);
    assert_eq!(all[0].crosses, vec![2_000_000_000]);
    assert!(all[1].line.is_empty() && all[1].crosses.is_empty());
}

#[test]
fn row_of_a_host() {
    let app = MultiPingApp::new();
    let mut h = Host::new(4, "alpha".to_string(), 700, 12);
    h.ip = Some(Address { text: "10.0.0.4".to_string(), v6: false });
    h.status = Status::Online;
    h.record(S, Some(10 * MS));
    h.record(2 * S, Some(120 * MS));
    for i in 0..9 {
        h.record((3 + i) * S, Some(20 * MS));
    }
    h.record(12 * S, None);
    let r = draw_latency_row(&h, 150 * MS, &app);
    assert_eq!((r.id, r.interval_ms, r.paused, r.visible), (4, 700, false, true));
    assert_eq!(r.chart_color, host_color(2));
    assert_eq!(r.status_color, Color::Warn);
    assert_eq!((r.name.as_str(), r.name_color), ("alpha  (10.0.0.4)", Color::Text));
    assert_eq!(r.last, "last  —  ");
    assert_eq!((r.sent.as_str(), r.received.as_str()), ("sent 12", "recv 11"));
    assert_eq!(r.min, "min   10.0");
    assert_eq!(r.avg, "avg   28.2");
    assert_eq!(r.max, "max  120.0");
    assert_eq!(r.jitter, "± 21.0");
    assert_eq!((r.loss.as_str(), r.loss_color), ("loss   8.3%", Color::Warn));
    assert_eq!((r.sla, r.sla_color), (" WARN ", Color::Warn));
    assert_eq!((r.pause_sign, r.pause_hint), ("⏸", "Pause"));
    let bar = r.bar.unwrap();
    assert_eq!(write_number(&bar.min, 1), "20.0");
    assert_eq!(write_number(&bar.max, 1), "240.0");
    assert_eq!(write_number(&bar.p25, 1), "40.0");
    assert_eq!(write_number(&bar.p75, 1), "42.0");
}

#[test]
fn bars_end_with_the_scale() {
    let app = MultiPingApp::new();
    let mut h = Host::new(1, "x".to_string(), 1_000, 0);
    h.record(S, Some(10 * MS));
    h.record(2 * S, Some(90 * MS));
    let r = draw_latency_row(&h, 50 * MS, &app);
    assert_eq!(r.last, "last   90.0");
    let bar = r.bar.unwrap();
    assert_eq!(write_number(&bar.min, 1), "60.0");
    assert_eq!(write_number(&bar.median, 1), "300.0");
    assert_eq!(write_number(&bar.max, 1), "300.0");
    assert_eq!(write_number(&bar.mean, 1), "300.0");
    // A scale of nothing counts as a millisecond.
    let bar = draw_latency_row(&h, 0, &app).bar.unwrap();
    assert_eq!(write_number(&bar.min, 1), "300.0");
    assert_eq!(write_number(&bar.max, 1), "302.0");
}

#[test]
fn row_of_a_paused_host_without_answers() {
    let app = MultiPingApp::new();
    let mut h = Host::new(4, "alpha".to_string(), 700, 0);
    h.paused = true;
    let r = draw_latency_row(&h, 50 * MS, &app);
    assert_eq!((r.name.as_str(), r.name_color), ("alpha", Color::Dim));
    assert_eq!((r.min.as_str(), r.avg.as_str(), r.max.as_str()), ("min  —  ", "avg  —  ", "max  —  "));
    assert_eq!(r.jitter, "± —  ");
    assert_eq!((r.loss.as_str(), r.loss_color), ("loss   0.0%", Color::Good));
    assert_eq!((r.sla, r.sla_color), ("  —  ", Color::Dim));
    assert_eq!((r.pause_sign, r.pause_hint, r.paused), ("▶", "Resume", true));
    assert_eq!(r.bar, None);
}

#[test]
fn any_loss_is_a_warning() {
    let app = MultiPingApp::new();
    let mut h = Host::new(1, "x".to_string(), 1_000, 0);
    h.record(S, Some(MS));
    assert_eq!(draw_latency_row(&h, 50 * MS, &app).loss_color, Color::Good);
    for i in 2..20 {
        h.record(i * S, None);
        assert_eq!(draw_latency_row(&h, 50 * MS, &app).loss_color, Color::Warn);
    }
}

#[test]
fn latency_panel_sorts_and_scales() {
    let app = MultiPingApp::new();
    let mut m = monitored(&["silent", "slow", "fast", "gone"]);
    let (note, rows) = latency_panel(&m, &app);
    assert_eq!(note, "scale  0 – 50 ms");
    assert_eq!(rows.len(), 4);
    m.hosts[1].record(S, Some(80 * MS));
    m.hosts[2].record(S, Some(3 * MS));
    m.hosts[3].record(S, Some(900 * MS));
    m.edit(4, Edit::Remove);
    let (note, rows) = latency_panel(&m, &app);
    assert_eq!(note, "scale  0 – 80 ms");
    let names: Vec<&str> = rows.iter().map(|r| r.name.as_str()).collect();
    assert_eq!(names, ["fast", "slow", "silent"]);
}

#[test]
fn clicks_are_applied_in_order() {
    let mut m = monitored(&["a", "b", "c"]);
    m.hosts[2].record(S, Some(MS));
    let mut clicks = Clicks::new();
    clicks.remove.push(1);
    clicks.pause.push(2);
    clicks.visible.push(2);
    clicks.reset.push(3);
    clicks.interval.push((3, 250));
    clicks.interval.push((3, 300));
    m.apply_clicks(&clicks, 9 * S);
    assert!(m.hosts[0].removed);
    assert!(m.hosts[1].paused && !m.hosts[1].visible);
    assert_eq!((m.hosts[2].sent, m.hosts[2].time_origin, m.hosts[2].interval_ms), (0, 9 * S, 300));
    let before: Vec<usize> = m.hosts.iter().map(|h| h.id).collect();
    m.apply_clicks(&Clicks::new(), 10 * S);
    assert_eq!(before, vec![1, 2, 3]);
    assert_eq!(m.hosts[2].time_origin, 9 * S);
}

#[test]
fn repaint_interval() {
    assert_eq!(REPAINT_INTERVAL_MS, 250);
}
