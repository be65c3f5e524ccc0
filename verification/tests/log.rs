use std::collections::VecDeque;

use multiping::log::{
    clear_log, export_log, filter_entries, log_text, matches_filter, push_entry, push_log,
    LogEntry, LogLevel, MAX_LOGS, RULER,
};
use multiping::palette::Color;

fn entry(time: &str, host: &str, msg: &str, level: LogLevel) -> LogEntry {
    LogEntry { time: time.to_string(), host: host.to_string(), msg: msg.to_string(), level }
}

fn sample_log() -> VecDeque<LogEntry> {
    let mut logs = VecDeque::new();
    push_entry(&mut logs, "10:24:01.123".to_string(), "8.8.8.8", "Reply from X".to_string(), LogLevel::Good);
    push_entry(&mut logs, "10:24:02.000".to_string(), "ALPHA", "Request timeout".to_string(), LogLevel::Warn);
    push_entry(&mut logs, "10:24:03.999".to_string(), "beta", "Error: Größe".to_string(), LogLevel::Bad);
    logs
}

/// Whether `s` has the shape of `pattern`, where `9` stands for any digit.
fn has_shape(s: &str, pattern: &str) -> bool {
    s.chars().count() == pattern.chars().count()
        && s.chars().zip(pattern.chars()).all(|(c, p)| if p == '9' { c.is_ascii_digit() } else { c == p })
}

#[test]
fn levels() {
    let all = [LogLevel::Info, LogLevel::Good, LogLevel::Warn, LogLevel::Bad];
    let labels: Vec<&str> = all.iter().map(|l| l.label()).collect();
    assert_eq!(labels, ["INFO", "OK  ", "WARN", "ERR "]);
    let colors: Vec<Color> = all.iter().map(|l| l.color()).collect();
    assert_eq!(colors, [Color::Info, Color::Good, Color::Warn, Color::Bad]);
}

#[test]
fn entries_carry_the_time_of_day() {
    let mut logs = VecDeque::new();
    push_log(&mut logs, "alpha", "hello".to_string(), LogLevel::Info);
    assert_eq!(logs.len(), 1);
    assert!(has_shape(&logs[0].time, "99:99:99.999"), "{}", logs[0].time);
    let time = logs[0].time.clone();
    assert_eq!(logs[0], entry(&time, "alpha", "hello", LogLevel::Info));
}

#[test]
fn a_full_log_loses_its_oldest_entry() {
    assert_eq!(MAX_LOGS, 5_000);
    let mut logs = VecDeque::new();
    for i in 0..5_003 {
        push_entry(&mut logs, String::new(), "h", i.to_string(), LogLevel::Info);
    }
    assert_eq!(logs.len(), 5_000);
    assert_eq!(logs[0].msg, "3");
    assert_eq!(logs[4_999].msg, "5002");
}

#[test]
fn a_cleared_log_is_empty() {
    let mut logs = sample_log();
    clear_log(&mut logs);
    assert!(logs.is_empty());
}

#[test]
fn an_empty_filter_shows_all() {
    assert_eq!(filter_entries(&sample_log(), ""), vec![0, 1, 2]);
}

#[test]
fn filters_ignore_case_and_look_at_host_and_message() {
    let logs = sample_log();
    assert_eq!(filter_entries(&logs, "alpha"), vec![1]);
    assert_eq!(filter_entries(&logs, "ALPHA"), vec![1]);
    assert_eq!(filter_entries(&logs, "BETA"), vec![2]);
    assert_eq!(filter_entries(&logs, "rE"), vec![0, 1]);
    assert_eq!(filter_entries(&logs, "GRÖSSE"), Vec::<usize>::new());
    assert_eq!(filter_entries(&logs, "GRÖ"), vec![2]);
    assert_eq!(filter_entries(&logs, "8.8"), vec![0]);
    assert_eq!(filter_entries(&logs, "10:24"), Vec::<usize>::new());
}

#[test]
fn matching_is_exact_where_case_is_settled() {
    assert!(matches_filter("host", "message", ""));
    assert!(matches_filter("host", "message", "os"));
    assert!(matches_filter("host", "message", "ssage"));
    assert!(!matches_filter("host", "message", "Host"));
    assert!(!matches_filter("host", "message", "tm"));
    assert!(!matches_filter("", "", "x"));
}

#[test]
fn the_ruler_is_80_wide() {
    assert_eq!(RULER, "─".repeat(80));
}

#[test]
fn exported_text() {
    let expected = format!(
        "pinger — Activity Log\nExported: 2024-01-31 10:24:01\n{}\n\n\
         [10:24:01.123]  [OK  ]  8.8.8.8                    Reply from X\n\
         [10:24:02.000]  [WARN]  ALPHA                      Request timeout\n\
         [10:24:03.999]  [ERR ]  beta                       Error: Größe\n",
        "─".repeat(80)
    );
    assert_eq!(log_text("2024-01-31 10:24:01", &sample_log()), expected);
}

#[test]
fn long_host_names_are_not_cut() {
    let mut logs = VecDeque::new();
    let host = "a-very-long-host-name.example.com";
    push_entry(&mut logs, "t".to_string(), host, "m".to_string(), LogLevel::Info);
    let text = log_text("now", &logs);
    assert!(text.ends_with(&format!("[t]  [INFO]  {host}  m\n")));
}

#[test]
fn export_is_named_and_dated() {
    let (name, text) = export_log(&sample_log());
    assert!(has_shape(&name, "pinger_log_99999999_999999.txt"), "{name}");
    let first: Vec<&str> = text.lines().take(2).collect();
    assert_eq!(first[0], "pinger — Activity Log");
    assert!(has_shape(first[1], "Exported: 9999-99-99 99:99:99"), "{}", first[1]);
    assert_eq!(text, log_text(&first[1]["Exported: ".len()..], &sample_log()));
}
