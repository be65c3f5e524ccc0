use std::collections::VecDeque;

use multiping::host::{Host, Status};
use multiping::log::{LogEntry, LogLevel};
use multiping::monitor::{Addition, Edit, Monitor, Summary};

const MS: u64 = 1_000_000;

fn with_hosts(names: &[&str]) -> Monitor {
    let mut m = Monitor::new();
    let mut logs = VecDeque::new();
    for name in names {
        m.add_host_named(&mut logs, name.to_string(), 1_000);
    }
    m
}

fn slots(m: &Monitor) -> Vec<(usize, usize)> {
    m.hosts.iter().map(|h| (h.id, h.color_idx)).collect()
}

#[test]
fn a_new_monitor_is_empty() {
    let m = Monitor::new();
    assert_eq!(m.hosts, Vec::<Host>::new());
    assert_eq!(m.next_id, 1);
    assert!(!m.any_active());
    assert_eq!(m.summary(), Summary { total: 0, online: 0, timeout: 0, err: 0 });
}

#[test]
fn hosts_get_numbers_and_slots() {
    let mut m = Monitor::new();
    let mut logs: VecDeque<LogEntry> = VecDeque::new();
    assert_eq!(m.add_host_named(&mut logs, "a".to_string(), 500), Addition::Added(1));
    assert_eq!(m.add_host_named(&mut logs, "b".to_string(), 750), Addition::Added(2));
    assert_eq!(slots(&m), vec![(1, 0), (2, 1)]);
    assert_eq!(m.hosts[1], Host::new(2, "b".to_string(), 750, 1));
    assert_eq!(logs.len(), 2);
    assert_eq!(logs[1].host, "b");
    assert_eq!(logs[1].msg, "Host added  interval=750ms");
    assert_eq!(logs[1].level, LogLevel::Info);
}

#[test]
fn names_are_added_once() {
    let mut m = with_hosts(&["a"]);
    let mut logs = VecDeque::new();
    assert_eq!(m.add_host_named(&mut logs, "a".to_string(), 9), Addition::Duplicate);
    assert_eq!(m.add_host_named(&mut logs, String::new(), 9), Addition::Nameless);
    assert_eq!((m.hosts.len(), m.next_id, logs.len()), (1, 2, 0));
    assert_eq!(m.add_host_named(&mut logs, "A".to_string(), 9), Addition::Added(2));
}

#[test]
fn a_removed_name_can_be_added_again() {
    let mut m = with_hosts(&["a", "b"]);
    m.edit(1, Edit::Remove);
    let mut logs = VecDeque::new();
    assert_eq!(m.add_host_named(&mut logs, "a".to_string(), 9), Addition::Added(3));
    // The slot of the removed host is free again.
    assert_eq!(slots(&m), vec![(1, 0), (2, 1), (3, 0)]);
}

#[test]
fn the_lowest_free_slot_is_taken() {
    let mut m = with_hosts(&["a", "b", "c", "d"]);
    m.edit(2, Edit::Remove);
    m.edit(3, Edit::Remove);
    assert_eq!(m.free_slot(), 1);
    assert_eq!(Monitor::new().free_slot(), 0);
}

#[test]
fn collection_drops_removed_hosts_and_closes_gaps() {
    let mut m = with_hosts(&["a", "b", "c", "d"]);
    m.edit(1, Edit::Remove);
    m.edit(3, Edit::Remove);
    m.collect_removed();
    assert_eq!(slots(&m), vec![(2, 0), (4, 1)]);
    assert_eq!(m.hosts[0].name, "b");
    assert_eq!(m.free_slot(), 2);
    assert_eq!(m.next_id, 5);
    m.collect_removed();
    assert_eq!(slots(&m), vec![(2, 0), (4, 1)]);
}

#[test]
fn slots_stay_where_nothing_is_dropped() {
    let mut m = with_hosts(&["a", "b"]);
    m.hosts[0].color_idx = 4;
    m.collect_removed();
    assert_eq!(slots(&m), vec![(1, 4), (2, 1)]);
}

#[test]
fn find_by_number() {
    let m = with_hosts(&["a", "b"]);
    assert_eq!(m.find(2), Some(1));
    assert_eq!(m.find(3), None);
}

#[test]
fn pausing_all_and_resuming_all() {
    let mut m = with_hosts(&["a", "b"]);
    m.edit(1, Edit::TogglePause);
    assert!(m.any_active());
    m.set_all_paused(m.any_active());
    assert!(m.hosts.iter().all(|h| h.paused));
    assert!(!m.any_active());
    m.set_all_paused(m.any_active());
    assert!(m.hosts.iter().all(|h| !h.paused));
    m.set_all_paused(true);
    assert!(!m.any_active());
}

#[test]
fn removed_hosts_are_not_running() {
    let mut m = with_hosts(&["a"]);
    m.edit(1, Edit::Remove);
    assert!(!m.any_active());
}

#[test]
fn reset_all_restarts_time() {
    let mut m = with_hosts(&["a", "b"]);
    m.hosts[0].record(MS, Some(MS));
    m.hosts[1].record(MS, None);
    m.reset_all(77);
    for h in &m.hosts {
        assert_eq!((h.sent, h.received, h.time_origin), (0, 0, 77));
        assert!(h.history.is_empty());
    }
}

#[test]
fn removing_offline_hosts() {
    let mut m = with_hosts(&["a", "b", "c", "d"]);
    m.hosts[1].status = Status::Online;
    m.hosts[2].status = Status::Timeout;
    m.edit(4, Edit::Remove);
    assert_eq!(m.remove_offline(), 2);
    m.collect_removed();
    assert_eq!(slots(&m), vec![(2, 0)]);
    let s = m.summary();
    assert_eq!(s.total, s.online);
}

#[test]
fn removing_all_hosts() {
    let mut m = with_hosts(&["a", "b"]);
    m.remove_all();
    m.collect_removed();
    assert!(m.hosts.is_empty());
    assert_eq!(m.next_id, 3);
}

#[test]
fn summary_counts_states() {
    let mut m = with_hosts(&["a", "b", "c", "d", "e", "f"]);
    m.hosts[0].status = Status::Online;
    m.hosts[1].status = Status::Online;
    m.hosts[2].status = Status::Timeout;
    m.hosts[3].status = Status::Error("x".to_string());
    m.hosts[4].status = Status::Resolving;
    m.hosts[5].status = Status::Online;
    m.edit(6, Edit::Remove);
    let s = m.summary();
    assert_eq!(s, Summary { total: 5, online: 2, timeout: 1, err: 1 });
    assert!(s.online + s.timeout + s.err <= s.total);
}

#[test]
fn edits_change_one_host() {
    let mut m = with_hosts(&["a", "b"]);
    m.hosts[1].record(MS, Some(MS));
    m.apply_edits(&vec![
        (2, Edit::TogglePause),
        (2, Edit::ToggleVisible),
        (2, Edit::Interval(200)),
        (9, Edit::Remove),
    ]);
    assert_eq!(m.hosts[0], Host::new(1, "a".to_string(), 1_000, 0));
    assert!(m.hosts[1].paused && !m.hosts[1].visible && !m.hosts[1].removed);
    assert_eq!((m.hosts[1].interval_ms, m.hosts[1].sent), (200, 1));
    m.edit(2, Edit::Reset(5 * MS));
    assert_eq!((m.hosts[1].sent, m.hosts[1].time_origin), (0, 5 * MS));
}

#[test]
fn toggling_twice_changes_nothing() {
    let mut m = with_hosts(&["a"]);
    m.apply_edits(&vec![
        (1, Edit::TogglePause),
        (1, Edit::TogglePause),
        (1, Edit::ToggleVisible),
        (1, Edit::ToggleVisible),
    ]);
    assert_eq!(m.hosts[0], Host::new(1, "a".to_string(), 1_000, 0));
}

#[test]
fn fastest_hosts_come_first() {
    let mut m = with_hosts(&["silent", "slow", "fast", "gone", "mute", "equal"]);
    m.hosts[1].record(1, Some(30 * MS));
    m.hosts[1].record(2, Some(31 * MS));
    m.hosts[2].record(1, Some(10 * MS));
    m.hosts[2].record(2, None);
    m.hosts[3].record(1, Some(MS));
    m.edit(4, Edit::Remove);
    m.hosts[4].record(1, None);
    m.hosts[5].record(1, Some(20 * MS));
    m.hosts[5].record(2, Some(41 * MS));
    // 10 ms, then 30.5 ms twice in their own order, then those without answers.
    assert_eq!(m.by_latency(), vec![2, 1, 5, 0, 4]);
    let kept: Vec<usize> = m.kept_hosts().iter().map(|h| h.id).collect();
    assert_eq!(kept, vec![1, 2, 3, 5, 6]);
}

#[test]
fn hosts_stay_apart_in_a_session() {
    let mut m = Monitor::new();
    let mut logs = VecDeque::new();
    let mut highest = 0;
    for round in 0..30usize {
        for name in ["", "a", "b", "c", "a"] {
            if let Addition::Added(id) = m.add_host_named(&mut logs, name.to_string(), 1_000) {
                assert!(id > highest);
                highest = id;
            }
        }
        m.edit(highest - round % 3, Edit::Remove);
        if round % 4 == 0 {
            m.collect_removed();
        }
        for (i, h) in m.hosts.iter().enumerate() {
            assert!(1 <= h.id && h.id < m.next_id);
            assert!(h.removed || !h.name.is_empty());
            for g in &m.hosts[..i] {
                assert_ne!(g.id, h.id);
                if !g.removed && !h.removed {
                    assert_ne!(g.name, h.name);
                    assert_ne!(g.color_idx, h.color_idx);
                }
            }
        }
    }
}
