//! The controls of the application: its inputs, its thresholds and what it
//! reports in the status bar.

use std::collections::VecDeque;

use vstd::prelude::*;

use crate::clock::is_time_stamp;
use crate::host::HostView;
use crate::log::{entries, entry_of, logged, pushed, EntryView, LogEntry, LogLevel};
use crate::monitor::{
    added_message, count, is_monitored, offline, Addition, Monitor, MonitorView,
};
use crate::targets::{parse_targets, targets};
use crate::text::{decimal, push_decimal, texts, to_chars, to_text, trim, trimmed};

verus! {

/// The shortest interval that can be set, in milliseconds.
pub const MIN_INTERVAL_MS: u64 = 200;

/// The longest interval that can be set, in milliseconds.
pub const MAX_INTERVAL_MS: u64 = 60_000;

/// The lowest threshold for the mean round-trip time that can be set, in
/// nanoseconds.
pub const MIN_SLA_RTT: u64 = 1_000_000;

/// The highest threshold for the mean round-trip time that can be set, in
/// nanoseconds.
pub const MAX_SLA_RTT: u64 = 10_000_000_000;

/// The highest threshold for the loss that can be set, in millionths of a
/// percent.
pub const MAX_SLA_LOSS: u64 = 100_000_000;

/// The state of the controls.
#[derive(Debug, PartialEq, Eq)]
pub struct MultiPingApp {
    pub host_input: String,
    /// The interval for new hosts, in milliseconds.
    pub interval_ms: u64,
    pub sweep_input: String,
    /// The threshold for the mean round-trip time, in nanoseconds.
    pub sla_rtt: u64,
    /// The threshold for the loss, in millionths of a percent.
    pub sla_loss: u64,
    pub network_location: String,
    pub report_comment: String,
    pub log_filter: String,
    pub log_autoscroll: bool,
    pub show_log: bool,
    pub status_bar: String,
}

/// The state of the controls, by its characters.
#[verifier::ext_equal]
pub struct AppView {
    pub host_input: Seq<char>,
    pub interval_ms: u64,
    pub sweep_input: Seq<char>,
    pub sla_rtt: u64,
    pub sla_loss: u64,
    pub network_location: Seq<char>,
    pub report_comment: Seq<char>,
    pub log_filter: Seq<char>,
    pub log_autoscroll: bool,
    pub show_log: bool,
    pub status_bar: Seq<char>,
}

impl View for MultiPingApp {
    type V = AppView;

    open spec fn view(&self) -> AppView {
        AppView {
            host_input: self.host_input@,
            interval_ms: self.interval_ms,
            sweep_input: self.sweep_input@,
            sla_rtt: self.sla_rtt,
            sla_loss: self.sla_loss,
            network_location: self.network_location@,
            report_comment: self.report_comment@,
            log_filter: self.log_filter@,
            log_autoscroll: self.log_autoscroll,
            show_log: self.show_log,
            status_bar: self.status_bar@,
        }
    }
}

impl AppView {
    /// The controls with a new message in the status bar.
    pub open spec fn reporting(self, message: Seq<char>) -> AppView {
        AppView { status_bar: message, ..self }
    }
}

/// What the status bar says after `name` was to be added: nothing new where the
/// name is empty.
pub open spec fn addition_report(
    app: AppView,
    m: MonitorView,
    name: Seq<char>,
) -> AppView {
    if name.len() == 0 {
        app
    } else if is_monitored(m.hosts, name) {
        app.reporting("'"@ + name + "' is already being monitored."@)
    } else {
        app.reporting("Added host #"@ + decimal(m.next_id) + "."@)
    }
}

/// The log after all the names were added one by one to the monitor `m`, each
/// at its own time of day.
pub open spec fn sweep_log(
    m: MonitorView,
    log: Seq<EntryView>,
    names: Seq<Seq<char>>,
    interval_ms: u64,
    times: Seq<Seq<char>>,
) -> Seq<EntryView>
    decreases names.len(),
{
    if names.len() == 0 {
        log
    } else {
        let front = names.drop_last();
        let before = sweep_log(m, log, front, interval_ms, times.drop_last());
        if m.added_all(front, interval_ms).adds(names.last()) {
            pushed(
                before,
                entry_of(times.last(), names.last(), added_message(interval_ms), LogLevel::Info),
            )
        } else {
            before
        }
    }
}

/// Whether the log `after` is the log `before` with a line for every host that
/// adding the names to the monitor `m` adds.
pub open spec fn sweep_logged(
    m: MonitorView,
    before: Seq<LogEntry>,
    after: Seq<LogEntry>,
    names: Seq<Seq<char>>,
    interval_ms: u64,
) -> bool {
    exists|times: Seq<Seq<char>>|
        times.len() == names.len() && (forall|i: int|
            0 <= i < times.len() ==> is_time_stamp(#[trigger] times[i])) && entries(after)
            == #[trigger] sweep_log(m, entries(before), names, interval_ms, times)
}

/// The numbers of the hosts from the place `from` on.
pub open spec fn ids_from(hosts: Seq<HostView>, from: int) -> Seq<usize> {
    hosts.skip(from).map_values(|h: HostView| h.id)
}

/// Adding a name adds at most one host, at the end.
proof fn lemma_added_grows(m: MonitorView, names: Seq<Seq<char>>, interval_ms: u64)
    ensures
        m.added_all(names, interval_ms).next_id <= m.next_id + names.len(),
        m.hosts.len() <= m.added_all(names, interval_ms).hosts.len(),
        m.added_all(names, interval_ms).hosts.take(m.hosts.len() as int) == m.hosts,
    decreases names.len(),
{
    if names.len() > 0 {
        lemma_added_grows(m, names.drop_last(), interval_ms);
        let before = m.added_all(names.drop_last(), interval_ms);
        let after = m.added_all(names, interval_ms);
        assert(after.hosts.take(m.hosts.len() as int) =~= before.hosts.take(m.hosts.len() as int));
    } else {
        assert(m.hosts.take(m.hosts.len() as int) =~= m.hosts);
    }
}

impl MultiPingApp {
    /// The controls as the application starts.
    pub fn new() -> (app: MultiPingApp)
        ensures
            app@ == (AppView {
                host_input: Seq::empty(),
                interval_ms: 1_000,
                sweep_input: Seq::empty(),
                sla_rtt: 50_000_000,
                sla_loss: 1_000_000,
                network_location: Seq::empty(),
                report_comment: Seq::empty(),
                log_filter: Seq::empty(),
                log_autoscroll: true,
                show_log: true,
                status_bar:
                    "Ready — enter a hostname or IP address above to start monitoring."@,
            }),
    {
        MultiPingApp {
            host_input: String::new(),
            interval_ms: 1_000,
            sweep_input: String::new(),
            sla_rtt: 50_000_000,
            sla_loss: 1_000_000,
            network_location: String::new(),
            report_comment: String::new(),
            log_filter: String::new(),
            log_autoscroll: true,
            show_log: true,
            status_bar:
                "Ready — enter a hostname or IP address above to start monitoring.".to_owned(),
        }
    }

    /// Adds a host, and says what came of it. Returns the number of a host that
    /// was added, whose worker is to be started.
    pub fn add_host_named(
        &mut self,
        monitor: &mut Monitor,
        logs: &mut VecDeque<LogEntry>,
        name: String,
    ) -> (r: Option<usize>)
        requires
            old(monitor).wf(),
            old(monitor).next_id < usize::MAX,
        ensures
            final(monitor).wf(),
            final(monitor)@ == old(monitor)@.added(name@, old(self).interval_ms),
            r == (if old(monitor)@.adds(name@) {
                Some(old(monitor).next_id)
            } else {
                None
            }),
            final(self)@ == addition_report(old(self)@, old(monitor)@, name@),
            if old(monitor)@.adds(name@) {
                logged(
                    old(logs)@,
                    final(logs)@,
                    name@,
                    added_message(old(self).interval_ms),
                    LogLevel::Info,
                )
            } else {
                final(logs)@ == old(logs)@
            },
    {
        let shown = name.clone();
        match monitor.add_host_named(logs, name, self.interval_ms) {
            Addition::Nameless => None,
            Addition::Duplicate => {
                let mut s = "'".to_owned();
                s.append(shown.as_str());
                s.append("' is already being monitored.");
                self.status_bar = s;
                None
            },
            Addition::Added(id) => {
                let mut s = "Added host #".to_owned();
                push_decimal(&mut s, id as u64);
                s.append(".");
                self.status_bar = s;
                Some(id)
            },
        }
    }

    /// Adds the host that was typed in, without the white space around it, and
    /// empties the input.
    pub fn add_host(&mut self, monitor: &mut Monitor, logs: &mut VecDeque<LogEntry>) -> (r: Option<
        usize,
    >)
        requires
            old(monitor).wf(),
            old(monitor).next_id < usize::MAX,
        ensures
            final(monitor).wf(),
            final(monitor)@ == old(monitor)@.added(
                trimmed(old(self)@.host_input),
                old(self).interval_ms,
            ),
            r == (if old(monitor)@.adds(trimmed(old(self)@.host_input)) {
                Some(old(monitor).next_id)
            } else {
                None
            }),
            final(self)@ == addition_report(
                AppView { host_input: Seq::empty(), ..old(self)@ },
                old(monitor)@,
                trimmed(old(self)@.host_input),
            ),
            if old(monitor)@.adds(trimmed(old(self)@.host_input)) {
                logged(
                    old(logs)@,
                    final(logs)@,
                    trimmed(old(self)@.host_input),
                    added_message(old(self).interval_ms),
                    LogLevel::Info,
                )
            } else {
                final(logs)@ == old(logs)@
            },
    {
        let chars = to_chars(self.host_input.as_str());
        let name = to_text(trim(chars.as_slice()));
        self.host_input = String::new();
        self.add_host_named(monitor, logs, name)
    }

    /// Adds every target of the sweep input, and says how many there are.
    /// Returns the numbers of the hosts that were added, whose workers are to be
    /// started.
    pub fn sweep(&mut self, monitor: &mut Monitor, logs: &mut VecDeque<LogEntry>) -> (r: Vec<usize>)
        requires
            old(monitor).wf(),
            old(monitor).next_id + targets(old(self)@.sweep_input).len() <= usize::MAX,
        ensures
            final(monitor).wf(),
            final(monitor)@ == old(monitor)@.added_all(
                targets(old(self)@.sweep_input),
                old(self).interval_ms,
            ),
            r@ == ids_from(final(monitor)@.hosts, old(monitor)@.hosts.len() as int),
            final(self)@ == old(self)@.reporting(
                if targets(old(self)@.sweep_input).len() == 0 {
                    "No valid targets parsed from sweep input."@
                } else {
                    "Sweep: queued "@ + decimal(targets(old(self)@.sweep_input).len())
                        + " targets."@
                },
            ),
            sweep_logged(
                old(monitor)@,
                old(logs)@,
                final(logs)@,
                targets(old(self)@.sweep_input),
                old(self).interval_ms,
            ),
    {
        let found = parse_targets(self.sweep_input.as_str());
        let ghost names = targets(old(self)@.sweep_input);
        let n: usize = found.len();
        assert(texts(found@).len() == n);
        let mut r: Vec<usize> = Vec::new();
        let interval_ms: u64 = self.interval_ms;
        let ghost m = monitor@;
        let ghost log = entries(logs@);
        let ghost first = m.hosts.len() as int;
        let ghost mut times: Seq<Seq<char>> = Seq::empty();
        assert(names.take(0) =~= Seq::empty());
        assert(r@ =~= ids_from(monitor@.hosts, first));
        let ghost strings = found@;
        for name in it: found
            invariant
                it.seq() == strings,
                names == texts(strings),
                n == names.len(),
                m == old(monitor)@,
                log == entries(old(logs)@),
                first == m.hosts.len(),
                old(monitor).next_id + names.len() <= usize::MAX,
                interval_ms == old(self).interval_ms,
                self.interval_ms == interval_ms,
                self@ == old(self)@.reporting(self@.status_bar),
                monitor.wf(),
                monitor@ == m.added_all(names.take(it.index() as int), interval_ms),
                r@ == ids_from(monitor@.hosts, first),
                times.len() == it.index(),
                forall|i: int| 0 <= i < times.len() ==> is_time_stamp(#[trigger] times[i]),
                entries(logs@) == sweep_log(
                    m,
                    log,
                    names.take(it.index() as int),
                    interval_ms,
                    times,
                ),
        {
            let ghost i = it.index() as int;
            let ghost before = monitor@;
            let ghost old_logs = logs@;
            proof {
                assert(name@ == names[i]);
                assert(names.take(i + 1).drop_last() =~= names.take(i));
                lemma_added_grows(m, names.take(i), interval_ms);
            }
            let added = self.add_host_named(monitor, logs, name);
            proof {
                let time = if before.adds(name@) {
                    choose|time: Seq<char>|
                        is_time_stamp(time) && entries(logs@) == pushed(
                            entries(old_logs),
                            #[trigger] entry_of(
                                time,
                                name@,
                                added_message(interval_ms),
                                LogLevel::Info,
                            ),
                        )
                } else {
                    crate::clock::time_stamp(0, 0, 0, 0)
                };
                assert(is_time_stamp(time));
                let later = times.push(time);
                assert(later.drop_last() =~= times);
                times = later;
            }
            if let Some(id) = added {
                r.push(id);
            }
            proof {
                lemma_added_grows(m, names.take(i + 1), interval_ms);
                if before.adds(name@) {
                    assert(r@ =~= ids_from(monitor@.hosts, first));
                }
            }
        }
        assert(names.take(n as int) =~= names);
        if n == 0 {
            self.status_bar = "No valid targets parsed from sweep input.".to_owned();
        } else {
            let mut s = "Sweep: queued ".to_owned();
            push_decimal(&mut s, n as u64);
            s.append(" targets.");
            self.status_bar = s;
        }
        r
    }

    /// Resets the statistics of every host.
    pub fn reset_all(&mut self, monitor: &mut Monitor, now: u64)
        requires
            old(monitor).wf(),
        ensures
            final(monitor).wf(),
            final(monitor)@ == (MonitorView {
                hosts: old(monitor)@.hosts.map_values(|h: HostView| h.reset_at(now)),
                ..old(monitor)@
            }),
            final(self)@ == old(self)@.reporting(
                "All statistics reset. t=0 restarted for all hosts."@,
            ),
    {
        monitor.reset_all(now);
        self.status_bar = "All statistics reset. t=0 restarted for all hosts.".to_owned();
    }

    /// Removes every host that is not online, and says how many those are.
    pub fn remove_offline(&mut self, monitor: &mut Monitor)
        requires
            old(monitor).wf(),
        ensures
            final(monitor).wf(),
            final(monitor)@ == (MonitorView {
                hosts: old(monitor)@.hosts.map_values(
                    |h: HostView| HostView { removed: h.removed || !(h.status is Online), ..h },
                ),
                ..old(monitor)@
            }),
            final(self)@ == old(self)@.reporting(
                "Removed "@ + decimal(count(old(monitor)@.hosts, offline())) + " offline host(s)."@,
            ),
    {
        let n: usize = monitor.remove_offline();
        let mut s = "Removed ".to_owned();
        push_decimal(&mut s, n as u64);
        s.append(" offline host(s).");
        self.status_bar = s;
    }

    /// Removes every host.
    pub fn remove_all(&mut self, monitor: &mut Monitor)
        requires
            old(monitor).wf(),
        ensures
            final(monitor).wf(),
            final(monitor)@ == (MonitorView {
                hosts: old(monitor)@.hosts.map_values(
                    |h: HostView| HostView { removed: true, ..h },
                ),
                ..old(monitor)@
            }),
            final(self)@ == old(self)@.reporting("All hosts removed."@),
    {
        monitor.remove_all();
        self.status_bar = "All hosts removed.".to_owned();
    }

    /// Says what came of writing a file.
    pub fn report_export(&mut self, kind: Export, name: &str, failure: Option<&str>)
        ensures
            final(self)@ == old(self)@.reporting(
                match failure {
                    None => kind.saved() + name@,
                    Some(e) => kind.failed() + e@,
                },
            ),
    {
        let mut s = match failure {
            None => match kind {
                Export::Log => "✓ Log saved → ".to_owned(),
                Export::Stats => "✓ Stats saved → ".to_owned(),
                Export::Report => "✓ Report saved → ".to_owned(),
            },
            Some(_) => match kind {
                Export::Report => "✕ Report failed: ".to_owned(),
                _ => "✕ Export failed: ".to_owned(),
            },
        };
        match failure {
            None => {
                s.append(name);
            },
            Some(e) => {
                s.append(e);
            },
        }
        self.status_bar = s;
    }
}

/// A file that can be exported.
#[derive(Clone, Copy, Debug, PartialEq, Eq, Structural)]
pub enum Export {
    Log,
    Stats,
    Report,
}

impl Export {
    /// What comes before the name of a file that was written.
    pub open spec fn saved(self) -> Seq<char> {
        match self {
            Export::Log => "✓ Log saved → "@,
            Export::Stats => "✓ Stats saved → "@,
            Export::Report => "✓ Report saved → "@,
        }
    }

    /// What comes before the reason for which a file was not written.
    pub open spec fn failed(self) -> Seq<char> {
        match self {
            Export::Report => "✕ Report failed: "@,
            _ => "✕ Export failed: "@,
        }
    }
}

} // verus!
