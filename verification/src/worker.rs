//! What the worker of a host decides: it resolves the name, opens a socket and
//! pings the host until it is removed. The worker says what to do next and is
//! told what came of it.

use std::collections::VecDeque;

use vstd::prelude::*;

use crate::doc::{figure, write_number};
use crate::host::{Address, HostView, Status, StatusView, MAX_SENT};
use crate::log::{logged, push_log, LogEntry, LogLevel};
use crate::monitor::{at_id, lemma_at_id, lemma_at_no_id, lemma_wf_kept, Monitor, MonitorView};
use crate::number::{ms, ms_number, NANOS_PER_MS};
use crate::stats::Sample;
use crate::text::{decimal, push_decimal};

verus! {

/// How long a ping waits for its answer, in milliseconds.
pub const PING_TIMEOUT_MS: u64 = 3_000;

/// How long a paused worker sleeps before it looks again: 100 milliseconds, in
/// nanoseconds.
pub const PAUSE_NANOS: u128 = 100_000_000;

/// The worker of one host.
#[derive(Debug, PartialEq, Eq)]
pub struct Worker {
    pub id: usize,
    pub name: String,
    /// How the resolved address is written.
    pub address: String,
    /// The sequence number of the next ping.
    pub seq: u16,
    /// The interval that was in force when the last ping was sent.
    pub interval_ms: u64,
}

/// The worker of one host, by its characters.
#[verifier::ext_equal]
pub struct WorkerView {
    pub id: usize,
    pub name: Seq<char>,
    pub address: Seq<char>,
    pub seq: u16,
    pub interval_ms: u64,
}

impl View for Worker {
    type V = WorkerView;

    open spec fn view(&self) -> WorkerView {
        WorkerView {
            id: self.id,
            name: self.name@,
            address: self.address@,
            seq: self.seq,
            interval_ms: self.interval_ms,
        }
    }
}

/// What came of looking up a name.
#[derive(Debug, PartialEq, Eq)]
pub enum Lookup {
    Found(Address),
    Nothing,
    Failed(String),
}

/// The socket that a worker needs: the version of the protocol, and the
/// identifier of its pings.
#[derive(Clone, Copy, Debug, PartialEq, Eq, Structural)]
pub struct Socket {
    pub v6: bool,
    pub ident: u16,
}

/// What a worker does next.
#[derive(Clone, Copy, Debug, PartialEq, Eq, Structural)]
pub enum Step {
    /// End.
    Stop,
    /// Sleep this many nanoseconds, and ask again.
    Sleep(u128),
    /// Send a ping with this sequence number.
    Ping(u16),
}

/// What came of a ping.
#[derive(Debug, PartialEq, Eq)]
pub enum Answer {
    /// The round-trip time.
    Reply(u64),
    Timeout,
    Failed(String),
}

// ---------------------------------------------------------------------------
// What happens
// ---------------------------------------------------------------------------

/// The host in a new state.
pub open spec fn in_state(h: HostView, status: StatusView) -> HostView {
    HostView { status, ..h }
}

/// The monitor after the host with the number `id` was changed by `f`.
pub open spec fn changed(
    m: MonitorView,
    id: usize,
    f: spec_fn(HostView) -> HostView,
) -> MonitorView {
    MonitorView { hosts: at_id(m.hosts, id, f), ..m }
}

/// Whether a host has the number `id`.
pub open spec fn has_id(hosts: Seq<HostView>, id: usize) -> bool {
    exists|i: int| 0 <= i < hosts.len() && (#[trigger] hosts[i]).id == id
}

/// The host with the number `id`.
pub open spec fn host_of(hosts: Seq<HostView>, id: usize) -> HostView {
    hosts[choose|i: int| 0 <= i < hosts.len() && (#[trigger] hosts[i]).id == id]
}

/// Whether one more ping of the host with the number `id` can be counted.
pub open spec fn has_room(hosts: Seq<HostView>, id: usize) -> bool {
    forall|i: int|
        0 <= i < hosts.len() && (#[trigger] hosts[i]).id == id ==> hosts[i].sent() < MAX_SENT
}

/// The error of a lookup; none where it found an address.
pub open spec fn lookup_error(lookup: Lookup) -> Option<Seq<char>> {
    match lookup {
        Lookup::Found(_) => None,
        Lookup::Nothing => Some("DNS error: no addresses returned"@),
        Lookup::Failed(e) => Some("DNS error: "@ + e@),
    }
}

/// The error of a socket that could not be opened.
pub open spec fn socket_error(e: Seq<char>) -> Seq<char> {
    "Socket error: "@ + e + "  →  Run as Administrator"@
}

/// The host after a ping that ended at `session_t`.
pub open spec fn answered_host(h: HostView, session_t: u64, answer: Answer) -> HostView {
    match answer {
        Answer::Reply(rtt) => in_state(h.recorded(session_t, Some(rtt)), StatusView::Online),
        Answer::Timeout => in_state(h.recorded(session_t, None), StatusView::Timeout),
        Answer::Failed(e) => in_state(h.recorded(session_t, None), StatusView::Error(e@)),
    }
}

/// The message of the log for the answer to a ping.
pub open spec fn answer_message(w: WorkerView, answer: Answer) -> Seq<char> {
    match answer {
        Answer::Reply(rtt) => "Reply from "@ + w.address + "  seq="@ + decimal(w.seq as nat)
            + "  rtt="@ + figure(ms_number(rtt as int), 2) + " ms"@,
        Answer::Timeout => "Request timeout  seq="@ + decimal(w.seq as nat),
        Answer::Failed(e) => "Error: "@ + e@,
    }
}

/// The level of the log for the answer to a ping.
pub open spec fn answer_level(answer: Answer) -> LogLevel {
    match answer {
        Answer::Reply(_) => LogLevel::Good,
        Answer::Timeout => LogLevel::Warn,
        Answer::Failed(_) => LogLevel::Bad,
    }
}

/// The rest of an interval of which `took` nanoseconds have passed.
pub open spec fn rest_of_interval(interval_ms: u64, took: u128) -> u128 {
    if took <= interval_ms * NANOS_PER_MS {
        (interval_ms * NANOS_PER_MS - took) as u128
    } else {
        0
    }
}

/// What a worker does next, as its host stands.
pub open spec fn next_step(hosts: Seq<HostView>, w: WorkerView) -> Step {
    if !has_id(hosts, w.id) || host_of(hosts, w.id).removed {
        Step::Stop
    } else if host_of(hosts, w.id).paused {
        Step::Sleep(PAUSE_NANOS)
    } else {
        Step::Ping(w.seq)
    }
}

// ---------------------------------------------------------------------------
// Changes to the monitor
// ---------------------------------------------------------------------------

/// After one host was changed in other things than number, name, palette slot
/// and removal, the monitor is as it should be.
proof fn lemma_changed(before: Monitor, after: Monitor, i: int, f: spec_fn(HostView) -> HostView)
    requires
        before.wf(),
        0 <= i < before.hosts@.len(),
        after.next_id == before.next_id,
        after.hosts@ == before.hosts@.update(i, after.hosts@[i]),
        after.hosts@[i].wf(),
        after.hosts@[i]@ == f(before.hosts@[i]@),
        f(before.hosts@[i]@).id == before.hosts@[i]@.id,
        f(before.hosts@[i]@).name == before.hosts@[i]@.name,
        f(before.hosts@[i]@).color_idx == before.hosts@[i]@.color_idx,
        f(before.hosts@[i]@).removed == before.hosts@[i]@.removed,
    ensures
        after.wf(),
        after@ == changed(before@, before.hosts@[i].id, f),
{
    lemma_at_id(before@.hosts, i, f);
    assert(after@.hosts =~= before@.hosts.update(i, f(before@.hosts[i])));
    lemma_wf_kept(before@, after@);
    assert forall|j: int| 0 <= j < after.hosts@.len() implies (#[trigger] after.hosts@[j]).wf() by {
        if j != i {
            assert(after.hosts@[j] == before.hosts@[j]);
        }
    }
}

/// Puts the host with the number `id` in a new state.
fn set_status(monitor: &mut Monitor, id: usize, status: Status)
    requires
        old(monitor).wf(),
    ensures
        final(monitor).wf(),
        final(monitor)@ == changed(old(monitor)@, id, |h: HostView| in_state(h, status@)),
{
    let ghost before = *monitor;
    let ghost f = |h: HostView| in_state(h, status@);
    if let Some(i) = monitor.find(id) {
        monitor.hosts[i].status = status;
        proof {
            lemma_changed(before, *monitor, i as int, f);
        }
    } else {
        proof {
            lemma_at_no_id(before@.hosts, id, f);
        }
    }
}

/// Notes an error of the host with the number `id`.
pub fn mark_error(
    monitor: &mut Monitor,
    logs: &mut VecDeque<LogEntry>,
    id: usize,
    host: &str,
    msg: &str,
)
    requires
        old(monitor).wf(),
    ensures
        final(monitor).wf(),
        final(monitor)@ == changed(
            old(monitor)@,
            id,
            |h: HostView| in_state(h, StatusView::Error(msg@)),
        ),
        logged(old(logs)@, final(logs)@, host@, msg@, LogLevel::Bad),
{
    let status = Status::Error(msg.to_owned());
    assert(status@ == StatusView::Error(msg@));
    set_status(monitor, id, status);
    push_log(logs, host, msg.to_owned(), LogLevel::Bad);
}

impl Monitor {
    /// Whether one more ping of the host with the number `id` can be counted.
    pub fn has_room(&self, id: usize) -> (r: bool)
        requires
            self.wf(),
        ensures
            r == has_room(self@.hosts, id),
    {
        match self.find(id) {
            Some(i) => {
                assert(self@.hosts[i as int] == self.hosts@[i as int]@);
                assert forall|j: int|
                    0 <= j < self@.hosts.len() && (#[trigger] self@.hosts[j]).id == id implies j
                    == i by {
                    if j < i {
                        assert(self@.hosts[j].id != self@.hosts[i as int].id);
                    } else if i < j {
                        assert(self@.hosts[i as int].id != self@.hosts[j].id);
                    }
                }
                self.hosts[i].sent < MAX_SENT
            },
            None => true,
        }
    }
}

/// The host at the place that was found is the one with the number.
proof fn lemma_host_of(m: MonitorView, i: int)
    requires
        m.wf(),
        0 <= i < m.hosts.len(),
    ensures
        has_id(m.hosts, m.hosts[i].id),
        host_of(m.hosts, m.hosts[i].id) == m.hosts[i],
{
    let id = m.hosts[i].id;
    let j = choose|j: int| 0 <= j < m.hosts.len() && (#[trigger] m.hosts[j]).id == id;
    assert(m.hosts[i].id == id);
    if i < j {
        assert(m.hosts[i].id != m.hosts[j].id);
    } else if j < i {
        assert(m.hosts[j].id != m.hosts[i].id);
    }
}

// ---------------------------------------------------------------------------
// The worker
// ---------------------------------------------------------------------------

impl Worker {
    /// The worker of the host `name` with the number `id`.
    pub fn new(id: usize, name: String) -> (w: Worker)
        ensures
            w@ == (WorkerView {
                id,
                name: name@,
                address: Seq::empty(),
                seq: 0,
                interval_ms: 0,
            }),
    {
        Worker { id, name, address: String::new(), seq: 0, interval_ms: 0 }
    }

    /// Begins: the host is being resolved. Says what is to be looked up.
    pub fn begin(&self, monitor: &mut Monitor) -> (target: String)
        requires
            old(monitor).wf(),
        ensures
            final(monitor).wf(),
            final(monitor)@ == changed(
                old(monitor)@,
                self.id,
                |h: HostView| in_state(h, StatusView::Resolving),
            ),
            target@ == self@.name + ":0"@,
    {
        let status = Status::Resolving;
        assert(status@ == StatusView::Resolving);
        set_status(monitor, self.id, status);
        let mut target = self.name.clone();
        target.append(":0");
        target
    }

    /// Goes on after the lookup: with the socket that is needed, or not at all
    /// where no address was found.
    pub fn resolved(
        &mut self,
        monitor: &mut Monitor,
        logs: &mut VecDeque<LogEntry>,
        lookup: Lookup,
    ) -> (r: Option<Socket>)
        requires
            old(monitor).wf(),
        ensures
            final(monitor).wf(),
            match lookup {
                Lookup::Found(a) => {
                    &&& r == Some(Socket { v6: a.v6, ident: (old(self).id as nat % 0x1_0000) as u16 })
                    &&& final(self)@ == (WorkerView { address: a.text@, ..old(self)@ })
                    &&& final(monitor)@ == changed(
                        old(monitor)@,
                        old(self).id,
                        |h: HostView| HostView { ip: Some(a@), ..h },
                    )
                    &&& logged(
                        old(logs)@,
                        final(logs)@,
                        old(self)@.name,
                        "Resolved → "@ + a.text@,
                        LogLevel::Info,
                    )
                },
                _ => {
                    &&& r is None
                    &&& final(self)@ == old(self)@
                    &&& final(monitor)@ == changed(
                        old(monitor)@,
                        old(self).id,
                        |h: HostView| in_state(h, StatusView::Error(lookup_error(lookup)->0)),
                    )
                    &&& logged(
                        old(logs)@,
                        final(logs)@,
                        old(self)@.name,
                        lookup_error(lookup)->0,
                        LogLevel::Bad,
                    )
                },
            },
    {
        match lookup {
            Lookup::Found(a) => {
                let mut msg = "Resolved → ".to_owned();
                msg.append(a.text.as_str());
                push_log(logs, self.name.as_str(), msg, LogLevel::Info);
                let id: usize = self.id;
                let ident: u16 = (id % 0x1_0000) as u16;
                let v6: bool = a.v6;
                self.address = a.text.clone();
                let ghost before = *monitor;
                let ghost f = |h: HostView| HostView { ip: Some(a@), ..h };
                if let Some(i) = monitor.find(id) {
                    monitor.hosts[i].ip = Some(a);
                    proof {
                        lemma_changed(before, *monitor, i as int, f);
                    }
                } else {
                    proof {
                        lemma_at_no_id(before@.hosts, id, f);
                    }
                }
                Some(Socket { v6, ident })
            },
            Lookup::Nothing => {
                mark_error(
                    monitor,
                    logs,
                    self.id,
                    self.name.as_str(),
                    "DNS error: no addresses returned",
                );
                None
            },
            Lookup::Failed(e) => {
                let mut msg = "DNS error: ".to_owned();
                msg.append(e.as_str());
                mark_error(monitor, logs, self.id, self.name.as_str(), msg.as_str());
                None
            },
        }
    }

    /// Goes on after the socket was opened, or failed to open. Says whether to
    /// begin pinging.
    pub fn opened(
        &self,
        monitor: &mut Monitor,
        logs: &mut VecDeque<LogEntry>,
        failure: Option<String>,
    ) -> (r: bool)
        requires
            old(monitor).wf(),
        ensures
            final(monitor).wf(),
            r == (failure is None),
            match failure {
                None => final(monitor)@ == old(monitor)@ && final(logs)@ == old(logs)@,
                Some(e) => final(monitor)@ == changed(
                    old(monitor)@,
                    self.id,
                    |h: HostView| in_state(h, StatusView::Error(socket_error(e@))),
                ) && logged(
                    old(logs)@,
                    final(logs)@,
                    self@.name,
                    socket_error(e@),
                    LogLevel::Bad,
                ),
            },
    {
        match failure {
            None => true,
            Some(e) => {
                let mut msg = "Socket error: ".to_owned();
                msg.append(e.as_str());
                msg.append("  →  Run as Administrator");
                mark_error(monitor, logs, self.id, self.name.as_str(), msg.as_str());
                false
            },
        }
    }

    /// Looks at the host before each ping: ends once the host is gone or
    /// removed, waits while it is paused, and pings it otherwise.
    pub fn poll(&mut self, monitor: &Monitor) -> (step: Step)
        requires
            monitor.wf(),
        ensures
            step == next_step(monitor@.hosts, old(self)@),
            final(self)@ == (if step is Ping {
                WorkerView {
                    interval_ms: host_of(monitor@.hosts, old(self).id).interval_ms,
                    ..old(self)@
                }
            } else {
                old(self)@
            }),
    {
        match monitor.find(self.id) {
            Some(i) => {
                proof {
                    lemma_host_of(monitor@, i as int);
                }
                assert(monitor@.hosts[i as int] == monitor.hosts@[i as int]@);
                let h = &monitor.hosts[i];
                if h.removed {
                    Step::Stop
                } else if h.paused {
                    Step::Sleep(PAUSE_NANOS)
                } else {
                    self.interval_ms = h.interval_ms;
                    Step::Ping(self.seq)
                }
            },
            None => Step::Stop,
        }
    }

    /// Goes on after a ping that ended at `session_t` and took `took`
    /// nanoseconds: the answer is recorded and logged, and the worker sleeps for
    /// the rest of the interval. Where the host is gone, the worker ends.
    pub fn answered(
        &mut self,
        monitor: &mut Monitor,
        logs: &mut VecDeque<LogEntry>,
        session_t: u64,
        took: u128,
        answer: Answer,
    ) -> (step: Step)
        requires
            old(monitor).wf(),
            has_room(old(monitor)@.hosts, old(self).id),
        ensures
            final(monitor).wf(),
            if has_id(old(monitor)@.hosts, old(self).id) {
                &&& step == Step::Sleep(rest_of_interval(old(self).interval_ms, took))
                &&& final(self)@ == (WorkerView {
                    seq: ((old(self).seq + 1) % 0x1_0000) as u16,
                    ..old(self)@
                })
                &&& final(monitor)@ == changed(
                    old(monitor)@,
                    old(self).id,
                    |h: HostView| answered_host(h, session_t, answer),
                )
                &&& forall|i: int|
                    0 <= i < old(monitor)@.hosts.len() && old(monitor)@.hosts[i].id == old(self).id
                        ==> {
                        let h = old(monitor)@.hosts[i];
                        let at = (session_t - h.time_origin) as i128;
                        (#[trigger] final(monitor)@.hosts[i]).history == h.history.push(
                            match answer {
                                Answer::Reply(rtt) => (Sample { at, rtt: Some(rtt) }),
                                _ => (Sample { at, rtt: None }),
                            },
                        )
                    }
                &&& logged(
                    old(logs)@,
                    final(logs)@,
                    old(self)@.name,
                    answer_message(old(self)@, answer),
                    answer_level(answer),
                )
            } else {
                &&& step == Step::Stop
                &&& final(self)@ == old(self)@
                &&& final(monitor)@ == old(monitor)@
                &&& final(logs)@ == old(logs)@
            },
    {
        let i: usize = match monitor.find(self.id) {
            Some(i) => i,
            None => {
                return Step::Stop;
            },
        };
        let ghost before = *monitor;
        let ghost f = |h: HostView| answered_host(h, session_t, answer);
        proof {
            lemma_host_of(before@, i as int);
            assert(before@.hosts[i as int] == before.hosts@[i as int]@);
        }
        let h = &mut monitor.hosts[i];
        let mut msg = String::new();
        let mut level = LogLevel::Bad;
        match answer {
            Answer::Reply(rtt) => {
                h.record(session_t, Some(rtt));
                h.status = Status::Online;
                msg.append("Reply from ");
                msg.append(self.address.as_str());
                msg.append("  seq=");
                push_decimal(&mut msg, self.seq as u64);
                msg.append("  rtt=");
                msg.append(write_number(&ms(rtt), 2).as_str());
                msg.append(" ms");
                level = LogLevel::Good;
            },
            Answer::Timeout => {
                h.record(session_t, None);
                h.status = Status::Timeout;
                msg.append("Request timeout  seq=");
                push_decimal(&mut msg, self.seq as u64);
                level = LogLevel::Warn;
            },
            Answer::Failed(e) => {
                h.record(session_t, None);
                msg.append("Error: ");
                msg.append(e.as_str());
                h.status = Status::Error(e);
            },
        }
        assert(msg@ =~= answer_message(self@, answer));
        push_log(logs, self.name.as_str(), msg, level);
        proof {
            lemma_changed(before, *monitor, i as int, f);
        }
        self.seq = self.seq.wrapping_add(1);
        let interval: u128 = self.interval_ms as u128 * NANOS_PER_MS as u128;
        let rest: u128 = if took <= interval { interval - took } else { 0 };
        Step::Sleep(rest)
    }
}

} // verus!
