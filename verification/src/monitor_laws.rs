//! What holds of changes to the monitored hosts, and of what they are reported
//! with.

use vstd::prelude::*;

use crate::clock::is_time_stamp;
use crate::console::{addition_report, ids_from, sweep_log, sweep_logged, AppView, Export};
use crate::doc::figure;
use crate::host::{Host, HostView, MAX_SENT};
use crate::host_laws::law_mean_is_sum_over_count;
use crate::log::{entries, entry_of, logged, pushed, EntryView, LogEntry, LogLevel};
use crate::monitor::{
    active, all_paused, all_wf, any_running, at_id, collected, count, edited, failing,
    fastest_first, is_monitored, kept, latency_key, lemma_kept, lemma_used_slots, lowest_free,
    offline, online, ref_views, slot_used, timed_out, Edit, Monitor, MonitorView,
};
use crate::number::number;
use crate::order::Ranked;
use crate::session::law_new_slot_is_lowest;
use crate::stats::{hits, total};
use crate::text::decimal;
use crate::worker::{
    answer_level, answer_message, changed, has_id, has_room, host_of, lookup_error, next_step,
    socket_error, Answer, Lookup, Step, Worker, WorkerView,
};

verus! {

// ---------------------------------------------------------------------------
// Adding
// ---------------------------------------------------------------------------

/// A name is monitored where some host that is not removed is called so.
pub proof fn law_monitored_names(hosts: Seq<HostView>, name: Seq<char>)
    ensures
        is_monitored(hosts, name) <==> hosts.filter(
            |h: HostView| !h.removed && h.name == name,
        ).len() > 0,
{
    let called = |h: HostView| !h.removed && h.name == name;
    let some = hosts.filter(called);
    if is_monitored(hosts, name) {
        let i = choose|i: int|
            0 <= i < hosts.len() && !(#[trigger] hosts[i]).removed && hosts[i].name == name;
        assert(called(hosts[i]));
        assert(some.contains(hosts[i]));
    }
    if some.len() > 0 {
        assert(called(some[0]));
        lemma_filter_member(hosts, called, 0);
        let i = choose|i: int| 0 <= i < hosts.len() && hosts[i] == some[0];
        assert(!hosts[i].removed && hosts[i].name == name);
    }
}

/// What a filter lets through comes from the sequence.
proof fn lemma_filter_member(hosts: Seq<HostView>, p: spec_fn(HostView) -> bool, k: int)
    requires
        0 <= k < hosts.filter(p).len(),
    ensures
        hosts.contains(hosts.filter(p)[k]),
    decreases hosts.len(),
{
    reveal(Seq::filter);
    if hosts.len() > 0 {
        let front = hosts.drop_last();
        if k < front.filter(p).len() {
            lemma_filter_member(front, p, k);
            let i = choose|i: int| 0 <= i < front.len() && front[i] == front.filter(p)[k];
            assert(hosts[i] == hosts.filter(p)[k]);
        } else {
            assert(hosts[hosts.len() - 1] == hosts.filter(p)[k]);
        }
    }
}

/// Adding a name that is not empty and that no active host has adds one host
/// behind all others: idle, running, visible, without address and pings, with
/// the next number, the given interval and the lowest slot that no active host
/// has. Adding any other name changes nothing.
pub proof fn law_addition(m: MonitorView, name: Seq<char>, interval_ms: u64)
    requires
        m.next_id <= usize::MAX,
        m.hosts.len() <= usize::MAX,
    ensures
        ({
            let after = m.added(name, interval_ms);
            let fresh = after.hosts.last();
            let taken = exists|i: int|
                0 <= i < m.hosts.len() && !(#[trigger] m.hosts[i]).removed && m.hosts[i].name
                    == name;
            if name.len() > 0 && !taken {
                &&& after.next_id == m.next_id + 1
                &&& after.hosts == m.hosts.push(fresh)
                &&& fresh.id == m.next_id
                &&& fresh.name == name
                &&& fresh.interval_ms == interval_ms
                &&& fresh.ip is None
                &&& fresh.status is Idle
                &&& !fresh.paused && !fresh.removed && fresh.visible
                &&& fresh.time_origin == 0
                &&& fresh.history.len() == 0
                &&& forall|i: int|
                    0 <= i < m.hosts.len() && !(#[trigger] m.hosts[i]).removed
                        ==> m.hosts[i].color_idx != fresh.color_idx
                &&& forall|s: int|
                    0 <= s < fresh.color_idx ==> #[trigger] slot_used(m.hosts, s)
            } else {
                after == m
            }
        }),
{
    law_new_slot_is_lowest(m.hosts);
    let slot = lowest_free(m.hosts);
    lemma_used_slots(m.hosts, slot as nat);
    assert forall|i: int| 0 <= i < m.hosts.len() && !(#[trigger] m.hosts[i]).removed implies m.hosts[i].color_idx
        != slot by {
        assert(!slot_used(m.hosts, slot));
    }
}

/// A slot is used where an active host has it.
pub proof fn law_used_slots(hosts: Seq<HostView>, slot: int)
    ensures
        slot_used(hosts, slot) <==> exists|i: int|
            0 <= i < hosts.len() && !(#[trigger] hosts[i]).removed && hosts[i].color_idx == slot,
{
}

/// Adding names one by one is adding the first ones and then the rest.
pub proof fn law_sweep_adds_in_turn(
    m: MonitorView,
    names: Seq<Seq<char>>,
    name: Seq<char>,
    interval_ms: u64,
)
    ensures
        m.added_all(Seq::empty(), interval_ms) == m,
        m.added_all(names.push(name), interval_ms) == m.added_all(names, interval_ms).added(
            name,
            interval_ms,
        ),
{
    assert(names.push(name).drop_last() =~= names);
}

/// A sweep writes one line for each host that it adds, in turn, and none for a
/// name that is empty or already monitored.
pub proof fn law_sweep_logs_additions(
    m: MonitorView,
    log: Seq<EntryView>,
    names: Seq<Seq<char>>,
    name: Seq<char>,
    interval_ms: u64,
    times: Seq<Seq<char>>,
    time: Seq<char>,
)
    requires
        times.len() == names.len(),
    ensures
        sweep_log(m, log, Seq::empty(), interval_ms, Seq::empty()) == log,
        ({
            let before = m.added_all(names, interval_ms);
            let so_far = sweep_log(m, log, names, interval_ms, times);
            let now = sweep_log(m, log, names.push(name), interval_ms, times.push(time));
            let line = EntryView {
                time,
                host: name,
                msg: "Host added  interval="@ + decimal(interval_ms as nat) + "ms"@,
                level: LogLevel::Info,
            };
            if before.added(name, interval_ms).hosts.len() > before.hosts.len() {
                now == pushed(so_far, line)
            } else {
                now == so_far
            }
        }),
{
    assert(names.push(name).drop_last() =~= names);
    assert(times.push(time).drop_last() =~= times);
}

/// The numbers of the hosts from a place on.
pub proof fn law_numbers_from(hosts: Seq<HostView>, from: int, k: int)
    requires
        0 <= from <= hosts.len(),
        0 <= k < hosts.len() - from,
    ensures
        ids_from(hosts, from).len() == hosts.len() - from,
        ids_from(hosts, from)[k] == hosts[from + k].id,
{
}

/// An addition is reported in the status bar: its number where a host was added,
/// and the name where it is already monitored. An empty name is not reported.
/// Nothing else of the controls changes.
pub proof fn law_additions_are_reported(app: AppView, m: MonitorView, name: Seq<char>)
    ensures
        ({
            let after = addition_report(app, m, name);
            let taken = exists|i: int|
                0 <= i < m.hosts.len() && !(#[trigger] m.hosts[i]).removed && m.hosts[i].name
                    == name;
            &&& after == (AppView { status_bar: after.status_bar, ..app })
            &&& name.len() == 0 ==> after.status_bar == app.status_bar
            &&& name.len() > 0 && taken ==> after.status_bar == "'"@ + name
                + "' is already being monitored."@
            &&& name.len() > 0 && !taken ==> after.status_bar == "Added host #"@ + decimal(
                m.next_id,
            ) + "."@
        }),
{
}

/// A message changes the status bar alone.
pub proof fn law_messages_change_the_status_bar(app: AppView, message: Seq<char>)
    ensures
        app.reporting(message).status_bar == message,
        app.reporting(message) == (AppView { status_bar: message, ..app }),
{
}

/// What is said of a file that was written, and of one that was not.
pub proof fn law_export_messages(kind: Export)
    ensures
        kind == Export::Log ==> kind.saved() == "✓ Log saved → "@,
        kind == Export::Stats ==> kind.saved() == "✓ Stats saved → "@,
        kind == Export::Report ==> kind.saved() == "✓ Report saved → "@,
        kind == Export::Report ==> kind.failed() == "✕ Report failed: "@,
        kind != Export::Report ==> kind.failed() == "✕ Export failed: "@,
{
}

// ---------------------------------------------------------------------------
// Changing and dropping
// ---------------------------------------------------------------------------

/// A change to the host with a number changes that host as it says, and leaves
/// all others and their order.
pub proof fn law_change_reaches_its_host(
    m: MonitorView,
    id: usize,
    f: spec_fn(HostView) -> HostView,
)
    ensures
        at_id(m.hosts, id, f).len() == m.hosts.len(),
        forall|i: int|
            0 <= i < m.hosts.len() ==> #[trigger] at_id(m.hosts, id, f)[i] == (if m.hosts[i].id
                == id {
                f(m.hosts[i])
            } else {
                m.hosts[i]
            }),
        changed(m, id, f).hosts == at_id(m.hosts, id, f),
        changed(m, id, f).next_id == m.next_id,
{
}

/// Changes are made one after the other.
pub proof fn law_edits_in_turn(
    hosts: Seq<HostView>,
    edits: Seq<(usize, Edit)>,
    id: usize,
    edit: Edit,
)
    ensures
        edited(hosts, Seq::empty()) == hosts,
        edited(hosts, edits.push((id, edit))) == at_id(
            edited(hosts, edits),
            id,
            |h: HostView| edit.apply(h),
        ),
{
    assert(edits.push((id, edit)).drop_last() =~= edits);
}

/// Pausing all hosts, or letting all run, changes nothing else.
pub proof fn law_pausing_reaches_all(hosts: Seq<HostView>, paused: bool)
    ensures
        all_paused(hosts, paused).len() == hosts.len(),
        forall|i: int|
            0 <= i < hosts.len() ==> #[trigger] all_paused(hosts, paused)[i] == (HostView {
                paused,
                ..hosts[i]
            }),
        any_running(hosts) <==> !(forall|i: int|
            0 <= i < hosts.len() ==> (#[trigger] hosts[i]).paused || hosts[i].removed),
{
}

/// The hosts that are kept are those that are not removed, in order.
pub proof fn law_kept_are_not_removed(hosts: Seq<HostView>)
    ensures
        kept(hosts) == hosts.filter(|h: HostView| !h.removed),
    decreases hosts.len(),
{
    reveal(Seq::filter);
    if hosts.len() > 0 {
        law_kept_are_not_removed(hosts.drop_last());
    }
    assert(kept(hosts) =~= hosts.filter(|h: HostView| !h.removed));
}

/// What is kept of a host rests on its removal alone: hiding or pausing hosts
/// drops none.
pub proof fn law_keeping_ignores_the_rest(hosts: Seq<HostView>, others: Seq<HostView>)
    requires
        hosts.len() == others.len(),
        forall|i: int|
            0 <= i < hosts.len() ==> (#[trigger] hosts[i]).removed == (
            #[trigger] others[i]).removed,
    ensures
        kept(hosts).len() == kept(others).len(),
        collected(hosts).len() == collected(others).len(),
    decreases hosts.len(),
{
    lemma_kept(hosts);
    lemma_kept(others);
    if hosts.len() > 0 {
        let n = hosts.len() - 1;
        assert(hosts[n].removed == others[n].removed);
        assert forall|i: int| 0 <= i < n implies (#[trigger] hosts.drop_last()[i]).removed == (
        #[trigger] others.drop_last()[i]).removed by {
            assert(hosts[i].removed == others[i].removed);
        }
        law_keeping_ignores_the_rest(hosts.drop_last(), others.drop_last());
    }
}

/// Where no host is removed, a collection changes nothing; otherwise it leaves
/// the hosts that are not removed, in order, with their slots counted anew.
pub proof fn law_collection_keeps_the_others(hosts: Seq<HostView>)
    requires
        hosts.len() <= usize::MAX,
    ensures
        ({
            let left = hosts.filter(|h: HostView| !h.removed);
            let after = collected(hosts);
            &&& after.len() == left.len()
            &&& left.len() == hosts.len() ==> after == hosts
            &&& left.len() < hosts.len() ==> forall|k: int|
                0 <= k < left.len() ==> #[trigger] after[k] == (HostView {
                    color_idx: k as usize,
                    ..left[k]
                })
        }),
{
    law_kept_are_not_removed(hosts);
    lemma_kept(hosts);
}

/// The counts of the summary.
pub proof fn law_counts_of_states(hosts: Seq<HostView>)
    ensures
        count(hosts, active()) == hosts.filter(|h: HostView| !h.removed).len(),
        count(hosts, online()) == hosts.filter(|h: HostView| !h.removed && h.status is Online).len(),
        count(hosts, timed_out()) == hosts.filter(
            |h: HostView| !h.removed && h.status is Timeout,
        ).len(),
        count(hosts, failing()) == hosts.filter(
            |h: HostView| !h.removed && h.status is Error,
        ).len(),
        count(hosts, offline()) == hosts.filter(
            |h: HostView| !h.removed && !(h.status is Online),
        ).len(),
    decreases hosts.len(),
{
    reveal(Seq::filter);
    if hosts.len() > 0 {
        law_counts_of_states(hosts.drop_last());
    }
}

// ---------------------------------------------------------------------------
// Order
// ---------------------------------------------------------------------------

/// The host that stands first of two has the smaller mean over all its answers,
/// or the same one and the earlier place; and no host without answers stands
/// before one with answers.
pub proof fn law_smaller_mean_first(hosts: Seq<HostView>, places: Seq<usize>, j: int, k: int)
    requires
        fastest_first(hosts, places),
        0 <= j < k < places.len(),
        forall|i: int| 0 <= i < hosts.len() ==> (#[trigger] hosts[i]).history.len() <= MAX_SENT,
    ensures
        ({
            let a = hits(hosts[places[j] as int].history);
            let b = hits(hosts[places[k] as int].history);
            &&& b.len() > 0 ==> a.len() > 0
            &&& a.len() > 0 && b.len() > 0 ==> total(a) * b.len() <= total(b) * a.len()
            &&& a.len() > 0 && b.len() > 0 && total(a) * b.len() == total(b) * a.len()
                ==> places[j] < places[k]
            &&& a.len() == 0 && b.len() == 0 ==> places[j] < places[k]
        }),
{
    let g = hosts[places[j] as int];
    let h = hosts[places[k] as int];
    let a = hits(g.history);
    let b = hits(h.history);
    assert(places[j] < hosts.len() && places[k] < hosts.len());
    assert(places[j] != places[k]);
    assert(latency_key(hosts, places[j] as int).ranks(latency_key(hosts, places[k] as int)));
    law_mean_is_sum_over_count(g);
    law_mean_is_sum_over_count(h);
    if a.len() > 0 && b.len() > 0 {
        let x = g.avg_rtt()->0;
        let y = h.avg_rtt()->0;
        lemma_compare_quotients(
            x.num as int,
            x.den as int,
            y.num as int,
            y.den as int,
            total(a) as int,
            a.len() as int,
            total(b) as int,
            b.len() as int,
        );
    }
}

/// Equal quotients compare alike.
proof fn lemma_compare_quotients(
    x: int,
    xd: int,
    y: int,
    yd: int,
    s: int,
    sd: int,
    t: int,
    td: int,
)
    requires
        0 < xd,
        0 < yd,
        0 < sd,
        0 < td,
        x * sd == s * xd,
        y * td == t * yd,
    ensures
        x * yd < y * xd <==> s * td < t * sd,
        x * yd == y * xd <==> s * td == t * sd,
{
    let l = x * yd - y * xd;
    let r = s * td - t * sd;
    let p = sd * td;
    let q = xd * yd;
    assert((x * yd) * p == (x * sd) * (yd * td)) by (nonlinear_arith)
        requires
            p == sd * td,
    ;
    assert((s * td) * q == (s * xd) * (yd * td)) by (nonlinear_arith)
        requires
            q == xd * yd,
    ;
    assert((y * xd) * p == (y * td) * (xd * sd)) by (nonlinear_arith)
        requires
            p == sd * td,
    ;
    assert((t * sd) * q == (t * yd) * (xd * sd)) by (nonlinear_arith)
        requires
            q == xd * yd,
    ;
    assert(l * p == (x * yd) * p - (y * xd) * p) by (nonlinear_arith)
        requires
            l == x * yd - y * xd,
    ;
    assert(r * q == (s * td) * q - (t * sd) * q) by (nonlinear_arith)
        requires
            r == s * td - t * sd,
    ;
    assert(0 < sd * td && 0 < xd * yd) by (nonlinear_arith)
        requires
            0 < xd,
            0 < yd,
            0 < sd,
            0 < td,
    ;
    assert(l < 0 <==> r < 0) by (nonlinear_arith)
        requires
            l * p == r * q,
            0 < p,
            0 < q,
    ;
    assert(l == 0 <==> r == 0) by (nonlinear_arith)
        requires
            l * p == r * q,
            0 < p,
            0 < q,
    ;
}

/// All hosts that are not removed are shown, each once, and no other.
pub proof fn law_all_active_hosts_are_shown(hosts: Seq<HostView>, places: Seq<usize>)
    requires
        fastest_first(hosts, places),
        hosts.len() <= usize::MAX,
    ensures
        forall|i: int|
            0 <= i < hosts.len() ==> (!(#[trigger] hosts[i]).removed <==> places.contains(
                i as usize,
            )),
        forall|j: int, k: int| 0 <= j < k < places.len() ==> places[j] != places[k],
        forall|k: int| 0 <= k < places.len() ==> #[trigger] places[k] < hosts.len(),
{
    assert forall|i: int| 0 <= i < hosts.len() implies (!(#[trigger] hosts[i]).removed
        <==> places.contains(i as usize)) by {
        if places.contains(i as usize) {
            let k = choose|k: int| 0 <= k < places.len() && places[k] == i as usize;
            assert(!hosts[places[k] as int].removed);
        }
    }
}

// ---------------------------------------------------------------------------
// Workers
// ---------------------------------------------------------------------------

/// A worker stops where its host is gone or removed, waits a tenth of a second
/// while it is paused, and otherwise pings it with its next sequence number.
pub proof fn law_worker_follows_its_host(m: MonitorView, w: WorkerView, i: int)
    requires
        m.wf(),
        0 <= i < m.hosts.len(),
        m.hosts[i].id == w.id,
    ensures
        host_of(m.hosts, w.id) == m.hosts[i],
        m.hosts[i].removed ==> next_step(m.hosts, w) == Step::Stop,
        !m.hosts[i].removed && m.hosts[i].paused ==> next_step(m.hosts, w) == Step::Sleep(
            100_000_000,
        ),
        !m.hosts[i].removed && !m.hosts[i].paused ==> next_step(m.hosts, w) == Step::Ping(w.seq),
{
    let j = choose|j: int| 0 <= j < m.hosts.len() && (#[trigger] m.hosts[j]).id == w.id;
    assert(m.hosts[i].id == w.id);
    if i < j {
        assert(m.hosts[i].id != m.hosts[j].id);
    } else if j < i {
        assert(m.hosts[j].id != m.hosts[i].id);
    }
}

/// A worker without a host stops.
pub proof fn law_worker_without_host_stops(hosts: Seq<HostView>, w: WorkerView)
    requires
        forall|i: int| 0 <= i < hosts.len() ==> (#[trigger] hosts[i]).id != w.id,
    ensures
        !has_id(hosts, w.id),
        next_step(hosts, w) == Step::Stop,
{
}

/// What is logged of a ping that ended: the address, the sequence number and the
/// round-trip time of a reply, the sequence number of a lost ping, and the words
/// of a failure; each on a level of its own.
pub proof fn law_ended_pings_are_logged(w: WorkerView, answer: Answer)
    ensures
        match answer {
            Answer::Reply(rtt) => answer_level(answer) == LogLevel::Good && answer_message(
                w,
                answer,
            ) == "Reply from "@ + w.address + "  seq="@ + decimal(w.seq as nat) + "  rtt="@
                + figure(number(0, 1, rtt as int, 1_000_000), 2) + " ms"@,
            Answer::Timeout => answer_level(answer) == LogLevel::Warn && answer_message(w, answer)
                == "Request timeout  seq="@ + decimal(w.seq as nat),
            Answer::Failed(e) => answer_level(answer) == LogLevel::Bad && answer_message(w, answer)
                == "Error: "@ + e@,
        },
{
}

/// What is said of a name that has no address, and of a socket that does not
/// open.
pub proof fn law_failures_are_named(lookup: Lookup, e: Seq<char>)
    ensures
        match lookup {
            Lookup::Found(_) => lookup_error(lookup) is None,
            Lookup::Nothing => lookup_error(lookup) == Some("DNS error: no addresses returned"@),
            Lookup::Failed(words) => lookup_error(lookup) == Some("DNS error: "@ + words@),
        },
        socket_error(e) == "Socket error: "@ + e + "  →  Run as Administrator"@,
{
}

/// There is room for a ping of a host while it was pinged less often than can be
/// counted.
pub proof fn law_room_for_pings(m: MonitorView, id: usize, i: int)
    requires
        m.wf(),
        0 <= i < m.hosts.len(),
        m.hosts[i].id == id,
    ensures
        has_room(m.hosts, id) <==> m.hosts[i].history.len() < 0x7fff_ffff_ffff_ffff,
{
    assert forall|j: int| 0 <= j < m.hosts.len() && (#[trigger] m.hosts[j]).id == id implies j
        == i by {
        if j < i {
            assert(m.hosts[j].id != m.hosts[i].id);
        } else if i < j {
            assert(m.hosts[i].id != m.hosts[j].id);
        }
    }
}

// ---------------------------------------------------------------------------
// Logging
// ---------------------------------------------------------------------------

/// Logging adds one line behind all others, which stay as they were but for the
/// oldest one of 5000: with a time of day, and the given host, message and level.
pub proof fn law_logging(
    before: Seq<LogEntry>,
    after: Seq<LogEntry>,
    host: Seq<char>,
    msg: Seq<char>,
    level: LogLevel,
)
    requires
        logged(before, after, host, msg, level),
    ensures
        after.len() == (if before.len() < 5000 {
            before.len() + 1
        } else {
            before.len()
        }),
        after.last().host@ == host,
        after.last().msg@ == msg,
        after.last().level == level,
        is_time_stamp(after.last().time@),
        before.len() < 5000 ==> forall|i: int|
            0 <= i < before.len() ==> (#[trigger] after[i])@ == before[i]@,
        before.len() >= 5000 ==> forall|i: int|
            0 <= i < before.len() - 1 ==> (#[trigger] after[i])@ == before[i + 1]@,
{
    let time = choose|time: Seq<char>|
        is_time_stamp(time) && entries(after) == pushed(
            entries(before),
            #[trigger] entry_of(time, host, msg, level),
        );
    let all = entries(after);
    assert(all.len() == after.len());
    assert(all.last() == after.last()@);
    assert forall|i: int| 0 <= i < before.len() && before.len() < 5000 implies (
    #[trigger] after[i])@ == before[i]@ by {
        assert(all[i] == after[i]@);
        assert(entries(before)[i] == before[i]@);
    }
    assert forall|i: int| 0 <= i < before.len() - 1 && before.len() >= 5000 implies (
    #[trigger] after[i])@ == before[i + 1]@ by {
        assert(all[i] == after[i]@);
        assert(entries(before)[i + 1] == before[i + 1]@);
    }
}

/// While there is room, a sweep adds as many lines as hosts, and keeps the lines
/// before them.
pub proof fn law_sweep_logs_each_host_once(
    m: MonitorView,
    before: Seq<LogEntry>,
    after: Seq<LogEntry>,
    names: Seq<Seq<char>>,
    interval_ms: u64,
)
    requires
        sweep_logged(m, before, after, names, interval_ms),
        before.len() + names.len() <= 5000,
    ensures
        after.len() - before.len() == m.added_all(names, interval_ms).hosts.len() - m.hosts.len(),
        before.len() <= after.len(),
        forall|i: int| 0 <= i < before.len() ==> (#[trigger] after[i])@ == before[i]@,
        forall|i: int|
            before.len() <= i < after.len() ==> (#[trigger] after[i]).level == LogLevel::Info
                && names.contains(after[i].host@) && is_time_stamp(after[i].time@),
{
    let times = choose|times: Seq<Seq<char>>|
        times.len() == names.len() && (forall|i: int|
            0 <= i < times.len() ==> is_time_stamp(#[trigger] times[i])) && entries(after)
            == #[trigger] sweep_log(m, entries(before), names, interval_ms, times);
    lemma_sweep_log(m, entries(before), names, interval_ms, times);
    let all = entries(after);
    assert(all.len() == after.len() && entries(before).len() == before.len());
    assert forall|i: int| 0 <= i < before.len() implies (#[trigger] after[i])@ == before[i]@ by {
        assert(all[i] == after[i]@);
        assert(entries(before)[i] == before[i]@);
    }
    assert forall|i: int| before.len() <= i < after.len() implies (#[trigger] after[i]).level
        == LogLevel::Info && names.contains(after[i].host@) && is_time_stamp(after[i].time@) by {
        assert(all[i] == after[i]@);
    }
}

proof fn lemma_sweep_log(
    m: MonitorView,
    log: Seq<EntryView>,
    names: Seq<Seq<char>>,
    interval_ms: u64,
    times: Seq<Seq<char>>,
)
    requires
        times.len() == names.len(),
        forall|i: int| 0 <= i < times.len() ==> is_time_stamp(#[trigger] times[i]),
        log.len() + names.len() <= 5000,
    ensures
        ({
            let all = sweep_log(m, log, names, interval_ms, times);
            &&& all.len() - log.len() == m.added_all(names, interval_ms).hosts.len()
                - m.hosts.len()
            &&& log.len() <= all.len() <= log.len() + names.len()
            &&& forall|i: int| 0 <= i < log.len() ==> #[trigger] all[i] == log[i]
            &&& forall|i: int|
                log.len() <= i < all.len() ==> (#[trigger] all[i]).level == LogLevel::Info
                    && names.contains(all[i].host) && is_time_stamp(all[i].time)
        }),
    decreases names.len(),
{
    if names.len() > 0 {
        let front = names.drop_last();
        let early = times.drop_last();
        let name = names.last();
        assert forall|i: int| 0 <= i < early.len() implies is_time_stamp(#[trigger] early[i]) by {
            assert(early[i] == times[i]);
        }
        assert(is_time_stamp(times[times.len() - 1]));
        lemma_sweep_log(m, log, front, interval_ms, early);
        let some = sweep_log(m, log, front, interval_ms, early);
        let all = sweep_log(m, log, names, interval_ms, times);
        assert(names[names.len() - 1] == name);
        assert forall|i: int| log.len() <= i < all.len() implies (#[trigger] all[i]).level
            == LogLevel::Info && names.contains(all[i].host) && is_time_stamp(all[i].time) by {
            if i < some.len() {
                assert(all[i] == some[i]);
                let k = choose|k: int| 0 <= k < front.len() && front[k] == some[i].host;
                assert(names[k] == some[i].host);
            }
        }
    }
}

// ---------------------------------------------------------------------------
// Views
// ---------------------------------------------------------------------------

/// What is known of a monitor, of its hosts and of a worker is what they hold.
pub proof fn law_views_show_what_is_held(m: Monitor, h: Host, w: Worker, i: int)
    requires
        0 <= i < m.hosts@.len(),
    ensures
        m@.next_id == m.next_id,
        m@.hosts.len() == m.hosts@.len(),
        m@.hosts[i] == m.hosts@[i]@,
        h@.id == h.id && h@.name == h.name@ && h@.status == h.status@,
        h@.ip is Some <==> h.ip is Some,
        h.ip is Some ==> h@.ip->0.text == h.ip->0.text@ && h@.ip->0.v6 == h.ip->0.v6,
        h@.interval_ms == h.interval_ms && h@.time_origin == h.time_origin,
        h@.paused == h.paused && h@.removed == h.removed && h@.visible == h.visible,
        h@.color_idx == h.color_idx && h@.history == h.history@,
        w@.id == w.id && w@.name == w.name@ && w@.address == w.address@ && w@.seq == w.seq
            && w@.interval_ms == w.interval_ms,
{
}

/// References to hosts show the hosts.
pub proof fn law_references_show_hosts(hosts: Seq<&Host>, i: int)
    requires
        0 <= i < hosts.len(),
    ensures
        ref_views(hosts).len() == hosts.len(),
        ref_views(hosts)[i] == hosts[i]@,
        all_wf(hosts) ==> hosts[i].wf(),
{
}

} // verus!
