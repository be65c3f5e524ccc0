//! What holds of the monitored hosts and of their workers.

use vstd::prelude::*;

use crate::chart::{cross, crosses, miss_points};
use crate::host::HostView;
use crate::monitor::{
    active, all_paused, any_running, at_id, collected, count, failing, is_lowest_free, is_monitored,
    kept, law_addition_keeps_order, law_collection_keeps_order, lemma_kept, lemma_wf_kept,
    lowest_free, offline, online, slot_used, timed_out, Edit, MonitorView,
};
use crate::number::NANOS_PER_MS;
use crate::palette::law_chart_colours_distinct;
use crate::panel::host_series;
use crate::stats::Sample;
use crate::worker::{
    answered_host, has_id, host_of, next_step, rest_of_interval, Answer, Step, WorkerView,
    PAUSE_NANOS,
};

verus! {

// ---------------------------------------------------------------------------
// Adding hosts
// ---------------------------------------------------------------------------

/// A name that was added is monitored.
pub proof fn law_added_is_monitored(m: MonitorView, name: Seq<char>, interval_ms: u64)
    requires
        name.len() > 0,
    ensures
        is_monitored(m.added(name, interval_ms).hosts, name),
{
    if m.adds(name) {
        let hosts = m.added(name, interval_ms).hosts;
        assert(!hosts[m.hosts.len() as int].removed);
    }
}

/// Adding a name twice is adding it once.
pub proof fn law_adding_twice(m: MonitorView, name: Seq<char>, first: u64, second: u64)
    ensures
        m.added(name, first).added(name, second) == m.added(name, first),
{
    if name.len() > 0 {
        law_added_is_monitored(m, name, first);
    }
}

/// Adding a name leaves the other hosts as they are, and gives the new one a
/// number that no host had.
pub proof fn law_adding_keeps_hosts(m: MonitorView, name: Seq<char>, interval_ms: u64)
    requires
        m.wf(),
        m.next_id <= usize::MAX,
    ensures
        m.added(name, interval_ms).hosts.take(m.hosts.len() as int) == m.hosts,
        m.adds(name) ==> m.added(name, interval_ms).hosts.last().id == m.next_id && !has_id(
            m.hosts,
            m.added(name, interval_ms).hosts.last().id,
        ),
{
    assert(m.added(name, interval_ms).hosts.take(m.hosts.len() as int) =~= m.hosts);
}

/// A monitored name stays monitored when others are added.
proof fn lemma_added_keeps_monitored(
    m: MonitorView,
    name: Seq<char>,
    other: Seq<char>,
    interval_ms: u64,
)
    requires
        is_monitored(m.hosts, name),
    ensures
        is_monitored(m.added(other, interval_ms).hosts, name),
{
    let i = choose|i: int|
        0 <= i < m.hosts.len() && !(#[trigger] m.hosts[i]).removed && m.hosts[i].name == name;
    assert(m.added(other, interval_ms).hosts[i] == m.hosts[i]);
}

/// After a sweep every one of its targets is monitored, and the hosts from
/// before are as they were.
pub proof fn law_sweep_monitors_all(m: MonitorView, names: Seq<Seq<char>>, interval_ms: u64)
    requires
        forall|i: int| 0 <= i < names.len() ==> (#[trigger] names[i]).len() > 0,
    ensures
        forall|i: int|
            0 <= i < names.len() ==> is_monitored(
                m.added_all(names, interval_ms).hosts,
                #[trigger] names[i],
            ),
        m.hosts.len() <= m.added_all(names, interval_ms).hosts.len() <= m.hosts.len() + names.len(),
        m.added_all(names, interval_ms).hosts.take(m.hosts.len() as int) == m.hosts,
    decreases names.len(),
{
    if names.len() == 0 {
        assert(m.hosts.take(m.hosts.len() as int) =~= m.hosts);
    } else {
        let front = names.drop_last();
        let before = m.added_all(front, interval_ms);
        let after = m.added_all(names, interval_ms);
        assert forall|i: int| 0 <= i < front.len() implies (#[trigger] front[i]).len() > 0 by {
            assert(front[i] == names[i]);
        }
        law_sweep_monitors_all(m, front, interval_ms);
        assert(names[names.len() - 1].len() > 0);
        law_added_is_monitored(before, names.last(), interval_ms);
        assert forall|i: int| 0 <= i < names.len() implies is_monitored(
            after.hosts,
            #[trigger] names[i],
        ) by {
            if i < front.len() {
                assert(is_monitored(before.hosts, front[i]));
                lemma_added_keeps_monitored(before, front[i], names.last(), interval_ms);
            }
        }
        assert(after.hosts.take(m.hosts.len() as int) =~= before.hosts.take(m.hosts.len() as int));
    }
}

/// A removed host frees its name.
pub proof fn law_removal_frees_the_name(m: MonitorView, i: int)
    requires
        m.wf(),
        0 <= i < m.hosts.len(),
        !m.hosts[i].removed,
    ensures
        !is_monitored(
            at_id(m.hosts, m.hosts[i].id, |h: HostView| Edit::Remove.apply(h)),
            m.hosts[i].name,
        ),
{
    let f = |h: HostView| Edit::Remove.apply(h);
    let after = at_id(m.hosts, m.hosts[i].id, f);
    assert forall|j: int| 0 <= j < after.len() && !(#[trigger] after[j]).removed implies after[j].name
        != m.hosts[i].name by {
        assert(after[j] == m.hosts[j]);
        assert(j != i);
        if j < i {
            assert(m.hosts[j].name != m.hosts[i].name);
        } else {
            assert(m.hosts[i].name != m.hosts[j].name);
        }
    }
}

// ---------------------------------------------------------------------------
// Numbers, names and slots
// ---------------------------------------------------------------------------

/// What can happen to the hosts of a session.
pub enum Change {
    /// A name is added, at an interval.
    Add(Seq<char>, u64),
    /// The names of a sweep are added, at an interval.
    Sweep(Seq<Seq<char>>, u64),
    /// The host with a number is changed.
    Edit(usize, Edit),
    /// The hosts that are not online are removed.
    RemoveOffline,
    /// All hosts are removed.
    RemoveAll,
    /// The removed hosts are dropped.
    Collect,
}

impl Change {
    /// The monitor after the change.
    pub open spec fn apply(self, m: MonitorView) -> MonitorView {
        match self {
            Change::Add(name, interval_ms) => m.added(name, interval_ms),
            Change::Sweep(names, interval_ms) => m.added_all(names, interval_ms),
            Change::Edit(id, edit) => MonitorView {
                hosts: at_id(m.hosts, id, |h: HostView| edit.apply(h)),
                ..m
            },
            Change::RemoveOffline => MonitorView {
                hosts: m.hosts.map_values(
                    |h: HostView| HostView { removed: h.removed || !(h.status is Online), ..h },
                ),
                ..m
            },
            Change::RemoveAll => MonitorView {
                hosts: m.hosts.map_values(|h: HostView| HostView { removed: true, ..h }),
                ..m
            },
            Change::Collect => MonitorView { hosts: collected(m.hosts), ..m },
        }
    }
}

/// The monitor of a session that has just begun.
pub open spec fn first_monitor() -> MonitorView {
    MonitorView { hosts: Seq::empty(), next_id: 1 }
}

/// The monitor of a session in which these changes were made.
pub open spec fn monitor_after(changes: Seq<Change>) -> MonitorView
    decreases changes.len(),
{
    if changes.len() == 0 {
        first_monitor()
    } else {
        changes.last().apply(monitor_after(changes.drop_last()))
    }
}

/// A sweep keeps the invariant, gives out no number again, and adds no more
/// hosts than it gives out numbers.
proof fn lemma_sweep_keeps_order(m: MonitorView, names: Seq<Seq<char>>, interval_ms: u64)
    requires
        m.wf(),
        m.hosts.len() < m.next_id,
        m.added_all(names, interval_ms).next_id <= usize::MAX,
    ensures
        m.added_all(names, interval_ms).wf(),
        m.next_id <= m.added_all(names, interval_ms).next_id,
        m.added_all(names, interval_ms).hosts.len() < m.added_all(names, interval_ms).next_id,
    decreases names.len(),
{
    if names.len() > 0 {
        let before = m.added_all(names.drop_last(), interval_ms);
        lemma_sweep_keeps_order(m, names.drop_last(), interval_ms);
        law_addition_keeps_order(before, names.last(), interval_ms);
    }
}

/// A change keeps the invariant, gives out no number again, and adds no more
/// hosts than it gives out numbers.
proof fn lemma_change_keeps_order(m: MonitorView, change: Change)
    requires
        m.wf(),
        m.hosts.len() < m.next_id,
        change.apply(m).next_id <= usize::MAX,
    ensures
        change.apply(m).wf(),
        m.next_id <= change.apply(m).next_id,
        change.apply(m).hosts.len() < change.apply(m).next_id,
{
    match change {
        Change::Add(name, interval_ms) => {
            law_addition_keeps_order(m, name, interval_ms);
        },
        Change::Sweep(names, interval_ms) => {
            lemma_sweep_keeps_order(m, names, interval_ms);
        },
        Change::Edit(_, _) => {
            lemma_wf_kept(m, change.apply(m));
        },
        Change::RemoveOffline => {
            lemma_wf_kept(m, change.apply(m));
        },
        Change::RemoveAll => {
            lemma_wf_kept(m, change.apply(m));
        },
        Change::Collect => {
            law_collection_keeps_order(m);
        },
    }
}

/// Numbers are only ever counted upwards.
proof fn lemma_change_counts_up(m: MonitorView, change: Change)
    ensures
        m.next_id <= change.apply(m).next_id,
{
    if let Change::Sweep(names, interval_ms) = change {
        lemma_sweep_counts_up(m, names, interval_ms);
    }
}

proof fn lemma_sweep_counts_up(m: MonitorView, names: Seq<Seq<char>>, interval_ms: u64)
    ensures
        m.next_id <= m.added_all(names, interval_ms).next_id,
    decreases names.len(),
{
    if names.len() > 0 {
        lemma_sweep_counts_up(m, names.drop_last(), interval_ms);
    }
}

proof fn lemma_session_keeps_order(changes: Seq<Change>)
    requires
        monitor_after(changes).next_id <= usize::MAX,
    ensures
        monitor_after(changes).wf(),
        monitor_after(changes).hosts.len() < monitor_after(changes).next_id,
    decreases changes.len(),
{
    if changes.len() > 0 {
        let before = monitor_after(changes.drop_last());
        lemma_change_counts_up(before, changes.last());
        lemma_session_keeps_order(changes.drop_last());
        lemma_change_keeps_order(before, changes.last());
    }
}

/// Whatever is added, changed, removed and dropped in a session, as long as its
/// numbers are not used up: all hosts have different numbers from 1 on, below
/// the one that is given out next, and the hosts that are not removed have
/// different names, none of them empty, and different palette slots.
pub proof fn law_hosts_stay_apart(changes: Seq<Change>)
    requires
        monitor_after(changes).next_id <= usize::MAX,
    ensures
        ({
            let m = monitor_after(changes);
            &&& forall|i: int| 0 <= i < m.hosts.len() ==> 1 <= (#[trigger] m.hosts[i]).id < m.next_id
            &&& forall|i: int, j: int|
                0 <= i < j < m.hosts.len() ==> (#[trigger] m.hosts[i]).id != (
                #[trigger] m.hosts[j]).id
            &&& forall|i: int|
                0 <= i < m.hosts.len() && !(#[trigger] m.hosts[i]).removed
                    ==> m.hosts[i].name.len() > 0
            &&& forall|i: int, j: int|
                0 <= i < j < m.hosts.len() && !(#[trigger] m.hosts[i]).removed && !(
                #[trigger] m.hosts[j]).removed ==> m.hosts[i].name != m.hosts[j].name
                    && m.hosts[i].color_idx != m.hosts[j].color_idx
        }),
{
    lemma_session_keeps_order(changes);
}

/// A number that was given out is never given out again: what is added later
/// has a higher one.
pub proof fn law_numbers_are_not_reused(changes: Seq<Change>, name: Seq<char>, interval_ms: u64)
    requires
        monitor_after(changes).next_id <= usize::MAX,
        monitor_after(changes).adds(name),
    ensures
        forall|k: int|
            0 <= k <= changes.len() ==> (#[trigger] monitor_after(changes.take(k))).next_id
                <= monitor_after(changes).added(name, interval_ms).hosts.last().id,
{
    assert forall|k: int| 0 <= k <= changes.len() implies (
    #[trigger] monitor_after(changes.take(k))).next_id <= monitor_after(changes).next_id by {
        lemma_session_counts_up(changes, k);
    }
}

proof fn lemma_session_counts_up(changes: Seq<Change>, k: int)
    requires
        0 <= k <= changes.len(),
    ensures
        monitor_after(changes.take(k)).next_id <= monitor_after(changes).next_id,
    decreases changes.len(),
{
    if k == changes.len() {
        assert(changes.take(k) =~= changes);
    } else {
        let front = changes.drop_last();
        assert(front.take(k) =~= changes.take(k));
        lemma_session_counts_up(front, k);
        lemma_change_counts_up(monitor_after(front), changes.last());
    }
}

// ---------------------------------------------------------------------------
// Palette slots
// ---------------------------------------------------------------------------

/// There is a lowest free slot: `slots` or one below it, where none above is
/// used.
proof fn lemma_lowest_free_exists(hosts: Seq<HostView>, from: int, room: nat)
    requires
        0 <= from,
        forall|s: int| 0 <= s < from ==> slot_used(hosts, s),
        !slot_used(hosts, from + room),
    ensures
        is_lowest_free(hosts, lowest_free(hosts)),
    decreases room,
{
    if slot_used(hosts, from) {
        assert(room > 0);
        lemma_lowest_free_exists(hosts, from + 1, (room - 1) as nat);
    } else {
        assert(is_lowest_free(hosts, from));
    }
}

/// The slot behind all palette slots of the hosts.
spec fn slot_behind(hosts: Seq<HostView>) -> int
    decreases hosts.len(),
{
    if hosts.len() == 0 {
        0
    } else {
        let rest = slot_behind(hosts.drop_last());
        if hosts.last().color_idx >= rest {
            hosts.last().color_idx + 1
        } else {
            rest
        }
    }
}

proof fn lemma_slot_behind(hosts: Seq<HostView>)
    ensures
        slot_behind(hosts) >= 0,
        forall|i: int| 0 <= i < hosts.len() ==> (#[trigger] hosts[i]).color_idx < slot_behind(hosts),
    decreases hosts.len(),
{
    if hosts.len() > 0 {
        let front = hosts.drop_last();
        lemma_slot_behind(front);
        assert forall|i: int| 0 <= i < hosts.len() implies (#[trigger] hosts[i]).color_idx
            < slot_behind(hosts) by {
            if i < front.len() {
                assert(front[i] == hosts[i]);
            }
        }
    }
}

/// A new host gets a slot that no other host has, and there is no lower one.
pub proof fn law_new_slot_is_lowest(hosts: Seq<HostView>)
    ensures
        is_lowest_free(hosts, lowest_free(hosts)),
{
    lemma_slot_behind(hosts);
    lemma_lowest_free_exists(hosts, 0, slot_behind(hosts) as nat);
}

/// A removed host frees its slot: the next host gets that one or a lower one.
pub proof fn law_removal_frees_the_slot(m: MonitorView, i: int)
    requires
        m.wf(),
        0 <= i < m.hosts.len(),
        !m.hosts[i].removed,
    ensures
        lowest_free(at_id(m.hosts, m.hosts[i].id, |h: HostView| Edit::Remove.apply(h)))
            <= m.hosts[i].color_idx,
{
    let f = |h: HostView| Edit::Remove.apply(h);
    let after = at_id(m.hosts, m.hosts[i].id, f);
    law_new_slot_is_lowest(after);
    if lowest_free(after) > m.hosts[i].color_idx {
        let slot = m.hosts[i].color_idx as int;
        assert(slot_used(after, slot));
        let j = choose|j: int|
            0 <= j < after.len() && !(#[trigger] after[j]).removed && after[j].color_idx == slot;
        assert(after[j] == m.hosts[j]);
        assert(j != i);
        if j < i {
            assert(m.hosts[j].color_idx != m.hosts[i].color_idx);
        } else {
            assert(m.hosts[i].color_idx != m.hosts[j].color_idx);
        }
    }
}

// ---------------------------------------------------------------------------
// Dropping removed hosts
// ---------------------------------------------------------------------------

/// Without removed hosts nothing is dropped.
proof fn lemma_kept_all(hosts: Seq<HostView>)
    requires
        forall|i: int| 0 <= i < hosts.len() ==> !(#[trigger] hosts[i]).removed,
    ensures
        kept(hosts) == hosts,
    decreases hosts.len(),
{
    if hosts.len() > 0 {
        let front = hosts.drop_last();
        assert forall|i: int| 0 <= i < front.len() implies !(#[trigger] front[i]).removed by {
            assert(front[i] == hosts[i]);
        }
        lemma_kept_all(front);
        assert(!hosts[hosts.len() - 1].removed);
        assert(kept(hosts) =~= hosts);
    } else {
        assert(kept(hosts) =~= hosts);
    }
}

/// No removed host is left, and the others keep their order and all but their
/// palette slots.
pub proof fn law_collection_drops_removed(hosts: Seq<HostView>)
    ensures
        collected(hosts).len() == kept(hosts).len(),
        forall|k: int|
            0 <= k < collected(hosts).len() ==> !(#[trigger] collected(hosts)[k]).removed
                && collected(hosts)[k] == (HostView {
                color_idx: collected(hosts)[k].color_idx,
                ..kept(hosts)[k]
            }),
        forall|i: int|
            0 <= i < hosts.len() && !(#[trigger] hosts[i]).removed ==> kept(hosts).contains(
                hosts[i],
            ),
{
    lemma_kept(hosts);
    assert forall|k: int| 0 <= k < collected(hosts).len() implies !(
    #[trigger] collected(hosts)[k]).removed by {
        assert(!kept(hosts)[k].removed);
    }
}

/// A second collection changes nothing.
pub proof fn law_collecting_twice(hosts: Seq<HostView>)
    ensures
        collected(collected(hosts)) == collected(hosts),
{
    law_collection_drops_removed(hosts);
    lemma_kept_all(collected(hosts));
}

/// Where any host was dropped, the others have the palette slots from 0 on
/// without a gap, and the next host gets the slot behind them.
pub proof fn law_collection_closes_gaps(hosts: Seq<HostView>)
    requires
        collected(hosts).len() < hosts.len() <= usize::MAX,
    ensures
        forall|k: int|
            0 <= k < collected(hosts).len() ==> (#[trigger] collected(hosts)[k]).color_idx == k,
        lowest_free(collected(hosts)) == collected(hosts).len(),
{
    let left = collected(hosts);
    lemma_kept(hosts);
    law_collection_drops_removed(hosts);
    assert(kept(hosts).len() != hosts.len());
    law_new_slot_is_lowest(left);
    let slot = lowest_free(left);
    assert forall|k: int| 0 <= k < left.len() implies slot_used(left, k) by {
        assert(!left[k].removed && left[k].color_idx == k);
    }
    if slot < left.len() {
        assert(slot_used(left, slot));
    }
    if slot > left.len() {
        assert(slot_used(left, left.len() as int));
        let k = choose|k: int|
            0 <= k < left.len() && !(#[trigger] left[k]).removed && left[k].color_idx == left.len();
        assert(left[k].color_idx == k);
    }
}

/// After all hosts were removed none is left.
pub proof fn law_remove_all_leaves_none(hosts: Seq<HostView>)
    ensures
        kept(hosts.map_values(|h: HostView| HostView { removed: true, ..h })) == Seq::<
            HostView,
        >::empty(),
    decreases hosts.len(),
{
    let f = |h: HostView| HostView { removed: true, ..h };
    let all = hosts.map_values(f);
    if hosts.len() > 0 {
        law_remove_all_leaves_none(hosts.drop_last());
        assert(all.drop_last() =~= hosts.drop_last().map_values(f));
        assert(all.last().removed);
    }
}

/// After the hosts that are not online were removed, all that are left are
/// online.
pub proof fn law_remove_offline_leaves_online(hosts: Seq<HostView>)
    ensures
        ({
            let after = hosts.map_values(
                |h: HostView| HostView { removed: h.removed || !(h.status is Online), ..h },
            );
            &&& count(after, active()) == count(hosts, online())
            &&& count(after, active()) == count(after, online())
            &&& count(hosts, active()) == count(hosts, online()) + count(hosts, offline())
        }),
    decreases hosts.len(),
{
    let f = |h: HostView| HostView { removed: h.removed || !(h.status is Online), ..h };
    let after = hosts.map_values(f);
    if hosts.len() > 0 {
        law_remove_offline_leaves_online(hosts.drop_last());
        assert(after.drop_last() =~= hosts.drop_last().map_values(f));
        assert(after.last() == f(hosts.last()));
    }
}

/// No host is counted in two states.
pub proof fn law_summary_adds_up(hosts: Seq<HostView>)
    ensures
        count(hosts, online()) + count(hosts, timed_out()) + count(hosts, failing()) <= count(
            hosts,
            active(),
        ),
        count(hosts, active()) == kept(hosts).len(),
    decreases hosts.len(),
{
    if hosts.len() > 0 {
        law_summary_adds_up(hosts.drop_last());
    }
}

// ---------------------------------------------------------------------------
// Pausing and editing
// ---------------------------------------------------------------------------

/// The button for all hosts pauses them all while any is running, and lets them
/// all run again when it is pressed next.
pub proof fn law_toggle_all_alternates(hosts: Seq<HostView>)
    ensures
        !any_running(all_paused(hosts, true)),
        all_paused(all_paused(hosts, true), any_running(all_paused(hosts, true))) == all_paused(
            hosts,
            false,
        ),
        any_running(all_paused(hosts, false)) <==> kept(hosts).len() > 0,
{
    let stopped = all_paused(hosts, true);
    let running = all_paused(hosts, false);
    assert forall|i: int| 0 <= i < stopped.len() implies (#[trigger] stopped[i]).paused by {}
    assert(all_paused(stopped, false) =~= running);
    lemma_kept(hosts);
    if any_running(running) {
        let i = choose|i: int|
            0 <= i < running.len() && !(#[trigger] running[i]).paused && !running[i].removed;
        assert(!hosts[i].removed);
        assert(kept(hosts).contains(hosts[i]));
    }
    if kept(hosts).len() > 0 {
        assert(!kept(hosts)[0].removed && hosts.contains(kept(hosts)[0]));
        let i = choose|i: int| 0 <= i < hosts.len() && hosts[i] == kept(hosts)[0];
        assert(!running[i].paused && !running[i].removed);
    }
}

/// A change to one host leaves all the others as they are.
pub proof fn law_changes_are_local(
    hosts: Seq<HostView>,
    id: usize,
    f: spec_fn(HostView) -> HostView,
    i: int,
)
    requires
        0 <= i < hosts.len(),
        hosts[i].id != id,
    ensures
        at_id(hosts, id, f).len() == hosts.len(),
        at_id(hosts, id, f)[i] == hosts[i],
{
}

/// Toggling twice changes nothing.
pub proof fn law_toggling_twice(h: HostView)
    ensures
        Edit::TogglePause.apply(Edit::TogglePause.apply(h)) == h,
        Edit::ToggleVisible.apply(Edit::ToggleVisible.apply(h)) == h,
{
}

/// Whether a host is shown or paused makes no difference to its pings so far.
pub proof fn law_toggling_keeps_pings(h: HostView)
    ensures
        Edit::TogglePause.apply(h).history == h.history,
        Edit::ToggleVisible.apply(h).history == h.history,
{
}

// ---------------------------------------------------------------------------
// Workers
// ---------------------------------------------------------------------------

/// The host with a number is one of the hosts.
proof fn lemma_host_of_known(hosts: Seq<HostView>, id: usize)
    requires
        has_id(hosts, id),
    ensures
        host_of(hosts, id).id == id,
        hosts.contains(host_of(hosts, id)),
{
    let i = choose|i: int| 0 <= i < hosts.len() && (#[trigger] hosts[i]).id == id;
    assert(hosts[i].id == id);
}

/// A worker stops once its host was removed, and once it was dropped.
pub proof fn law_worker_of_removed_host_stops(m: MonitorView, w: WorkerView)
    requires
        m.wf(),
    ensures
        next_step(at_id(m.hosts, w.id, |h: HostView| Edit::Remove.apply(h)), w) == Step::Stop,
        next_step(kept(at_id(m.hosts, w.id, |h: HostView| Edit::Remove.apply(h))), w) == Step::Stop,
{
    let after = at_id(m.hosts, w.id, |h: HostView| Edit::Remove.apply(h));
    if has_id(after, w.id) {
        lemma_host_of_known(after, w.id);
        let i = choose|i: int| 0 <= i < after.len() && after[i] == host_of(after, w.id);
        assert(after[i].id == w.id);
        assert(m.hosts[i].id == w.id);
        assert(after[i].removed);
    }
    lemma_kept(after);
    if has_id(kept(after), w.id) {
        lemma_host_of_known(kept(after), w.id);
        let k = choose|k: int| 0 <= k < kept(after).len() && kept(after)[k] == host_of(
            kept(after),
            w.id,
        );
        assert(!kept(after)[k].removed && after.contains(kept(after)[k]));
        let i = choose|i: int| 0 <= i < after.len() && after[i] == kept(after)[k];
        assert(m.hosts[i].id == w.id);
        assert(after[i].removed);
    }
}

/// A paused host is never pinged.
pub proof fn law_paused_hosts_rest(hosts: Seq<HostView>, w: WorkerView)
    ensures
        next_step(all_paused(hosts, true), w) == Step::Stop || next_step(all_paused(hosts, true), w)
            == Step::Sleep(PAUSE_NANOS),
{
    let all = all_paused(hosts, true);
    if has_id(all, w.id) {
        lemma_host_of_known(all, w.id);
        let i = choose|i: int| 0 <= i < all.len() && all[i] == host_of(all, w.id);
        assert(all[i].paused);
    }
}

/// Pings keep to the interval: what a ping took and the rest that follows it
/// make up the interval, unless the ping took longer.
pub proof fn law_interval_is_kept(interval_ms: u64, took: u128)
    ensures
        took <= interval_ms * NANOS_PER_MS ==> took + rest_of_interval(interval_ms, took)
            == interval_ms * NANOS_PER_MS,
        took > interval_ms * NANOS_PER_MS ==> rest_of_interval(interval_ms, took) == 0,
{
    assert(interval_ms * NANOS_PER_MS <= u64::MAX * NANOS_PER_MS) by (nonlinear_arith)
        requires
            interval_ms <= u64::MAX,
    ;
}

/// Every ping that ends is counted once, as answered or as lost, and shows in
/// the status of the host.
pub proof fn law_every_ping_counts(h: HostView, session_t: u64, answer: Answer)
    ensures
        answered_host(h, session_t, answer).sent() == h.sent() + 1,
        answered_host(h, session_t, answer).received() == h.received() + (if answer is Reply {
            1nat
        } else {
            0nat
        }),
        answer is Reply <==> answered_host(h, session_t, answer).status is Online,
        answer is Timeout <==> answered_host(h, session_t, answer).status is Timeout,
        answer is Failed <==> answered_host(h, session_t, answer).status is Error,
{
    let after = answered_host(h, session_t, answer);
    assert(after.history.drop_last() =~= h.history);
}

// ---------------------------------------------------------------------------
// Chart
// ---------------------------------------------------------------------------

/// Hosts on the first ten slots have different colours on the chart.
pub proof fn law_hosts_differ_in_colour(m: MonitorView, i: int, j: int)
    requires
        m.wf(),
        0 <= i < j < m.hosts.len(),
        !m.hosts[i].removed,
        !m.hosts[j].removed,
        m.hosts[i].color_idx < 10,
        m.hosts[j].color_idx < 10,
    ensures
        host_series(m.hosts[i]).color != host_series(m.hosts[j]).color,
{
    law_chart_colours_distinct(m.hosts[i].color_idx as int, m.hosts[j].color_idx as int);
}

/// The chart of the report has one cross for each lost ping, in order.
pub proof fn law_one_cross_per_loss(history: Seq<Sample>, end: int)
    ensures
        crosses(history, end).len() == 3 * miss_points(history).len(),
        forall|k: int|
            0 <= k < miss_points(history).len() ==> crosses(history, end).subrange(
                3 * k,
                3 * k + 3,
            ) == cross(#[trigger] miss_points(history)[k] as int, end),
    decreases history.len(),
{
    if history.len() > 0 {
        let front = history.drop_last();
        law_one_cross_per_loss(front, end);
        let all = crosses(history, end);
        let misses = miss_points(history);
        assert forall|k: int| 0 <= k < misses.len() implies all.subrange(3 * k, 3 * k + 3) == cross(
            #[trigger] misses[k] as int,
            end,
        ) by {
            if k < miss_points(front).len() {
                assert(misses[k] == miss_points(front)[k]);
                assert(all.subrange(3 * k, 3 * k + 3) =~= crosses(front, end).subrange(
                    3 * k,
                    3 * k + 3,
                ));
            } else {
                assert(all.subrange(3 * k, 3 * k + 3) =~= cross(misses[k] as int, end));
            }
        }
    }
}

} // verus!
