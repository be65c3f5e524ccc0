//! The monitored hosts.

use std::collections::VecDeque;

use vstd::prelude::*;

use crate::host::{Host, HostView, Status, StatusView, MAX_SENT};
use crate::log::{logged, push_log, LogEntry, LogLevel};
use crate::monitor_laws::law_smaller_mean_first;
use crate::number::{lemma_fractions_transitive, Fraction};
use crate::order::{all_comparable, ordered, sort, Ranked};
use crate::stats::{hits, lemma_hits_len, total};
use crate::text::{decimal, push_decimal};

verus! {

/// The monitored hosts, and the number that the next one gets.
#[derive(Debug, PartialEq, Eq)]
pub struct Monitor {
    pub hosts: Vec<Host>,
    pub next_id: usize,
}

/// The hosts of a monitor.
#[verifier::ext_equal]
pub struct MonitorView {
    pub hosts: Seq<HostView>,
    pub next_id: nat,
}

/// What is known of each host of a sequence.
pub open spec fn views(hosts: Seq<Host>) -> Seq<HostView> {
    hosts.map_values(|h: Host| h@)
}

impl View for Monitor {
    type V = MonitorView;

    open spec fn view(&self) -> MonitorView {
        MonitorView { hosts: views(self.hosts@), next_id: self.next_id as nat }
    }
}

// ---------------------------------------------------------------------------
// Invariant
// ---------------------------------------------------------------------------

/// No two hosts have the same number.
pub open spec fn distinct_ids(hosts: Seq<HostView>) -> bool {
    forall|i: int, j: int|
        0 <= i < j < hosts.len() ==> (#[trigger] hosts[i]).id != (#[trigger] hosts[j]).id
}

/// No two hosts that are not removed have the same name or the same palette
/// slot.
pub open spec fn distinct_active(hosts: Seq<HostView>) -> bool {
    forall|i: int, j: int|
        0 <= i < j < hosts.len() && !(#[trigger] hosts[i]).removed && !(
        #[trigger] hosts[j]).removed ==> hosts[i].name != hosts[j].name && hosts[i].color_idx
            != hosts[j].color_idx
}

impl MonitorView {
    /// The hosts have different numbers from 1 on, all of them given out before,
    /// and those that are not removed have different names, none of them empty,
    /// and different palette slots.
    pub open spec fn wf(self) -> bool {
        &&& 1 <= self.next_id
        &&& distinct_ids(self.hosts)
        &&& forall|i: int|
            0 <= i < self.hosts.len() ==> 1 <= (#[trigger] self.hosts[i]).id < self.next_id
        &&& distinct_active(self.hosts)
        &&& forall|i: int|
            0 <= i < self.hosts.len() && !(#[trigger] self.hosts[i]).removed
                ==> self.hosts[i].name.len() > 0
    }
}

impl Monitor {
    /// The hosts agree with their histories and with each other.
    pub open spec fn wf(self) -> bool {
        &&& forall|i: int| 0 <= i < self.hosts@.len() ==> (#[trigger] self.hosts@[i]).wf()
        &&& self@.wf()
    }
}

/// Whether one of the hosts that are not removed is called `name`.
pub open spec fn is_monitored(hosts: Seq<HostView>, name: Seq<char>) -> bool {
    exists|i: int| 0 <= i < hosts.len() && !(#[trigger] hosts[i]).removed && hosts[i].name == name
}

/// Whether one of the hosts that are not removed has the palette slot `slot`.
pub open spec fn slot_used(hosts: Seq<HostView>, slot: int) -> bool {
    exists|i: int|
        0 <= i < hosts.len() && !(#[trigger] hosts[i]).removed && hosts[i].color_idx == slot
}

/// Whether `slot` is the lowest palette slot that no host has that is not
/// removed.
pub open spec fn is_lowest_free(hosts: Seq<HostView>, slot: int) -> bool {
    &&& 0 <= slot
    &&& !slot_used(hosts, slot)
    &&& forall|s: int| 0 <= s < slot ==> slot_used(hosts, s)
}

/// The lowest palette slot that no host has that is not removed.
pub open spec fn lowest_free(hosts: Seq<HostView>) -> int {
    choose|slot: int| is_lowest_free(hosts, slot)
}

/// As many slots as are in use there are hosts at least.
pub proof fn lemma_used_slots(hosts: Seq<HostView>, count: nat)
    requires
        forall|s: int| 0 <= s < count ==> slot_used(hosts, s),
    ensures
        count <= hosts.len(),
{
    let slots = hosts.map_values(|h: HostView| h.color_idx as int);
    let below = vstd::set_lib::set_int_range(0, count as int);
    vstd::set_lib::lemma_int_range(0, count as int);
    slots.lemma_cardinality_of_set();
    assert forall|s: int| below.contains(s) implies slots.to_set().contains(s) by {
        assert(slot_used(hosts, s));
        let i = choose|i: int|
            0 <= i < hosts.len() && !(#[trigger] hosts[i]).removed && hosts[i].color_idx == s;
        assert(slots[i] == s);
    }
    vstd::set_lib::lemma_len_subset(below, slots.to_set());
}

// ---------------------------------------------------------------------------
// Changes
// ---------------------------------------------------------------------------

/// The hosts after the one with the number `id` was changed by `f`.
pub open spec fn at_id(
    hosts: Seq<HostView>,
    id: usize,
    f: spec_fn(HostView) -> HostView,
) -> Seq<HostView> {
    hosts.map_values(
        |h: HostView|
            if h.id == id {
                f(h)
            } else {
                h
            },
    )
}

/// A host that has just been added.
pub open spec fn fresh_host(
    hosts: Seq<HostView>,
    id: nat,
    name: Seq<char>,
    interval_ms: u64,
) -> HostView {
    HostView {
        id: id as usize,
        name,
        ip: None,
        status: StatusView::Idle,
        interval_ms,
        paused: false,
        removed: false,
        visible: true,
        time_origin: 0,
        color_idx: lowest_free(hosts) as usize,
        history: Seq::empty(),
    }
}

impl MonitorView {
    /// Whether adding `name` adds a host.
    pub open spec fn adds(self, name: Seq<char>) -> bool {
        name.len() > 0 && !is_monitored(self.hosts, name)
    }

    /// The monitor after `name` was added: unchanged where the name is empty or
    /// already monitored.
    pub open spec fn added(self, name: Seq<char>, interval_ms: u64) -> MonitorView {
        if self.adds(name) {
            MonitorView {
                hosts: self.hosts.push(fresh_host(self.hosts, self.next_id, name, interval_ms)),
                next_id: self.next_id + 1,
            }
        } else {
            self
        }
    }

    /// The monitor after all the names were added one by one.
    pub open spec fn added_all(self, names: Seq<Seq<char>>, interval_ms: u64) -> MonitorView
        decreases names.len(),
    {
        if names.len() == 0 {
            self
        } else {
            self.added_all(names.drop_last(), interval_ms).added(names.last(), interval_ms)
        }
    }
}

/// What happened to a name that was to be added.
#[derive(Clone, Copy, Debug, PartialEq, Eq, Structural)]
pub enum Addition {
    /// The name was empty.
    Nameless,
    /// The name is already monitored.
    Duplicate,
    /// The host was added under this number.
    Added(usize),
}

/// The message of the log for a host that was added.
pub open spec fn added_message(interval_ms: u64) -> Seq<char> {
    "Host added  interval="@ + decimal(interval_ms as nat) + "ms"@
}

/// A change that is made to one host by hand.
#[derive(Clone, Copy, Debug, PartialEq, Eq, Structural)]
pub enum Edit {
    Remove,
    TogglePause,
    ToggleVisible,
    /// Forget all pings and count time from this session time on.
    Reset(u64),
    /// Ping at this interval, in milliseconds.
    Interval(u64),
}

impl Edit {
    /// The host after the change.
    pub open spec fn apply(self, h: HostView) -> HostView {
        match self {
            Edit::Remove => HostView { removed: true, ..h },
            Edit::TogglePause => HostView { paused: !h.paused, ..h },
            Edit::ToggleVisible => HostView { visible: !h.visible, ..h },
            Edit::Reset(now) => h.reset_at(now),
            Edit::Interval(interval_ms) => HostView { interval_ms, ..h },
        }
    }
}

/// The hosts after each change was made in turn.
pub open spec fn edited(hosts: Seq<HostView>, edits: Seq<(usize, Edit)>) -> Seq<HostView>
    decreases edits.len(),
{
    if edits.len() == 0 {
        hosts
    } else {
        let (id, edit) = edits.last();
        at_id(edited(hosts, edits.drop_last()), id, |h: HostView| edit.apply(h))
    }
}

/// How many hosts are in each state.
#[derive(Clone, Copy, Debug, PartialEq, Eq, Structural)]
pub struct Summary {
    pub total: usize,
    pub online: usize,
    pub timeout: usize,
    pub err: usize,
}

/// How many of the hosts satisfy `p`.
pub open spec fn count(hosts: Seq<HostView>, p: spec_fn(HostView) -> bool) -> nat
    decreases hosts.len(),
{
    if hosts.len() == 0 {
        0
    } else {
        count(hosts.drop_last(), p) + if p(hosts.last()) {
            1nat
        } else {
            0nat
        }
    }
}

/// A host that is not removed.
pub open spec fn active() -> spec_fn(HostView) -> bool {
    |h: HostView| !h.removed
}

/// A host that is not removed and answered its last ping.
pub open spec fn online() -> spec_fn(HostView) -> bool {
    |h: HostView| !h.removed && h.status is Online
}

/// A host that is not removed and whose last ping timed out.
pub open spec fn timed_out() -> spec_fn(HostView) -> bool {
    |h: HostView| !h.removed && h.status is Timeout
}

/// A host that is not removed and in error.
pub open spec fn failing() -> spec_fn(HostView) -> bool {
    |h: HostView| !h.removed && h.status is Error
}

/// A host that is not removed and not online.
pub open spec fn offline() -> spec_fn(HostView) -> bool {
    |h: HostView| !h.removed && !(h.status is Online)
}

/// Whether any host is neither paused nor removed.
pub open spec fn any_running(hosts: Seq<HostView>) -> bool {
    exists|i: int| 0 <= i < hosts.len() && !(#[trigger] hosts[i]).paused && !hosts[i].removed
}

/// The hosts after all of them were paused, or all let run.
pub open spec fn all_paused(hosts: Seq<HostView>, paused: bool) -> Seq<HostView> {
    hosts.map_values(|h: HostView| HostView { paused, ..h })
}

/// The hosts that are not removed, in order.
pub open spec fn kept(hosts: Seq<HostView>) -> Seq<HostView>
    decreases hosts.len(),
{
    if hosts.len() == 0 {
        Seq::empty()
    } else if hosts.last().removed {
        kept(hosts.drop_last())
    } else {
        kept(hosts.drop_last()).push(hosts.last())
    }
}

/// The hosts that are left after the removed ones are dropped: where any is
/// dropped, the others get the palette slots from 0 on, in order.
pub open spec fn collected(hosts: Seq<HostView>) -> Seq<HostView> {
    let left = kept(hosts);
    if left.len() == hosts.len() {
        hosts
    } else {
        left.map(|i: int, h: HostView| HostView { color_idx: i as usize, ..h })
    }
}

// ---------------------------------------------------------------------------
// Lemmas
// ---------------------------------------------------------------------------

/// Changing the host at position `i` is changing the one with its number.
pub proof fn lemma_at_id(
    hosts: Seq<HostView>,
    i: int,
    f: spec_fn(HostView) -> HostView,
)
    requires
        distinct_ids(hosts),
        0 <= i < hosts.len(),
    ensures
        at_id(hosts, hosts[i].id, f) == hosts.update(i, f(hosts[i])),
{
    assert(at_id(hosts, hosts[i].id, f) =~= hosts.update(i, f(hosts[i])));
}

/// A number that no host has changes nothing.
pub proof fn lemma_at_no_id(hosts: Seq<HostView>, id: usize, f: spec_fn(HostView) -> HostView)
    requires
        forall|i: int| 0 <= i < hosts.len() ==> (#[trigger] hosts[i]).id != id,
    ensures
        at_id(hosts, id, f) == hosts,
{
    assert(at_id(hosts, id, f) =~= hosts);
}

/// A change that keeps number, name and palette slot and adds no host keeps the
/// invariant.
pub proof fn lemma_wf_kept(before: MonitorView, after: MonitorView)
    requires
        before.wf(),
        after.next_id == before.next_id,
        after.hosts.len() == before.hosts.len(),
        forall|i: int|
            0 <= i < before.hosts.len() ==> (#[trigger] after.hosts[i]).id == before.hosts[i].id
                && after.hosts[i].name == before.hosts[i].name && after.hosts[i].color_idx
                == before.hosts[i].color_idx && (before.hosts[i].removed ==> after.hosts[i].removed),
    ensures
        after.wf(),
{
    assert forall|i: int, j: int| 0 <= i < j < after.hosts.len() implies (
    #[trigger] after.hosts[i]).id != (#[trigger] after.hosts[j]).id by {
        assert(before.hosts[i].id != before.hosts[j].id);
    }
    assert forall|i: int, j: int|
        0 <= i < j < after.hosts.len() && !(#[trigger] after.hosts[i]).removed && !(
        #[trigger] after.hosts[j]).removed implies after.hosts[i].name != after.hosts[j].name
        && after.hosts[i].color_idx != after.hosts[j].color_idx by {
        assert(!before.hosts[i].removed && !before.hosts[j].removed);
    }
}

/// Every kept host is one of the hosts, in the same order.
pub proof fn lemma_kept(hosts: Seq<HostView>)
    ensures
        kept(hosts).len() <= hosts.len(),
        kept(hosts).len() == hosts.len() ==> kept(hosts) == hosts,
        forall|k: int|
            0 <= k < kept(hosts).len() ==> !(#[trigger] kept(hosts)[k]).removed && hosts.contains(
                kept(hosts)[k],
            ),
        forall|i: int|
            0 <= i < hosts.len() && !(#[trigger] hosts[i]).removed ==> kept(hosts).contains(
                hosts[i],
            ),
    decreases hosts.len(),
{
    if hosts.len() > 0 {
        let front = hosts.drop_last();
        lemma_kept(front);
        assert forall|k: int| 0 <= k < kept(hosts).len() implies !(
        #[trigger] kept(hosts)[k]).removed && hosts.contains(kept(hosts)[k]) by {
            if k < kept(front).len() {
                assert(kept(hosts)[k] == kept(front)[k]);
                assert(front.contains(kept(front)[k]));
                let i = choose|i: int| 0 <= i < front.len() && front[i] == kept(front)[k];
                assert(hosts[i] == kept(hosts)[k]);
            } else {
                assert(hosts[hosts.len() - 1] == kept(hosts)[k]);
            }
        }
        assert forall|i: int| 0 <= i < hosts.len() && !(#[trigger] hosts[i]).removed implies kept(
            hosts,
        ).contains(hosts[i]) by {
            if i < front.len() {
                assert(front[i] == hosts[i]);
                assert(kept(front).contains(front[i]));
                let k = choose|k: int| 0 <= k < kept(front).len() && kept(front)[k] == front[i];
                assert(kept(hosts)[k] == hosts[i]);
            } else {
                assert(kept(hosts)[kept(hosts).len() - 1] == hosts[i]);
            }
        }
        if kept(hosts).len() == hosts.len() {
            assert(!hosts.last().removed);
            assert(kept(front).len() == front.len());
            assert(kept(hosts) =~= hosts);
        }
    }
}

/// Different hosts stay different when some are dropped.
proof fn lemma_kept_distinct(hosts: Seq<HostView>)
    requires
        distinct_ids(hosts),
        distinct_active(hosts),
    ensures
        distinct_ids(kept(hosts)),
        distinct_active(kept(hosts)),
    decreases hosts.len(),
{
    if hosts.len() > 0 {
        let front = hosts.drop_last();
        assert forall|i: int, j: int| 0 <= i < j < front.len() implies (#[trigger] front[i]).id != (
        #[trigger] front[j]).id by {
            assert(hosts[i].id != hosts[j].id);
        }
        assert forall|i: int, j: int|
            0 <= i < j < front.len() && !(#[trigger] front[i]).removed && !(
            #[trigger] front[j]).removed implies front[i].name != front[j].name
            && front[i].color_idx != front[j].color_idx by {
            assert(hosts[i].name != hosts[j].name && hosts[i].color_idx != hosts[j].color_idx);
        }
        lemma_kept_distinct(front);
        lemma_kept(front);
        if !hosts.last().removed {
            let all = kept(hosts);
            let last = hosts.len() - 1;
            assert forall|i: int| 0 <= i < all.len() - 1 implies (#[trigger] all[i]).id
                != all.last().id && all[i].name != all.last().name && all[i].color_idx
                != all.last().color_idx by {
                assert(all[i] == kept(front)[i]);
                assert(front.contains(kept(front)[i]));
                let k = choose|k: int| 0 <= k < front.len() && front[k] == kept(front)[i];
                assert(hosts[k].id != hosts[last].id);
                assert(!hosts[k].removed && !hosts[last].removed);
            }
            assert forall|i: int, j: int| 0 <= i < j < all.len() implies (#[trigger] all[i]).id != (
            #[trigger] all[j]).id by {
                if j < all.len() - 1 {
                    assert(kept(front)[i].id != kept(front)[j].id);
                }
            }
            assert forall|i: int, j: int|
                0 <= i < j < all.len() && !(#[trigger] all[i]).removed && !(
                #[trigger] all[j]).removed implies all[i].name != all[j].name && all[i].color_idx
                != all[j].color_idx by {
                if j < all.len() - 1 {
                    assert(kept(front)[i].name != kept(front)[j].name);
                }
            }
        }
    }
}

/// Adding a name keeps the invariant, and gives out no number again.
pub proof fn law_addition_keeps_order(m: MonitorView, name: Seq<char>, interval_ms: u64)
    requires
        m.wf(),
        m.next_id <= usize::MAX,
        m.hosts.len() <= usize::MAX,
    ensures
        m.added(name, interval_ms).wf(),
        m.next_id <= m.added(name, interval_ms).next_id,
{
    if m.adds(name) {
        let before = m.hosts;
        let slot = lowest_free(before);
        crate::session::law_new_slot_is_lowest(before);
        lemma_used_slots(before, slot as nat);
        let after = m.added(name, interval_ms).hosts;
        assert forall|i: int, j: int|
            0 <= i < j < after.len() && !(#[trigger] after[i]).removed && !(
            #[trigger] after[j]).removed implies after[i].name != after[j].name
            && after[i].color_idx != after[j].color_idx by {
            assert(after[i] == before[i]);
            if j < before.len() {
                assert(after[j] == before[j]);
            } else {
                assert(!is_monitored(before, name));
                assert(!slot_used(before, slot));
            }
        }
    }
}

/// Dropping the removed hosts keeps the invariant.
pub proof fn law_collection_keeps_order(m: MonitorView)
    requires
        m.wf(),
        m.hosts.len() <= usize::MAX,
    ensures
        (MonitorView { hosts: collected(m.hosts), ..m }).wf(),
        collected(m.hosts).len() <= m.hosts.len(),
{
    let all = m.hosts;
    let left = kept(all);
    let after = collected(all);
    lemma_kept(all);
    lemma_kept_distinct(all);
    assert forall|i: int, j: int| 0 <= i < j < after.len() implies (#[trigger] after[i]).id != (
    #[trigger] after[j]).id by {
        assert(left[i].id != left[j].id);
    }
    assert forall|i: int, j: int|
        0 <= i < j < after.len() && !(#[trigger] after[i]).removed && !(
        #[trigger] after[j]).removed implies after[i].name != after[j].name && after[i].color_idx
        != after[j].color_idx by {
        assert(!left[i].removed && !left[j].removed);
        assert(left[i].name != left[j].name);
    }
    assert forall|i: int| 0 <= i < after.len() implies 1 <= (#[trigger] after[i]).id < m.next_id
        && after[i].name.len() > 0 by {
        assert(!left[i].removed && all.contains(left[i]));
        let k = choose|k: int| 0 <= k < all.len() && all[k] == left[i];
        assert(1 <= all[k].id < m.next_id && !all[k].removed);
    }
}

/// A count is at most the number of hosts.
proof fn lemma_count_bound(hosts: Seq<HostView>, p: spec_fn(HostView) -> bool)
    ensures
        count(hosts, p) <= hosts.len(),
    decreases hosts.len(),
{
    if hosts.len() > 0 {
        lemma_count_bound(hosts.drop_last(), p);
    }
}

// ---------------------------------------------------------------------------
// Operations
// ---------------------------------------------------------------------------

impl Monitor {
    /// A monitor without hosts; the first one gets the number 1.
    pub fn new() -> (m: Monitor)
        ensures
            m.wf(),
            m@ == (MonitorView { hosts: Seq::empty(), next_id: 1 }),
    {
        let m = Monitor { hosts: Vec::new(), next_id: 1 };
        assert(m@.hosts =~= Seq::empty());
        m
    }

    /// The place of the host with the number `id`.
    pub fn find(&self, id: usize) -> (r: Option<usize>)
        ensures
            match r {
                Some(i) => i < self@.hosts.len() && self@.hosts[i as int].id == id,
                None => forall|i: int| 0 <= i < self@.hosts.len() ==> (#[trigger] self@.hosts[i]).id != id,
            },
    {
        let n: usize = self.hosts.len();
        for i in 0..n
            invariant
                n == self.hosts@.len(),
                forall|j: int| 0 <= j < i ==> (#[trigger] self@.hosts[j]).id != id,
        {
            assert(self@.hosts[i as int] == self.hosts@[i as int]@);
            if self.hosts[i].id == id {
                return Some(i);
            }
        }
        None
    }

    /// Whether one of the hosts that are not removed is called `name`.
    fn monitors(&self, name: &String) -> (r: bool)
        ensures
            r == is_monitored(self@.hosts, name@),
    {
        let n: usize = self.hosts.len();
        for i in 0..n
            invariant
                n == self.hosts@.len(),
                forall|j: int|
                    0 <= j < i ==> !(!(#[trigger] self@.hosts[j]).removed && self@.hosts[j].name
                        == name@),
        {
            assert(self@.hosts[i as int] == self.hosts@[i as int]@);
            if !self.hosts[i].removed && self.hosts[i].name == *name {
                return true;
            }
        }
        false
    }

    /// Whether one of the hosts that are not removed has the palette slot
    /// `slot`.
    fn uses_slot(&self, slot: usize) -> (r: bool)
        ensures
            r == slot_used(self@.hosts, slot as int),
    {
        let n: usize = self.hosts.len();
        for i in 0..n
            invariant
                n == self.hosts@.len(),
                forall|j: int|
                    0 <= j < i ==> !(!(#[trigger] self@.hosts[j]).removed
                        && self@.hosts[j].color_idx == slot),
        {
            assert(self@.hosts[i as int] == self.hosts@[i as int]@);
            if !self.hosts[i].removed && self.hosts[i].color_idx == slot {
                return true;
            }
        }
        false
    }

    /// The lowest palette slot that no host has that is not removed.
    pub fn free_slot(&self) -> (slot: usize)
        ensures
            slot == lowest_free(self@.hosts),
            is_lowest_free(self@.hosts, slot as int),
    {
        let mut slot: usize = 0;
        while self.uses_slot(slot)
            invariant
                forall|s: int| 0 <= s < slot ==> slot_used(self@.hosts, s),
                slot <= self.hosts@.len(),
            decreases self.hosts@.len() - slot,
        {
            proof {
                lemma_used_slots(self@.hosts, (slot + 1) as nat);
            }
            assert(slot + 1 <= self.hosts.len());
            slot = slot + 1;
        }
        assert(is_lowest_free(self@.hosts, slot as int));
        slot
    }

    /// Adds a host, unless its name is empty or already monitored.
    pub fn add_host_named(
        &mut self,
        logs: &mut VecDeque<LogEntry>,
        name: String,
        interval_ms: u64,
    ) -> (r: Addition)
        requires
            old(self).wf(),
            old(self).next_id < usize::MAX,
        ensures
            final(self).wf(),
            final(self)@ == old(self)@.added(name@, interval_ms),
            r == (if name@.len() == 0 {
                Addition::Nameless
            } else if is_monitored(old(self)@.hosts, name@) {
                Addition::Duplicate
            } else {
                Addition::Added(old(self).next_id)
            }),
            if old(self)@.adds(name@) {
                logged(
                    old(logs)@,
                    final(logs)@,
                    name@,
                    added_message(interval_ms),
                    LogLevel::Info,
                )
            } else {
                final(logs)@ == old(logs)@
            },
    {
        if name.as_str().is_empty() {
            return Addition::Nameless;
        }
        if self.monitors(&name) {
            return Addition::Duplicate;
        }
        let id: usize = self.next_id;
        let color_idx: usize = self.free_slot();
        self.next_id = self.next_id + 1;
        let mut msg = "Host added  interval=".to_owned();
        push_decimal(&mut msg, interval_ms);
        msg.append("ms");
        push_log(logs, name.as_str(), msg, LogLevel::Info);
        self.hosts.push(Host::new(id, name, interval_ms, color_idx));
        proof {
            let before = old(self)@.hosts;
            let h = fresh_host(before, id as nat, name@, interval_ms);
            assert(self@.hosts =~= before.push(h));
            assert(before.len() == old(self).hosts.len());
            law_addition_keeps_order(old(self)@, name@, interval_ms);
        }
        Addition::Added(id)
    }

    /// Whether any host is neither paused nor removed.
    pub fn any_active(&self) -> (r: bool)
        ensures
            r == any_running(self@.hosts),
    {
        let n: usize = self.hosts.len();
        for i in 0..n
            invariant
                n == self.hosts@.len(),
                forall|j: int|
                    0 <= j < i ==> !(!(#[trigger] self@.hosts[j]).paused
                        && !self@.hosts[j].removed),
        {
            assert(self@.hosts[i as int] == self.hosts@[i as int]@);
            if !self.hosts[i].paused && !self.hosts[i].removed {
                return true;
            }
        }
        false
    }

    /// Pauses every host, or lets every host run.
    pub fn set_all_paused(&mut self, paused: bool)
        requires
            old(self).wf(),
        ensures
            final(self).wf(),
            final(self)@ == (MonitorView {
                hosts: all_paused(old(self)@.hosts, paused),
                ..old(self)@
            }),
    {
        let n: usize = self.hosts.len();
        let ghost f = |h: HostView| HostView { paused, ..h };
        for i in 0..n
            invariant
                n == self.hosts@.len(),
                self.next_id == old(self).next_id,
                n == old(self).hosts@.len(),
                old(self).wf(),
                f == (|h: HostView| HostView { paused, ..h }),
                forall|j: int| 0 <= j < n ==> (#[trigger] self.hosts@[j]).wf(),
                forall|j: int|
                    0 <= j < i ==> (#[trigger] self.hosts@[j])@ == f(old(self).hosts@[j]@),
                forall|j: int| i <= j < n ==> #[trigger] self.hosts@[j] == old(self).hosts@[j],
        {
            self.hosts[i].paused = paused;
        }
        proof {
            assert(self@.hosts =~= all_paused(old(self)@.hosts, paused));
            lemma_wf_kept(old(self)@, self@);
        }
    }

    /// Resets the statistics of every host and counts time from `now` on.
    pub fn reset_all(&mut self, now: u64)
        requires
            old(self).wf(),
        ensures
            final(self).wf(),
            final(self)@ == (MonitorView {
                hosts: old(self)@.hosts.map_values(|h: HostView| h.reset_at(now)),
                ..old(self)@
            }),
    {
        let n: usize = self.hosts.len();
        let ghost f = |h: HostView| h.reset_at(now);
        for i in 0..n
            invariant
                n == self.hosts@.len(),
                self.next_id == old(self).next_id,
                n == old(self).hosts@.len(),
                old(self).wf(),
                f == (|h: HostView| h.reset_at(now)),
                forall|j: int| 0 <= j < n ==> (#[trigger] self.hosts@[j]).wf(),
                forall|j: int|
                    0 <= j < i ==> (#[trigger] self.hosts@[j])@ == f(old(self).hosts@[j]@),
                forall|j: int| i <= j < n ==> #[trigger] self.hosts@[j] == old(self).hosts@[j],
        {
            self.hosts[i].reset_at(now);
        }
        proof {
            assert(self@.hosts =~= old(self)@.hosts.map_values(f));
            lemma_wf_kept(old(self)@, self@);
        }
    }

    /// Removes every host that is not online, and says how many those are.
    pub fn remove_offline(&mut self) -> (n: usize)
        requires
            old(self).wf(),
        ensures
            final(self).wf(),
            n == count(old(self)@.hosts, offline()),
            final(self)@ == (MonitorView {
                hosts: old(self)@.hosts.map_values(
                    |h: HostView| HostView { removed: h.removed || !(h.status is Online), ..h },
                ),
                ..old(self)@
            }),
    {
        let n: usize = self.hosts.len();
        let mut gone: usize = 0;
        let ghost f = |h: HostView|
            HostView { removed: h.removed || !(h.status is Online), ..h };
        let ghost before = old(self)@.hosts;
        assert(before.take(0) =~= Seq::empty());
        for i in 0..n
            invariant
                n == self.hosts@.len(),
                self.next_id == old(self).next_id,
                n == old(self).hosts@.len(),
                old(self).wf(),
                before == old(self)@.hosts,
                f == (|h: HostView|
                    HostView { removed: h.removed || !(h.status is Online), ..h }),
                gone <= i,
                gone == count(before.take(i as int), offline()),
                forall|j: int| 0 <= j < n ==> (#[trigger] self.hosts@[j]).wf(),
                forall|j: int|
                    0 <= j < i ==> (#[trigger] self.hosts@[j])@ == f(old(self).hosts@[j]@),
                forall|j: int| i <= j < n ==> #[trigger] self.hosts@[j] == old(self).hosts@[j],
        {
            assert(before.take(i + 1).drop_last() =~= before.take(i as int));
            assert(before[i as int] == self.hosts@[i as int]@);
            if !self.hosts[i].removed && !self.hosts[i].status.is_online() {
                self.hosts[i].removed = true;
                gone = gone + 1;
            }
        }
        proof {
            assert(before.take(n as int) =~= before);
            assert(self@.hosts =~= old(self)@.hosts.map_values(f));
            lemma_wf_kept(old(self)@, self@);
        }
        gone
    }

    /// Removes every host.
    pub fn remove_all(&mut self)
        requires
            old(self).wf(),
        ensures
            final(self).wf(),
            final(self)@ == (MonitorView {
                hosts: old(self)@.hosts.map_values(|h: HostView| HostView { removed: true, ..h }),
                ..old(self)@
            }),
    {
        let n: usize = self.hosts.len();
        let ghost f = |h: HostView| HostView { removed: true, ..h };
        for i in 0..n
            invariant
                n == self.hosts@.len(),
                self.next_id == old(self).next_id,
                n == old(self).hosts@.len(),
                old(self).wf(),
                f == (|h: HostView| HostView { removed: true, ..h }),
                forall|j: int| 0 <= j < n ==> (#[trigger] self.hosts@[j]).wf(),
                forall|j: int|
                    0 <= j < i ==> (#[trigger] self.hosts@[j])@ == f(old(self).hosts@[j]@),
                forall|j: int| i <= j < n ==> #[trigger] self.hosts@[j] == old(self).hosts@[j],
        {
            self.hosts[i].removed = true;
        }
        proof {
            assert(self@.hosts =~= old(self)@.hosts.map_values(f));
            lemma_wf_kept(old(self)@, self@);
        }
    }

    /// How many of the hosts that are not removed are in each state.
    pub fn summary(&self) -> (s: Summary)
        ensures
            s.total == count(self@.hosts, active()),
            s.online == count(self@.hosts, online()),
            s.timeout == count(self@.hosts, timed_out()),
            s.err == count(self@.hosts, failing()),
    {
        let mut s = Summary { total: 0, online: 0, timeout: 0, err: 0 };
        let n: usize = self.hosts.len();
        let ghost all = self@.hosts;
        assert(all.take(0) =~= Seq::empty());
        for i in 0..n
            invariant
                n == self.hosts@.len(),
                all == self@.hosts,
                s.total == count(all.take(i as int), active()),
                s.online == count(all.take(i as int), online()),
                s.timeout == count(all.take(i as int), timed_out()),
                s.err == count(all.take(i as int), failing()),
        {
            proof {
                assert(all.take(i + 1).drop_last() =~= all.take(i as int));
                assert(all[i as int] == self.hosts@[i as int]@);
                lemma_count_bound(all.take(i as int), active());
                lemma_count_bound(all.take(i as int), online());
                lemma_count_bound(all.take(i as int), timed_out());
                lemma_count_bound(all.take(i as int), failing());
            }
            if !self.hosts[i].removed {
                s.total = s.total + 1;
                match &self.hosts[i].status {
                    Status::Online => {
                        s.online = s.online + 1;
                    },
                    Status::Timeout => {
                        s.timeout = s.timeout + 1;
                    },
                    Status::Error(_) => {
                        s.err = s.err + 1;
                    },
                    _ => {},
                }
            }
        }
        assert(all.take(n as int) =~= all);
        s
    }

    /// Drops the removed hosts; where any is dropped, the others get the palette
    /// slots from 0 on, in order.
    pub fn collect_removed(&mut self)
        requires
            old(self).wf(),
        ensures
            final(self).wf(),
            final(self)@ == (MonitorView { hosts: collected(old(self)@.hosts), ..old(self)@ }),
    {
        let before: usize = self.hosts.len();
        let ghost all = old(self)@.hosts;
        let mut rest: Vec<Host> = Vec::new();
        rest.append(&mut self.hosts);
        let mut left: Vec<Host> = Vec::new();
        assert(views(left@) =~= kept(all.take(0)));
        for h in it: rest
            invariant
                it.seq() == old(self).hosts@,
                all == views(old(self).hosts@),
                forall|j: int| 0 <= j < old(self).hosts@.len() ==> (#[trigger] old(self).hosts@[j]).wf(),
                forall|j: int| 0 <= j < left@.len() ==> (#[trigger] left@[j]).wf(),
                views(left@) == kept(all.take(it.index() as int)),
        {
            let ghost i = it.index() as int;
            assert(h == old(self).hosts@[i]);
            assert(all.take(i + 1).drop_last() =~= all.take(i));
            assert(all[i] == h@);
            if !h.removed {
                let ghost prev = left@;
                left.push(h);
                assert(views(left@) =~= views(prev).push(h@));
            }
        }
        assert(all.take(before as int) =~= all);
        assert(views(left@) == kept(all));
        proof {
            lemma_kept(all);
        }
        let n: usize = left.len();
        let ghost dropped = left@;
        if n != before {
            for i in 0..n
                invariant
                    n == left@.len(),
                    n == dropped.len(),
                    forall|j: int| 0 <= j < n ==> (#[trigger] left@[j]).wf(),
                    forall|j: int|
                        0 <= j < i ==> (#[trigger] left@[j])@ == (HostView {
                            color_idx: j as usize,
                            ..dropped[j]@
                        }),
                    forall|j: int| i <= j < n ==> #[trigger] left@[j] == dropped[j],
            {
                left[i].color_idx = i;
            }
        }
        self.hosts = left;
        proof {
            assert(all.len() == before);
            if n != before {
                assert(self@.hosts =~= collected(all));
            } else {
                assert(self@.hosts =~= all);
            }
            law_collection_keeps_order(old(self)@);
        }
    }

    /// Makes one change to the host with the number `id`, if there is one.
    pub fn edit(&mut self, id: usize, edit: Edit)
        requires
            old(self).wf(),
        ensures
            final(self).wf(),
            final(self)@ == (MonitorView {
                hosts: at_id(old(self)@.hosts, id, |h: HostView| edit.apply(h)),
                ..old(self)@
            }),
    {
        let ghost before = self@.hosts;
        let ghost f = |h: HostView| edit.apply(h);
        if let Some(i) = self.find(id) {
            match edit {
                Edit::Remove => {
                    self.hosts[i].removed = true;
                },
                Edit::TogglePause => {
                    let paused: bool = self.hosts[i].paused;
                    self.hosts[i].paused = !paused;
                },
                Edit::ToggleVisible => {
                    let visible: bool = self.hosts[i].visible;
                    self.hosts[i].visible = !visible;
                },
                Edit::Reset(now) => {
                    self.hosts[i].reset_at(now);
                },
                Edit::Interval(interval_ms) => {
                    self.hosts[i].interval_ms = interval_ms;
                },
            }
            proof {
                lemma_at_id(before, i as int, f);
                assert(before[i as int] == old(self).hosts@[i as int]@);
                assert(self@.hosts =~= before.update(i as int, f(before[i as int])));
                lemma_wf_kept(old(self)@, self@);
            }
        } else {
            proof {
                lemma_at_no_id(before, id, f);
            }
        }
    }

    /// Makes every change in turn.
    pub fn apply_edits(&mut self, edits: &Vec<(usize, Edit)>)
        requires
            old(self).wf(),
        ensures
            final(self).wf(),
            final(self)@ == (MonitorView {
                hosts: edited(old(self)@.hosts, edits@),
                ..old(self)@
            }),
    {
        let n: usize = edits.len();
        assert(edits@.take(0) =~= Seq::empty());
        for i in 0..n
            invariant
                n == edits@.len(),
                self.wf(),
                self.next_id == old(self).next_id,
                self@.hosts == edited(old(self)@.hosts, edits@.take(i as int)),
        {
            assert(edits@.take(i + 1).drop_last() =~= edits@.take(i as int));
            let (id, edit) = edits[i];
            self.edit(id, edit);
        }
        assert(edits@.take(n as int) =~= edits@);
    }
}

/// What is known of each host that is referred to.
pub open spec fn ref_views(hosts: Seq<&Host>) -> Seq<HostView> {
    hosts.map_values(|h: &Host| h@)
}

/// Whether each host that is referred to agrees with its history.
pub open spec fn all_wf(hosts: Seq<&Host>) -> bool {
    forall|i: int| 0 <= i < hosts.len() ==> (#[trigger] hosts[i]).wf()
}

impl Monitor {
    /// The hosts that are not removed, in order.
    pub fn kept_hosts(&self) -> (r: Vec<&Host>)
        requires
            self.wf(),
        ensures
            ref_views(r@) == kept(self@.hosts),
            all_wf(r@),
    {
        let mut r: Vec<&Host> = Vec::new();
        let n: usize = self.hosts.len();
        let ghost all = self@.hosts;
        assert(ref_views(r@) =~= kept(all.take(0)));
        for i in 0..n
            invariant
                n == self.hosts@.len(),
                all == self@.hosts,
                self.wf(),
                all_wf(r@),
                ref_views(r@) == kept(all.take(i as int)),
        {
            assert(all.take(i + 1).drop_last() =~= all.take(i as int));
            assert(all[i as int] == self.hosts@[i as int]@);
            if !self.hosts[i].removed {
                let ghost before = r@;
                r.push(&self.hosts[i]);
                assert(ref_views(r@) =~= ref_views(before).push(all[i as int]));
            }
        }
        assert(all.take(n as int) =~= all);
        r
    }
}

// ---------------------------------------------------------------------------
// Order by latency
// ---------------------------------------------------------------------------

/// What decides where a host stands: its mean round-trip time, if it has one,
/// and its place among the hosts.
#[derive(Clone, Copy)]
pub struct LatencyKey {
    pub mean: Option<Fraction>,
    pub place: usize,
}

impl Ranked for LatencyKey {
    open spec fn comparable(self) -> bool {
        self.mean matches Some(f) ==> 0 < f.den <= u64::MAX
    }

    open spec fn ranks(self, other: LatencyKey) -> bool {
        match (self.mean, other.mean) {
            (Some(a), Some(b)) => a.lt(b) || (!b.lt(a) && self.place <= other.place),
            (Some(_), None) => true,
            (None, Some(_)) => false,
            (None, None) => self.place <= other.place,
        }
    }

    proof fn lemma_total(a: LatencyKey, b: LatencyKey) {
    }

    proof fn lemma_transitive(a: LatencyKey, b: LatencyKey, c: LatencyKey) {
        if let (Some(x), Some(y), Some(z)) = (a.mean, b.mean, c.mean) {
            lemma_fractions_transitive(x, y, z);
        }
    }

    fn before(&self, other: &LatencyKey) -> (r: bool) {
        match (self.mean, other.mean) {
            (Some(a), Some(b)) => a.less(&b) || (!b.less(&a) && self.place <= other.place),
            (Some(_), None) => true,
            (None, Some(_)) => false,
            (None, None) => self.place <= other.place,
        }
    }
}

/// The key of the host at the place `place`.
pub open spec fn latency_key(hosts: Seq<HostView>, place: int) -> LatencyKey {
    LatencyKey { mean: hosts[place].avg_rtt(), place: place as usize }
}

/// Whether `places` are the places of the hosts that are not removed, each once,
/// with the smallest mean round-trip time first, the hosts without an answer
/// last, and hosts that are alike in this in their own order.
pub open spec fn fastest_first(hosts: Seq<HostView>, places: Seq<usize>) -> bool {
    &&& places.no_duplicates()
    &&& forall|k: int|
        0 <= k < places.len() ==> #[trigger] places[k] < hosts.len()
            && !hosts[places[k] as int].removed
    &&& forall|i: int|
        0 <= i < hosts.len() && !(#[trigger] hosts[i]).removed ==> places.contains(i as usize)
    &&& forall|j: int, k: int|
        0 <= j < k < places.len() ==> latency_key(hosts, #[trigger] places[j] as int).ranks(
            latency_key(hosts, #[trigger] places[k] as int),
        )
}

/// The keys of the hosts that are not removed, in their own order.
spec fn latency_keys(hosts: Seq<HostView>) -> Seq<LatencyKey>
    decreases hosts.len(),
{
    if hosts.len() == 0 {
        Seq::empty()
    } else if hosts.last().removed {
        latency_keys(hosts.drop_last())
    } else {
        latency_keys(hosts.drop_last()).push(latency_key(hosts, hosts.len() - 1))
    }
}

proof fn lemma_latency_keys(hosts: Seq<HostView>)
    requires
        hosts.len() <= usize::MAX,
    ensures
        forall|k: int|
            0 <= k < latency_keys(hosts).len() ==> {
                let key = #[trigger] latency_keys(hosts)[k];
                &&& key.place < hosts.len()
                &&& !hosts[key.place as int].removed
                &&& key == latency_key(hosts, key.place as int)
            },
        forall|j: int, k: int|
            0 <= j < k < latency_keys(hosts).len() ==> (#[trigger] latency_keys(hosts)[j]).place
                < (#[trigger] latency_keys(hosts)[k]).place,
        forall|i: int|
            0 <= i < hosts.len() && !(#[trigger] hosts[i]).removed ==> latency_keys(hosts).contains(
                latency_key(hosts, i),
            ),
    decreases hosts.len(),
{
    if hosts.len() > 0 {
        let front = hosts.drop_last();
        lemma_latency_keys(front);
        let some = latency_keys(front);
        let all = latency_keys(hosts);
        assert forall|k: int| 0 <= k < some.len() implies all[k] == #[trigger] some[k] && latency_key(
            front,
            some[k].place as int,
        ) == latency_key(hosts, some[k].place as int) by {
            assert(front[some[k].place as int] == hosts[some[k].place as int]);
        }
        assert forall|i: int| 0 <= i < hosts.len() && !(#[trigger] hosts[i]).removed implies all.contains(
            latency_key(hosts, i),
        ) by {
            if i < front.len() {
                assert(front[i] == hosts[i]);
                assert(some.contains(latency_key(front, i)));
                let k = choose|k: int| 0 <= k < some.len() && some[k] == latency_key(front, i);
                assert(all[k] == latency_key(hosts, i));
            } else {
                assert(all[all.len() - 1] == latency_key(hosts, i));
            }
        }
    }
}

/// The same keys in order show the hosts fastest first.
proof fn lemma_fastest_first(hosts: Seq<HostView>, sorted: Seq<LatencyKey>)
    requires
        hosts.len() <= usize::MAX,
        ordered(sorted),
        sorted.to_multiset() == latency_keys(hosts).to_multiset(),
    ensures
        fastest_first(hosts, sorted.map_values(|k: LatencyKey| k.place)),
{
    broadcast use vstd::seq_lib::group_to_multiset_ensures;

    let keys = latency_keys(hosts);
    let places = sorted.map_values(|k: LatencyKey| k.place);
    lemma_latency_keys(hosts);
    assert(keys.no_duplicates()) by {
        assert forall|i: int, j: int| 0 <= i < keys.len() && 0 <= j < keys.len() && i != j implies keys[i]
            != keys[j] by {
            if i < j {
                assert(keys[i].place < keys[j].place);
            } else {
                assert(keys[j].place < keys[i].place);
            }
        }
    }
    keys.lemma_multiset_has_no_duplicates();
    sorted.lemma_multiset_has_no_duplicates_conv();
    assert forall|k: int| 0 <= k < sorted.len() implies (#[trigger] sorted[k]).place < hosts.len()
        && !hosts[sorted[k].place as int].removed && sorted[k] == latency_key(
        hosts,
        sorted[k].place as int,
    ) by {
        assert(sorted.to_multiset().count(sorted[k]) > 0);
        assert(keys.contains(sorted[k]));
        let m = choose|m: int| 0 <= m < keys.len() && keys[m] == sorted[k];
        assert(keys[m] == sorted[k]);
    }
    assert forall|i: int| 0 <= i < hosts.len() && !(#[trigger] hosts[i]).removed implies places.contains(
        i as usize,
    ) by {
        assert(keys.to_multiset().count(latency_key(hosts, i)) > 0);
        assert(sorted.contains(latency_key(hosts, i)));
        let k = choose|k: int| 0 <= k < sorted.len() && sorted[k] == latency_key(hosts, i);
        assert(places[k] == i as usize);
    }
    assert forall|j: int, k: int| 0 <= j < k < places.len() implies latency_key(
        hosts,
        #[trigger] places[j] as int,
    ).ranks(latency_key(hosts, #[trigger] places[k] as int)) by {
        assert(sorted[j].ranks(sorted[k]));
    }
    assert forall|i: int, j: int| 0 <= i < places.len() && 0 <= j < places.len() && i != j implies places[i]
        != places[j] by {
        assert(sorted[i] != sorted[j]);
    }
}

impl Monitor {
    /// The places of the hosts that are not removed, fastest first.
    pub fn by_latency(&self) -> (places: Vec<usize>)
        requires
            self.wf(),
        ensures
            fastest_first(self@.hosts, places@),
            forall|j: int, k: int|
                0 <= j < k < places@.len() ==> {
                    let a = hits(self@.hosts[#[trigger] places@[j] as int].history);
                    let b = hits(self@.hosts[#[trigger] places@[k] as int].history);
                    &&& b.len() > 0 ==> a.len() > 0
                    &&& a.len() > 0 && b.len() > 0 ==> total(a) * b.len() <= total(b) * a.len()
                },
    {
        let mut keys: Vec<LatencyKey> = Vec::new();
        let n: usize = self.hosts.len();
        let ghost all = self@.hosts;
        assert(all.take(0) =~= Seq::empty());
        for i in 0..n
            invariant
                n == self.hosts@.len(),
                all == self@.hosts,
                self.wf(),
                all_comparable(keys@),
                keys@ == latency_keys(all.take(i as int)),
        {
            assert(all.take(i + 1).drop_last() =~= all.take(i as int));
            assert(all[i as int] == self.hosts@[i as int]@);
            if !self.hosts[i].removed {
                let mean = self.hosts[i].avg_rtt();
                proof {
                    lemma_hits_len(self.hosts@[i as int].history@);
                }
                keys.push(LatencyKey { mean, place: i });
                assert(latency_key(all.take(i + 1), i as int) == keys@.last());
            }
        }
        assert(all.take(n as int) =~= all);
        let sorted = sort(keys);
        let mut places: Vec<usize> = Vec::new();
        let m: usize = sorted.len();
        for i in 0..m
            invariant
                m == sorted@.len(),
                places@.len() == i,
                forall|j: int| 0 <= j < i ==> #[trigger] places@[j] == sorted@[j].place,
        {
            places.push(sorted[i].place);
        }
        proof {
            assert(places@ =~= sorted@.map_values(|k: LatencyKey| k.place));
            assert(all.len() == self.hosts.len());
            lemma_fastest_first(all, sorted@);
            assert forall|i: int| 0 <= i < all.len() implies (#[trigger] all[i]).history.len()
                <= MAX_SENT by {
                assert(self.hosts@[i].wf());
            }
            assert forall|j: int, k: int| 0 <= j < k < places@.len() implies {
                let a = hits(all[#[trigger] places@[j] as int].history);
                let b = hits(all[#[trigger] places@[k] as int].history);
                &&& b.len() > 0 ==> a.len() > 0
                &&& a.len() > 0 && b.len() > 0 ==> total(a) * b.len() <= total(b) * a.len()
            } by {
                law_smaller_mean_first(all, places@, j, k);
            }
        }
        places
    }
}

} // verus!
