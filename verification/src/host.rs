//! A monitored host: its configuration, its ping results and the statistics
//! over them.

use vstd::prelude::*;

use crate::number::{number, Fraction, Number};
use crate::order::{all_comparable, ordered, sort, Ranked};
use crate::palette::Color;
use crate::stats::{
    hits, is_greatest, is_least, lemma_hits_len, lemma_ordered_unique, lemma_swings_bound,
    lemma_total_bounds, smaller_first, swings, total, Sample,
};

verus! {

/// The most pings that are counted for one host.
pub const MAX_SENT: u64 = 0x7fff_ffff_ffff_ffff;

// ---------------------------------------------------------------------------
// Status
// ---------------------------------------------------------------------------

/// What is known of a host.
#[derive(Debug, PartialEq, Eq)]
pub enum Status {
    Idle,
    Resolving,
    Online,
    Timeout,
    Error(String),
}

/// What is known of a host, by the characters of its error.
pub enum StatusView {
    Idle,
    Resolving,
    Online,
    Timeout,
    Error(Seq<char>),
}

impl View for Status {
    type V = StatusView;

    open spec fn view(&self) -> StatusView {
        match *self {
            Status::Idle => StatusView::Idle,
            Status::Resolving => StatusView::Resolving,
            Status::Online => StatusView::Online,
            Status::Timeout => StatusView::Timeout,
            Status::Error(e) => StatusView::Error(e@),
        }
    }
}

impl StatusView {
    /// The word for each status.
    pub open spec fn label(self) -> Seq<char> {
        match self {
            StatusView::Idle => "idle"@,
            StatusView::Resolving => "resolving…"@,
            StatusView::Online => "online"@,
            StatusView::Timeout => "timeout"@,
            StatusView::Error(_) => "error"@,
        }
    }

    /// The colour of a status, where `lost` packets were lost: an online host is
    /// good without any loss, and a warning with some.
    pub open spec fn color(self, lost: nat) -> Color {
        match self {
            StatusView::Online => if lost == 0 {
                Color::Good
            } else {
                Color::Warn
            },
            StatusView::Timeout => Color::Bad,
            StatusView::Error(_) => Color::Bad,
            StatusView::Resolving => Color::Info,
            StatusView::Idle => Color::Dim,
        }
    }
}

impl Status {
    /// The word for the status.
    pub fn label(&self) -> (s: &'static str)
        ensures
            s@ == self@.label(),
    {
        match self {
            Status::Idle => "idle",
            Status::Resolving => "resolving…",
            Status::Online => "online",
            Status::Timeout => "timeout",
            Status::Error(_) => "error",
        }
    }

    /// The colour of the status, where `lost` packets were lost.
    pub fn color(&self, lost: u64) -> (c: Color)
        ensures
            c == self@.color(lost as nat),
    {
        match self {
            Status::Online => {
                if lost == 0 {
                    Color::Good
                } else {
                    Color::Warn
                }
            },
            Status::Timeout => Color::Bad,
            Status::Error(_) => Color::Bad,
            Status::Resolving => Color::Info,
            Status::Idle => Color::Dim,
        }
    }

    /// Whether the host answered its last ping.
    pub fn is_online(&self) -> (r: bool)
        ensures
            r == (self@ is Online),
    {
        match self {
            Status::Online => true,
            _ => false,
        }
    }
}

/// A network address: how it is written, and whether it is of version 6.
#[derive(Debug, PartialEq, Eq)]
pub struct Address {
    pub text: String,
    pub v6: bool,
}

/// A network address, by its characters.
pub struct AddressView {
    pub text: Seq<char>,
    pub v6: bool,
}

impl View for Address {
    type V = AddressView;

    open spec fn view(&self) -> AddressView {
        AddressView { text: self.text@, v6: self.v6 }
    }
}

/// An address that may be unknown, by its characters.
pub open spec fn address_view(ip: Option<Address>) -> Option<AddressView> {
    match ip {
        Some(a) => Some(a@),
        None => None,
    }
}

/// The characters of an address; none where it is unknown.
pub open spec fn address_text(ip: Option<AddressView>) -> Seq<char> {
    match ip {
        Some(a) => a.text,
        None => Seq::empty(),
    }
}

// ---------------------------------------------------------------------------
// Service level
// ---------------------------------------------------------------------------

/// How a host stands against the thresholds of a service level.
#[derive(Clone, Copy, Debug, PartialEq, Eq, Structural)]
pub enum Sla {
    NoData,
    Pass,
    Warn,
    Fail,
}

impl Sla {
    /// The badge of each verdict.
    pub open spec fn badge(self) -> (Seq<char>, Color) {
        match self {
            Sla::NoData => ("  —  "@, Color::Dim),
            Sla::Pass => (" PASS "@, Color::Good),
            Sla::Fail => (" FAIL "@, Color::Bad),
            Sla::Warn => (" WARN "@, Color::Warn),
        }
    }

    /// The badge of each verdict without the blanks around it.
    pub open spec fn word(self) -> Seq<char> {
        match self {
            Sla::NoData => "—"@,
            Sla::Pass => "PASS"@,
            Sla::Fail => "FAIL"@,
            Sla::Warn => "WARN"@,
        }
    }

    /// The style class of each verdict in a report.
    pub open spec fn class(self) -> Seq<char> {
        match self {
            Sla::Pass => "pass"@,
            Sla::Fail => "fail"@,
            _ => "warn"@,
        }
    }

    /// The word of the verdict.
    pub fn word_text(self) -> (s: &'static str)
        ensures
            s@ == self.word(),
    {
        match self {
            Sla::NoData => "—",
            Sla::Pass => "PASS",
            Sla::Fail => "FAIL",
            Sla::Warn => "WARN",
        }
    }

    /// The style class of the verdict in a report.
    pub fn class_text(self) -> (s: &'static str)
        ensures
            s@ == self.class(),
    {
        match self {
            Sla::Pass => "pass",
            Sla::Fail => "fail",
            _ => "warn",
        }
    }
}

// ---------------------------------------------------------------------------
// Host
// ---------------------------------------------------------------------------

/// A monitored host.
#[derive(Debug, PartialEq, Eq)]
pub struct Host {
    pub id: usize,
    pub name: String,
    pub ip: Option<Address>,
    pub status: Status,
    /// The time between two pings, in milliseconds.
    pub interval_ms: u64,
    pub paused: bool,
    /// Tells the worker of the host to end.
    pub removed: bool,
    /// Whether the host is drawn on the chart; its data is collected anyway.
    pub visible: bool,
    /// The session time at the last reset, from which the history counts.
    pub time_origin: u64,
    /// The slot of the chart palette.
    pub color_idx: usize,
    pub sent: u64,
    pub received: u64,
    pub min_rtt: Option<u64>,
    pub max_rtt: u64,
    pub sum_rtt: u128,
    /// The round-trip time of the last ping, if it was answered.
    pub last_rtt: Option<u64>,
    /// The round-trip time of the last answered ping.
    pub prev_rtt: Option<u64>,
    pub jitter_sum: u128,
    pub jitter_count: u64,
    /// All pings since the last reset, oldest first.
    pub history: Vec<Sample>,
}

/// A monitored host: its configuration and its pings since the last reset.
#[verifier::ext_equal]
pub struct HostView {
    pub id: usize,
    pub name: Seq<char>,
    pub ip: Option<AddressView>,
    pub status: StatusView,
    pub interval_ms: u64,
    pub paused: bool,
    pub removed: bool,
    pub visible: bool,
    pub time_origin: u64,
    pub color_idx: usize,
    pub history: Seq<Sample>,
}

impl View for Host {
    type V = HostView;

    open spec fn view(&self) -> HostView {
        HostView {
            id: self.id,
            name: self.name@,
            ip: address_view(self.ip),
            status: self.status@,
            interval_ms: self.interval_ms,
            paused: self.paused,
            removed: self.removed,
            visible: self.visible,
            time_origin: self.time_origin,
            color_idx: self.color_idx,
            history: self.history@,
        }
    }
}

impl HostView {
    /// The round-trip times of the answered pings.
    pub open spec fn hits(self) -> Seq<u64> {
        hits(self.history)
    }

    /// How many pings were sent.
    pub open spec fn sent(self) -> nat {
        self.history.len()
    }

    /// How many pings were answered.
    pub open spec fn received(self) -> nat {
        self.hits().len()
    }

    /// How many pings were lost.
    pub open spec fn lost(self) -> nat {
        (self.sent() - self.received()) as nat
    }

    /// The round-trip time of the last ping, if it was answered.
    pub open spec fn last_rtt(self) -> Option<u64> {
        if self.history.len() == 0 {
            None
        } else {
            self.history.last().rtt
        }
    }

    /// The round-trip times of the answered pings, smallest first.
    pub open spec fn sorted_hits(self) -> Seq<u64> {
        self.hits().sort_by(smaller_first())
    }

    /// The smallest round-trip time.
    pub open spec fn min_rtt(self) -> Option<u64> {
        if self.received() == 0 {
            None
        } else {
            Some(choose|m: u64| is_least(self.hits(), m))
        }
    }

    /// The largest round-trip time; 0 without any answer.
    pub open spec fn max_rtt(self) -> u64 {
        if self.received() == 0 {
            0
        } else {
            choose|m: u64| is_greatest(self.hits(), m)
        }
    }

    /// The mean round-trip time in nanoseconds.
    pub open spec fn avg_rtt(self) -> Option<Fraction> {
        if self.received() == 0 {
            None
        } else {
            Some(Fraction { num: total(self.hits()) as u128, den: self.received() as u128 })
        }
    }

    /// The mean distance between the round-trip times of neighbouring answers.
    pub open spec fn avg_jitter(self) -> Option<Fraction> {
        if self.received() < 2 {
            None
        } else {
            Some(
                Fraction { num: swings(self.hits()) as u128, den: (self.received() - 1) as u128 },
            )
        }
    }

    /// The lost packets in percent of the sent ones.
    pub open spec fn loss_pct(self) -> Number {
        if self.sent() == 0 {
            number(0, 100, 0, 1)
        } else {
            number(0, 100, self.lost() as int, self.sent() as int)
        }
    }

    /// Whether the mean round-trip time is at most `threshold` nanoseconds.
    pub open spec fn rtt_ok(self, threshold: nat) -> bool {
        total(self.hits()) <= threshold * self.received()
    }

    /// Whether the loss is at most `threshold` millionths of a percent.
    pub open spec fn loss_ok(self, threshold: nat) -> bool {
        100 * self.lost() * 1_000_000 <= threshold * self.sent()
    }

    /// The verdict against the two thresholds.
    pub open spec fn sla(self, rtt_threshold: nat, loss_threshold: nat) -> Sla {
        if self.received() == 0 {
            Sla::NoData
        } else if self.rtt_ok(rtt_threshold) && self.loss_ok(loss_threshold) {
            Sla::Pass
        } else if !self.rtt_ok(rtt_threshold) && !self.loss_ok(loss_threshold) {
            Sla::Fail
        } else {
            Sla::Warn
        }
    }

    /// The host with one more ping.
    pub open spec fn recorded(self, session_t: u64, rtt: Option<u64>) -> HostView {
        HostView {
            history: self.history.push(Sample { at: (session_t - self.time_origin) as i128, rtt }),
            ..self
        }
    }

    /// The host without any ping, counting time from `session_t` on.
    pub open spec fn reset_at(self, session_t: u64) -> HostView {
        HostView { history: Seq::empty(), time_origin: session_t, ..self }
    }
}

/// The times of the samples are differences of session times.
pub open spec fn times_fit(history: Seq<Sample>) -> bool {
    forall|i: int|
        0 <= i < history.len() ==> -u64::MAX <= (#[trigger] history[i]).at <= u64::MAX
}

impl Host {
    /// The counters and sums agree with the history.
    pub open spec fn wf(self) -> bool {
        let h = self@.hits();
        &&& self.sent == self.history@.len() <= MAX_SENT
        &&& times_fit(self.history@)
        &&& self.received == h.len()
        &&& match self.min_rtt {
            Some(m) => is_least(h, m),
            None => h.len() == 0,
        }
        &&& if h.len() == 0 {
            self.max_rtt == 0
        } else {
            is_greatest(h, self.max_rtt)
        }
        &&& self.sum_rtt == total(h)
        &&& self.last_rtt == self@.last_rtt()
        &&& self.prev_rtt == (if h.len() == 0 {
            None
        } else {
            Some(h.last())
        })
        &&& self.jitter_sum == swings(h)
        &&& self.jitter_count == (if h.len() < 2 {
            0
        } else {
            h.len() - 1
        })
    }

    /// A host that was never pinged.
    pub fn new(id: usize, name: String, interval_ms: u64, color_idx: usize) -> (h: Host)
        ensures
            h.wf(),
            h@ == (HostView {
                id,
                name: name@,
                ip: None,
                status: StatusView::Idle,
                interval_ms,
                paused: false,
                removed: false,
                visible: true,
                time_origin: 0,
                color_idx,
                history: Seq::empty(),
            }),
    {
        Host {
            id,
            name,
            ip: None,
            status: Status::Idle,
            interval_ms,
            paused: false,
            removed: false,
            visible: true,
            time_origin: 0,
            color_idx,
            sent: 0,
            received: 0,
            min_rtt: None,
            max_rtt: 0,
            sum_rtt: 0,
            last_rtt: None,
            prev_rtt: None,
            jitter_sum: 0,
            jitter_count: 0,
            history: Vec::new(),
        }
    }

    /// The mean round-trip time, once there is an answer.
    pub fn avg_rtt(&self) -> (r: Option<Fraction>)
        requires
            self.wf(),
        ensures
            r == self@.avg_rtt(),
            r matches Some(f) ==> f.num == total(self@.hits()) && f.den == self@.received(),
    {
        if self.received == 0 {
            None
        } else {
            Some(Fraction { num: self.sum_rtt, den: self.received as u128 })
        }
    }

    /// The mean jitter, once there are two answers.
    pub fn avg_jitter(&self) -> (r: Option<Fraction>)
        requires
            self.wf(),
        ensures
            r == self@.avg_jitter(),
            r matches Some(f) ==> f.num == swings(self@.hits()) && f.den == self@.received() - 1,
    {
        if self.jitter_count == 0 {
            None
        } else {
            Some(Fraction { num: self.jitter_sum, den: self.jitter_count as u128 })
        }
    }

    /// How many pings were lost.
    pub fn lost(&self) -> (n: u64)
        requires
            self.wf(),
        ensures
            n == self@.lost(),
    {
        proof {
            lemma_hits_len(self.history@);
        }
        self.sent - self.received
    }

    /// The lost packets in percent of the sent ones.
    pub fn loss_pct(&self) -> (n: Number)
        requires
            self.wf(),
        ensures
            n == self@.loss_pct(),
            n.wf(),
    {
        proof {
            lemma_hits_len(self.history@);
        }
        if self.sent == 0 {
            Number { offset: 0, gain: 100, num: 0, den: 1 }
        } else {
            Number { offset: 0, gain: 100, num: self.lost() as i128, den: self.sent as u128 }
        }
    }

    /// Adds the result of one ping that ended at `session_t`: its round-trip
    /// time, or nothing where the packet was lost.
    pub fn record(&mut self, session_t: u64, rtt: Option<u64>)
        requires
            old(self).wf(),
            old(self).sent < MAX_SENT,
        ensures
            final(self).wf(),
            final(self)@ == old(self)@.recorded(session_t, rtt),
    {
        let ghost before = self.history@;
        let ghost h = hits(before);
        let at: i128 = session_t as i128 - self.time_origin as i128;
        proof {
            lemma_hits_len(before);
            lemma_total_bounds(h, 0, u64::MAX as int);
            lemma_swings_bound(h);
            assert(u64::MAX * h.len() <= u64::MAX * MAX_SENT) by (nonlinear_arith)
                requires
                    h.len() <= MAX_SENT,
            ;
        }
        self.sent = self.sent + 1;
        if let Some(nanos) = rtt {
            self.received = self.received + 1;
            match self.min_rtt {
                Some(m) => {
                    if nanos < m {
                        self.min_rtt = Some(nanos);
                    }
                },
                None => {
                    self.min_rtt = Some(nanos);
                },
            }
            if nanos > self.max_rtt {
                self.max_rtt = nanos;
            }
            self.sum_rtt = self.sum_rtt + nanos as u128;
            if let Some(prev) = self.prev_rtt {
                let step: u64 = if prev <= nanos { nanos - prev } else { prev - nanos };
                self.jitter_sum = self.jitter_sum + step as u128;
                self.jitter_count = self.jitter_count + 1;
            }
            self.prev_rtt = Some(nanos);
            self.last_rtt = Some(nanos);
        } else {
            self.last_rtt = None;
        }
        self.history.push(Sample { at, rtt });
        proof {
            assert(self.history@.drop_last() =~= before);
            let after = hits(self.history@);
            if let Some(nanos) = rtt {
                assert(after == h.push(nanos));
                assert(after.drop_last() =~= h);
                assert(after.last() == nanos);
                assert(after.contains(nanos));
                assert forall|v: u64| h.contains(v) implies after.contains(v) by {
                    let i = choose|i: int| 0 <= i < h.len() && h[i] == v;
                    assert(after[i] == v);
                }
                if h.len() == 0 {
                    assert(swings(after) == 0);
                } else {
                    assert(after[after.len() - 2] == h.last());
                }
            } else {
                assert(after == h);
            }
        }
    }

    /// Forgets all pings.
    pub fn reset(&mut self)
        ensures
            final(self).wf(),
            final(self)@ == old(self)@.reset_at(old(self).time_origin),
    {
        self.sent = 0;
        self.received = 0;
        self.min_rtt = None;
        self.max_rtt = 0;
        self.sum_rtt = 0;
        self.last_rtt = None;
        self.prev_rtt = None;
        self.jitter_sum = 0;
        self.jitter_count = 0;
        self.history.clear();
    }

    /// Forgets all pings and counts time from `session_t` on.
    pub fn reset_at(&mut self, session_t: u64)
        ensures
            final(self).wf(),
            final(self)@ == old(self)@.reset_at(session_t),
    {
        self.reset();
        self.time_origin = session_t;
    }

    /// The colour of the host's status.
    pub fn status_color(&self) -> (c: Color)
        requires
            self.wf(),
        ensures
            c == self@.status.color(self@.lost()),
    {
        self.status.color(self.lost())
    }

    /// The round-trip times of the answered pings, smallest first.
    pub fn rtt_samples_sorted(&self) -> (v: Vec<u64>)
        ensures
            v@ == self@.sorted_hits(),
            ordered(v@),
            v@.to_multiset() == self@.hits().to_multiset(),
    {
        let mut v: Vec<u64> = Vec::new();
        let n: usize = self.history.len();
        assert(self.history@.take(0) =~= Seq::empty());
        for i in 0..n
            invariant
                n == self.history@.len(),
                v@ == hits(self.history@.take(i as int)),
        {
            assert(self.history@.take(i + 1).drop_last() =~= self.history@.take(i as int));
            if let Some(rtt) = self.history[i].rtt {
                v.push(rtt);
            }
        }
        assert(self.history@.take(n as int) =~= self.history@);
        assert(all_comparable(v@));
        let sorted = sort(v);
        proof {
            lemma_ordered_unique(self@.hits(), sorted@);
        }
        sorted
    }

    /// The verdict against a threshold for the mean round-trip time, in
    /// nanoseconds, and one for the loss, in millionths of a percent.
    pub fn sla(&self, rtt_threshold: u64, loss_threshold: u64) -> (r: Sla)
        requires
            self.wf(),
        ensures
            r == self@.sla(rtt_threshold as nat, loss_threshold as nat),
            r == Sla::NoData <==> hits(self@.history).len() == 0,
            r == Sla::Pass || r == Sla::Fail ==> {
                let all = hits(self@.history);
                let lost = self@.history.len() - all.len();
                &&& r == Sla::Pass <==> total(all) <= rtt_threshold * all.len()
                &&& r == Sla::Pass <==> 100_000_000 * lost <= loss_threshold * self@.history.len()
            },
            r == Sla::Warn ==> {
                let all = hits(self@.history);
                let lost = self@.history.len() - all.len();
                (total(all) <= rtt_threshold * all.len()) != (100_000_000 * lost <= loss_threshold
                    * self@.history.len())
            },
    {
        if self.received == 0 {
            return Sla::NoData;
        }
        let lost: u64 = self.lost();
        proof {
            lemma_hits_len(self.history@);
        }
        let ghost received = self.received;
        let ghost sent = self.sent;
        assert(rtt_threshold * received <= u64::MAX * u64::MAX) by (nonlinear_arith)
            requires
                rtt_threshold <= u64::MAX,
                received <= u64::MAX,
        ;
        assert(loss_threshold * sent <= u64::MAX * u64::MAX) by (nonlinear_arith)
            requires
                loss_threshold <= u64::MAX,
                sent <= u64::MAX,
        ;
        let rtt_ok: bool = self.sum_rtt <= rtt_threshold as u128 * self.received as u128;
        let loss_ok: bool = 100 * lost as u128 * 1_000_000 <= loss_threshold as u128
            * self.sent as u128;
        match (rtt_ok, loss_ok) {
            (true, true) => Sla::Pass,
            (false, false) => Sla::Fail,
            _ => Sla::Warn,
        }
    }

    /// The badge of the verdict against the two thresholds.
    pub fn sla_result(&self, rtt_threshold: u64, loss_threshold: u64) -> (r: (&'static str, Color))
        requires
            self.wf(),
        ensures
            (r.0@, r.1) == self@.sla(rtt_threshold as nat, loss_threshold as nat).badge(),
    {
        match self.sla(rtt_threshold, loss_threshold) {
            Sla::NoData => ("  —  ", Color::Dim),
            Sla::Pass => (" PASS ", Color::Good),
            Sla::Fail => (" FAIL ", Color::Bad),
            Sla::Warn => (" WARN ", Color::Warn),
        }
    }
}

/// The kept extremes are those of the history.
pub proof fn lemma_extremes(h: Host)
    requires
        h.wf(),
    ensures
        h.min_rtt == h@.min_rtt(),
        h.max_rtt == h@.max_rtt(),
{
    let all = h@.hits();
    if all.len() > 0 {
        let low = choose|m: u64| is_least(all, m);
        let high = choose|m: u64| is_greatest(all, m);
        assert(is_least(all, h.min_rtt->0));
        assert(is_greatest(all, h.max_rtt));
        let i = choose|i: int| 0 <= i < all.len() && all[i] == low;
        let j = choose|j: int| 0 <= j < all.len() && all[j] == high;
        assert(all[i] == low && all[j] == high);
    }
}

/// The sums fit in 127 bits.
pub proof fn lemma_sums_fit(h: Host)
    requires
        h.wf(),
    ensures
        h.sum_rtt <= i128::MAX,
        h.jitter_sum <= i128::MAX,
        h.received <= h.sent <= MAX_SENT,
{
    let all = h@.hits();
    lemma_hits_len(h.history@);
    lemma_total_bounds(all, 0, u64::MAX as int);
    lemma_swings_bound(all);
    assert(u64::MAX * all.len() <= u64::MAX * MAX_SENT) by (nonlinear_arith)
        requires
            all.len() <= MAX_SENT,
    ;
}

// ---------------------------------------------------------------------------
// Laws
// ---------------------------------------------------------------------------

/// The mean lies between the smallest and the largest round-trip time.
pub proof fn law_mean_between_extremes(h: Host)
    requires
        h.wf(),
        h.received > 0,
    ensures
        h.min_rtt is Some,
        h.min_rtt->0 * h.received <= h.sum_rtt <= h.max_rtt * h.received,
{
    lemma_total_bounds(h@.hits(), h.min_rtt->0 as int, h.max_rtt as int);
}

/// A ping is either answered or lost: one more answer leaves the losses, one
/// more loss leaves the answers, and there are never more answers than pings.
pub proof fn law_answered_or_lost(h: HostView, session_t: u64, rtt: Option<u64>)
    ensures
        h.received() <= h.sent(),
        h.sent() == h.received() + h.lost(),
        h.recorded(session_t, rtt).sent() == h.sent() + 1,
        rtt is Some ==> h.recorded(session_t, rtt).received() == h.received() + 1 && h.recorded(
            session_t,
            rtt,
        ).lost() == h.lost(),
        rtt is None ==> h.recorded(session_t, rtt).received() == h.received() && h.recorded(
            session_t,
            rtt,
        ).lost() == h.lost() + 1,
{
    lemma_hits_len(h.history);
    assert(h.recorded(session_t, rtt).history.drop_last() =~= h.history);
}

/// A lost packet changes no statistic over round-trip times but the last one,
/// which is then unknown.
pub proof fn law_loss_keeps_round_trip_statistics(h: HostView, session_t: u64)
    ensures
        h.recorded(session_t, None).hits() == h.hits(),
        h.recorded(session_t, None).avg_rtt() == h.avg_rtt(),
        h.recorded(session_t, None).avg_jitter() == h.avg_jitter(),
        h.recorded(session_t, None).last_rtt() is None,
{
    assert(h.recorded(session_t, None).history.drop_last() =~= h.history);
}

/// Data is collected whether or not a host is shown on the chart.
pub proof fn law_hidden_hosts_collect(h: HostView, visible: bool, session_t: u64, rtt: Option<u64>)
    ensures
        (HostView { visible, ..h }).recorded(session_t, rtt) == (HostView {
            visible,
            ..h.recorded(session_t, rtt)
        }),
{
}

/// A reset forgets every ping: what was recorded before it makes no difference.
pub proof fn law_reset_forgets(
    h: HostView,
    session_t: u64,
    rtt: Option<u64>,
    now: u64,
)
    ensures
        h.recorded(session_t, rtt).reset_at(now) == h.reset_at(now),
        h.reset_at(now).sent() == 0,
        h.reset_at(now).received() == 0,
        h.reset_at(now).loss_pct().num == 0,
        h.reset_at(now).avg_rtt() is None,
        h.reset_at(now).avg_jitter() is None,
        h.reset_at(now).last_rtt() is None,
{
}

/// After a reset the history counts from the time of the reset.
pub proof fn law_reset_anchors_time(h: HostView, now: u64, session_t: u64, rtt: Option<u64>)
    ensures
        h.reset_at(now).recorded(session_t, rtt).history =~= seq![
            Sample { at: (session_t - now) as i128, rtt },
        ],
{
}

/// Looser thresholds never spoil a passed verdict, and stricter ones never mend
/// a failed one.
pub proof fn law_sla_monotone(h: HostView, rtt1: nat, rtt2: nat, loss1: nat, loss2: nat)
    requires
        rtt1 <= rtt2,
        loss1 <= loss2,
    ensures
        h.sla(rtt1, loss1) == Sla::Pass ==> h.sla(rtt2, loss2) == Sla::Pass,
        h.sla(rtt2, loss2) == Sla::Fail ==> h.sla(rtt1, loss1) == Sla::Fail,
{
    let received = h.received();
    let sent = h.sent();
    assert(rtt1 * received <= rtt2 * received) by (nonlinear_arith)
        requires
            rtt1 <= rtt2,
    ;
    assert(loss1 * sent <= loss2 * sent) by (nonlinear_arith)
        requires
            loss1 <= loss2,
    ;
}

/// The sorted samples are as many as the answers, begin with the smallest
/// round-trip time and end with the largest.
pub proof fn law_sorted_extremes(h: Host)
    requires
        h.wf(),
        h.received > 0,
    ensures
        ordered(h@.sorted_hits()),
        h@.sorted_hits().len() == h.received,
        h.min_rtt == Some(h@.sorted_hits()[0]),
        h.max_rtt == h@.sorted_hits().last(),
{
    broadcast use vstd::seq_lib::group_to_multiset_ensures;

    let all = h@.hits();
    let sorted = h@.sorted_hits();
    let low = h.min_rtt->0;
    let high = h.max_rtt;
    all.lemma_sort_by_ensures(smaller_first());
    assert forall|i: int, j: int| 0 <= i < j < sorted.len() implies (#[trigger] sorted[i]).ranks(
        #[trigger] sorted[j],
    ) by {
        assert((smaller_first())(sorted[i], sorted[j]));
    }
    assert(sorted.to_multiset().len() == all.to_multiset().len());
    assert(sorted.to_multiset().count(low) > 0 && sorted.to_multiset().count(high) > 0);
    assert(sorted.contains(low) && sorted.contains(high));
    let i = choose|i: int| 0 <= i < sorted.len() && sorted[i] == low;
    let j = choose|j: int| 0 <= j < sorted.len() && sorted[j] == high;
    assert(all.to_multiset().count(sorted[0]) > 0 && all.to_multiset().count(sorted.last()) > 0);
    assert(all.contains(sorted[0]) && all.contains(sorted.last()));
    assert(i == 0 || sorted[0].ranks(sorted[i]));
    assert(j == sorted.len() - 1 || sorted[j].ranks(sorted.last()));
}

} // verus!
