//! What the panels of the window show.

use std::collections::VecDeque;

use vstd::prelude::*;

use crate::boxes::{box_plot, place_box, BoxPlot};
use crate::chart::{chart_end, chart_top, hit_points, miss_points, series, x_end, y_top};
use crate::console::{AppView, MultiPingApp};
use crate::doc::{figure, write_number};
use crate::host::{Host, HostView};
use crate::log::{entries, filter_entries, shown, EntryView, LogEntry};
use crate::monitor::{
    all_wf, edited, fastest_first, kept, ref_views, Edit, Monitor, MonitorView, Summary,
};
use crate::number::{ms, ms_number, number, Number, NANOS_PER_MS, NANOS_PER_S};
use crate::palette::{chart_palette, host_color, Color, Rgb};
use crate::report::{avg_shown, figures_of, jitter_shown, max_shown, min_shown};
use crate::text::{align_right, decimal, pad, padded, push_decimal, right_aligned};

verus! {

/// How often the window is drawn anew, in milliseconds.
pub const REPAINT_INTERVAL_MS: u64 = 250;

/// A text in a colour.
#[derive(Debug, PartialEq, Eq)]
pub struct Label {
    pub text: String,
    pub color: Color,
}

impl View for Label {
    type V = (Seq<char>, Color);

    open spec fn view(&self) -> (Seq<char>, Color) {
        (self.text@, self.color)
    }
}

/// The texts of labels, with their colours.
pub open spec fn labels(v: Seq<Label>) -> Seq<(Seq<char>, Color)> {
    v.map_values(|l: Label| l@)
}

// ---------------------------------------------------------------------------
// Menu bar
// ---------------------------------------------------------------------------

/// The labels of the live summary; none without hosts.
pub open spec fn summary_shown(s: Summary) -> Seq<(Seq<char>, Color)> {
    let err = if s.err > 0 {
        seq![("✕ "@ + decimal(s.err as nat) + " err"@, Color::Bad)]
    } else {
        Seq::empty()
    };
    let timeout = if s.timeout > 0 {
        seq![("⚠ "@ + decimal(s.timeout as nat) + " timeout"@, Color::Warn)]
    } else {
        Seq::empty()
    };
    let online = (
        "● "@ + decimal(s.online as nat) + "/"@ + decimal(s.total as nat) + " online"@,
        if s.online == s.total {
            Color::Good
        } else {
            Color::Warn
        },
    );
    if s.total == 0 {
        Seq::empty()
    } else {
        (err + timeout).push(online)
    }
}

/// The labels of the live summary.
pub fn summary_labels(s: &Summary) -> (v: Vec<Label>)
    ensures
        labels(v@) == summary_shown(*s),
{
    let mut v: Vec<Label> = Vec::new();
    if s.total == 0 {
        assert(labels(v@) =~= summary_shown(*s));
        return v;
    }
    if s.err > 0 {
        let mut text = "✕ ".to_owned();
        push_decimal(&mut text, s.err as u64);
        text.append(" err");
        v.push(Label { text, color: Color::Bad });
    }
    if s.timeout > 0 {
        let mut text = "⚠ ".to_owned();
        push_decimal(&mut text, s.timeout as u64);
        text.append(" timeout");
        v.push(Label { text, color: Color::Warn });
    }
    let mut text = "● ".to_owned();
    push_decimal(&mut text, s.online as u64);
    text.append("/");
    push_decimal(&mut text, s.total as u64);
    text.append(" online");
    let color = if s.online == s.total { Color::Good } else { Color::Warn };
    v.push(Label { text, color });
    assert(labels(v@) =~= summary_shown(*s));
    v
}

/// What the buttons that pause or resume all hosts say: the menu entry, the
/// sign of the button, and its hint.
pub fn pause_all_texts(running: bool) -> (r: (&'static str, &'static str, &'static str))
    ensures
        (r.0@, r.1@, r.2@) == (if running {
            ("⏸  Pause All"@, "⏸"@, "Pause All"@)
        } else {
            ("▶  Resume All"@, "▶"@, "Resume All"@)
        }),
{
    if running {
        ("⏸  Pause All", "⏸", "Pause All")
    } else {
        ("▶  Resume All", "▶", "Resume All")
    }
}

// ---------------------------------------------------------------------------
// Log panel
// ---------------------------------------------------------------------------

/// A line of the log panel.
#[derive(Debug, PartialEq, Eq)]
pub struct LogRow {
    pub time: String,
    pub tag: &'static str,
    pub color: Color,
    pub host: String,
    pub msg: String,
}

/// A line of the log panel, by its characters.
pub struct LogRowView {
    pub time: Seq<char>,
    pub tag: Seq<char>,
    pub color: Color,
    pub host: Seq<char>,
    pub msg: Seq<char>,
}

impl View for LogRow {
    type V = LogRowView;

    open spec fn view(&self) -> LogRowView {
        LogRowView {
            time: self.time@,
            tag: self.tag@,
            color: self.color,
            host: self.host@,
            msg: self.msg@,
        }
    }
}

/// How an entry of the log is shown.
pub open spec fn log_row(e: EntryView) -> LogRowView {
    LogRowView {
        time: e.time,
        tag: e.level.tag(),
        color: e.level.tone(),
        host: padded(e.host, 22),
        msg: e.msg,
    }
}

/// The lines of the log panel: the entries that pass the filter, in order.
pub fn log_rows(logs: &VecDeque<LogEntry>, filter: &str) -> (v: Vec<LogRow>)
    ensures
        v@.map_values(|r: LogRow| r@) == shown(entries(logs@), filter@).map_values(
            |i: int| log_row(entries(logs@)[i]),
        ),
{
    let places = filter_entries(logs, filter);
    let n: usize = places.len();
    let ghost all = entries(logs@);
    let ghost ints = places@.map_values(|i: usize| i as int);
    proof {
        crate::log::law_filter_exact(all, filter@);
    }
    let mut v: Vec<LogRow> = Vec::new();
    for k in 0..n
        invariant
            n == places@.len(),
            all == entries(logs@),
            ints == places@.map_values(|i: usize| i as int),
            ints == shown(all, filter@),
            forall|j: int| 0 <= j < ints.len() ==> 0 <= #[trigger] ints[j] < all.len(),
            v@.len() == k,
            forall|j: int| 0 <= j < k ==> (#[trigger] v@[j])@ == log_row(all[ints[j]]),
    {
        assert(0 <= ints[k as int] < all.len() && ints[k as int] == places@[k as int]);
        let i: usize = places[k];
        assert(i < logs@.len());
        let e: &LogEntry = &logs[i];
        assert(e@ == all[ints[k as int]]);
        v.push(
            LogRow {
                time: e.time.clone(),
                tag: e.level.label(),
                color: e.level.color(),
                host: pad(e.host.as_str(), 22),
                msg: e.msg.clone(),
            },
        );
    }
    assert(v@.map_values(|r: LogRow| r@) =~= shown(all, filter@).map_values(
        |i: int| log_row(all[i]),
    ));
    v
}

/// How many entries the log has, as the open and as the hidden panel say it.
pub fn log_counts(count: usize) -> (r: (String, String))
    ensures
        r.0@ == decimal(count as nat) + " entries"@,
        r.1@ == decimal(count as nat) + " log entries"@,
{
    let mut open = String::new();
    push_decimal(&mut open, count as u64);
    let mut hidden = open.clone();
    open.append(" entries");
    hidden.append(" log entries");
    assert(open@ =~= decimal(count as nat) + " entries"@);
    assert(hidden@ =~= decimal(count as nat) + " log entries"@);
    (open, hidden)
}

// ---------------------------------------------------------------------------
// Chart panel
// ---------------------------------------------------------------------------

/// What the strip above the chart says of a host: its name and the round-trip
/// time of its last ping.
pub open spec fn strip(h: HostView) -> Seq<char> {
    match h.last_rtt() {
        Some(rtt) => h.name + "  "@ + figure(ms_number(rtt as int), 1) + " ms"@,
        None => h.name + "  —"@,
    }
}

/// What the strip above the chart says of a host.
pub fn strip_text(h: &Host) -> (s: String)
    requires
        h.wf(),
    ensures
        s@ == strip(h@),
{
    let mut s = h.name.clone();
    match h.last_rtt {
        Some(rtt) => {
            s.append("  ");
            s.append(write_number(&ms(rtt), 1).as_str());
            s.append(" ms");
        },
        None => {
            s.append("  —");
        },
    }
    s
}

/// The axes of the chart end at these numbers: the last ping in seconds, and a
/// fifth more than the largest round-trip time in milliseconds.
pub open spec fn axis_ends(hosts: Seq<HostView>) -> (Number, Number) {
    (
        number(0, 1, chart_end(hosts), NANOS_PER_S as int),
        number(0, 1, 120 * chart_top(hosts, (10 * NANOS_PER_MS) as u64), 100 * NANOS_PER_MS),
    )
}

/// The ends of the axes of the chart.
pub fn axis_limits(hosts: &Vec<&Host>) -> (r: (Number, Number))
    requires
        all_wf(hosts@),
    ensures
        r == axis_ends(ref_views(hosts@)),
        r.0.wf(),
        r.1.wf(),
{
    let end: u64 = x_end(hosts);
    let top: u64 = y_top(hosts, 10_000_000);
    (
        Number { offset: 0, gain: 1, num: end as i128, den: NANOS_PER_S as u128 },
        Number { offset: 0, gain: 1, num: 120 * top as i128, den: 100 * NANOS_PER_MS as u128 },
    )
}

/// What the chart draws for one host: a line through the answered pings and a
/// cross at each lost one, both in one colour and under one name.
#[derive(Debug, PartialEq, Eq)]
pub struct Series {
    pub name: String,
    pub color: Rgb,
    pub line: Vec<(i128, u64)>,
    pub crosses: Vec<i128>,
}

/// What the chart draws for one host, by its contents.
#[verifier::ext_equal]
pub struct SeriesView {
    pub name: Seq<char>,
    pub color: Rgb,
    pub line: Seq<(i128, u64)>,
    pub crosses: Seq<i128>,
}

impl View for Series {
    type V = SeriesView;

    open spec fn view(&self) -> SeriesView {
        SeriesView {
            name: self.name@,
            color: self.color,
            line: self.line@,
            crosses: self.crosses@,
        }
    }
}

/// What the chart draws for a host.
pub open spec fn host_series(h: HostView) -> SeriesView {
    SeriesView {
        name: h.name,
        color: chart_palette()[h.color_idx as int % 10],
        line: hit_points(h.history),
        crosses: miss_points(h.history),
    }
}

/// What the chart draws: the hosts that are visible.
pub open spec fn drawn(hosts: Seq<HostView>) -> Seq<SeriesView>
    decreases hosts.len(),
{
    if hosts.len() == 0 {
        Seq::empty()
    } else if hosts.last().visible {
        drawn(hosts.drop_last()).push(host_series(hosts.last()))
    } else {
        drawn(hosts.drop_last())
    }
}

/// What the chart draws of the hosts.
pub fn chart_series(hosts: &Vec<&Host>) -> (v: Vec<Series>)
    ensures
        v@.map_values(|s: Series| s@) == drawn(ref_views(hosts@)),
{
    let ghost all = ref_views(hosts@);
    let n: usize = hosts.len();
    let mut v: Vec<Series> = Vec::new();
    assert(v@.map_values(|s: Series| s@) =~= drawn(all.take(0)));
    for i in 0..n
        invariant
            n == hosts@.len(),
            all == ref_views(hosts@),
            v@.map_values(|s: Series| s@) == drawn(all.take(i as int)),
    {
        assert(all.take(i + 1).drop_last() =~= all.take(i as int));
        let h: &Host = hosts[i];
        assert(all[i as int] == h@);
        if h.visible {
            let (line, crosses) = series(h);
            let ghost before = v@;
            v.push(Series { name: h.name.clone(), color: host_color(h.color_idx), line, crosses });
            assert(v@.last()@ =~= host_series(h@));
            assert(v@.map_values(|s: Series| s@) =~= before.map_values(|s: Series| s@).push(
                host_series(h@),
            ));
        }
    }
    assert(all.take(n as int) =~= all);
    v
}

// ---------------------------------------------------------------------------
// Latency panel
// ---------------------------------------------------------------------------

/// A row of the latency panel.
#[derive(Debug, PartialEq, Eq)]
pub struct LatencyRow {
    pub id: usize,
    pub chart_color: Rgb,
    pub status_color: Color,
    pub name: String,
    pub name_color: Color,
    /// The box plot, on an axis from 0 to 300; none without any answer.
    pub bar: Option<BoxPlot>,
    pub last: String,
    pub min: String,
    pub avg: String,
    pub max: String,
    pub jitter: String,
    pub loss: String,
    pub loss_color: Color,
    pub sent: String,
    pub received: String,
    pub sla: &'static str,
    pub sla_color: Color,
    pub pause_sign: &'static str,
    pub pause_hint: &'static str,
    pub paused: bool,
    pub visible: bool,
    pub interval_ms: u64,
}

/// A row of the latency panel, by its characters.
#[verifier::ext_equal]
pub struct RowView {
    pub id: usize,
    pub chart_color: Rgb,
    pub status_color: Color,
    pub name: Seq<char>,
    pub name_color: Color,
    pub bar: Option<BoxPlot>,
    pub last: Seq<char>,
    pub min: Seq<char>,
    pub avg: Seq<char>,
    pub max: Seq<char>,
    pub jitter: Seq<char>,
    pub loss: Seq<char>,
    pub loss_color: Color,
    pub sent: Seq<char>,
    pub received: Seq<char>,
    pub sla: Seq<char>,
    pub sla_color: Color,
    pub pause_sign: Seq<char>,
    pub pause_hint: Seq<char>,
    pub paused: bool,
    pub visible: bool,
    pub interval_ms: u64,
}

impl View for LatencyRow {
    type V = RowView;

    open spec fn view(&self) -> RowView {
        RowView {
            id: self.id,
            chart_color: self.chart_color,
            status_color: self.status_color,
            name: self.name@,
            name_color: self.name_color,
            bar: self.bar,
            last: self.last@,
            min: self.min@,
            avg: self.avg@,
            max: self.max@,
            jitter: self.jitter@,
            loss: self.loss@,
            loss_color: self.loss_color,
            sent: self.sent@,
            received: self.received@,
            sla: self.sla@,
            sla_color: self.sla_color,
            pause_sign: self.pause_sign@,
            pause_hint: self.pause_hint@,
            paused: self.paused,
            visible: self.visible,
            interval_ms: self.interval_ms,
        }
    }
}

/// A label and a number with one digit behind the point, or a dash.
pub open spec fn stat(label: Seq<char>, value: Option<Number>, width: nat) -> Seq<char> {
    match value {
        Some(n) => label + right_aligned(figure(n, 1), width),
        None => label + " —  "@,
    }
}

/// A label and a number with one digit behind the point, or a dash.
fn stat_text(label: &str, value: Option<Number>, width: usize) -> (s: String)
    requires
        value matches Some(n) ==> n.wf(),
    ensures
        s@ == stat(label@, value, width as nat),
{
    let mut s = label.to_owned();
    match value {
        Some(n) => {
            let digits = write_number(&n, 1);
            s.append(align_right(digits.as_str(), width).as_str());
        },
        None => {
            s.append(" —  ");
        },
    }
    s
}

/// The name of a host, with its address where that is known.
pub open spec fn name_and_address(h: HostView) -> Seq<char> {
    match h.ip {
        Some(ip) => h.name + "  ("@ + ip.text + ")"@,
        None => h.name,
    }
}

/// The colour of a loss of `lost` packets: good without any, and a warning with
/// some.
pub open spec fn loss_color(lost: nat) -> Color {
    if lost == 0 {
        Color::Good
    } else {
        Color::Warn
    }
}

/// The round-trip time of the last ping in milliseconds, if it was answered.
pub open spec fn last_shown(h: HostView) -> Option<Number> {
    match h.last_rtt() {
        Some(rtt) => Some(ms_number(rtt as int)),
        None => None,
    }
}

/// The scale of a box plot: at least a millisecond.
pub open spec fn bar_scale(scale: u64) -> u64 {
    if scale < NANOS_PER_MS {
        NANOS_PER_MS
    } else {
        scale
    }
}

/// The row of a host, with a box plot on the scale `scale`, against the
/// thresholds of the controls.
pub open spec fn latency_row(h: HostView, scale: u64, app: AppView) -> RowView {
    let verdict = h.sla(app.sla_rtt as nat, app.sla_loss as nat);
    RowView {
        id: h.id,
        chart_color: chart_palette()[h.color_idx as int % 10],
        status_color: h.status.color(h.lost()),
        name: name_and_address(h),
        name_color: if h.paused {
            Color::Dim
        } else {
            Color::Text
        },
        bar: if h.received() == 0 {
            None
        } else {
            Some(box_plot(h, bar_scale(scale) as int, 0, 300))
        },
        last: stat("last "@, last_shown(h), 6),
        min: stat("min "@, min_shown(h), 6),
        avg: stat("avg "@, avg_shown(h), 6),
        max: stat("max "@, max_shown(h), 6),
        jitter: stat("±"@, jitter_shown(h), 5),
        loss: "loss "@ + right_aligned(figure(h.loss_pct(), 1), 5) + "%"@,
        loss_color: loss_color(h.lost()),
        sent: "sent "@ + decimal(h.sent()),
        received: "recv "@ + decimal(h.received()),
        sla: verdict.badge().0,
        sla_color: verdict.badge().1,
        pause_sign: if h.paused {
            "▶"@
        } else {
            "⏸"@
        },
        pause_hint: if h.paused {
            "Resume"@
        } else {
            "Pause"@
        },
        paused: h.paused,
        visible: h.visible,
        interval_ms: h.interval_ms,
    }
}

/// The row of a host.
pub fn draw_latency_row(h: &Host, scale: u64, app: &MultiPingApp) -> (r: LatencyRow)
    requires
        h.wf(),
    ensures
        r@ == latency_row(h@, scale, app@),
        r.bar matches Some(b) ==> b.wf(),
{
    let f = figures_of(h);
    let lost: u64 = h.lost();
    let mut name = h.name.clone();
    if let Some(ip) = &h.ip {
        name.append("  (");
        name.append(ip.text.as_str());
        name.append(")");
    }
    let bar = if h.received == 0 {
        None
    } else {
        let at_least: u64 = if scale < NANOS_PER_MS { NANOS_PER_MS } else { scale };
        Some(place_box(h, at_least, 0, 300))
    };
    let mut loss = "loss ".to_owned();
    loss.append(align_right(write_number(&h.loss_pct(), 1).as_str(), 5).as_str());
    loss.append("%");
    let loss_color = if lost == 0 {
        Color::Good
    } else {
        Color::Warn
    };
    let last = match h.last_rtt {
        Some(rtt) => Some(ms(rtt)),
        None => None,
    };
    let mut sent = "sent ".to_owned();
    push_decimal(&mut sent, h.sent);
    let mut received = "recv ".to_owned();
    push_decimal(&mut received, h.received);
    let (sla, sla_color) = h.sla_result(app.sla_rtt, app.sla_loss);
    LatencyRow {
        id: h.id,
        chart_color: host_color(h.color_idx),
        status_color: h.status_color(),
        name,
        name_color: if h.paused { Color::Dim } else { Color::Text },
        bar,
        last: stat_text("last ", last, 6),
        min: stat_text("min ", f.min, 6),
        avg: stat_text("avg ", f.avg, 6),
        max: stat_text("max ", f.max, 6),
        jitter: stat_text("±", f.jitter, 5),
        loss,
        loss_color,
        sent,
        received,
        sla,
        sla_color,
        pause_sign: if h.paused { "▶" } else { "⏸" },
        pause_hint: if h.paused { "Resume" } else { "Pause" },
        paused: h.paused,
        visible: h.visible,
        interval_ms: h.interval_ms,
    }
}

/// The scale that all box plots of the panel share: the largest round-trip time
/// of the hosts that are not removed, and at least 50 milliseconds.
pub open spec fn panel_scale(hosts: Seq<HostView>) -> u64 {
    chart_top(kept(hosts), (50 * NANOS_PER_MS) as u64)
}

/// The rows of the hosts at the given places.
pub open spec fn rows_at(
    hosts: Seq<HostView>,
    places: Seq<usize>,
    app: AppView,
) -> Seq<RowView> {
    places.map_values(|i: usize| latency_row(hosts[i as int], panel_scale(hosts), app))
}

/// What the panel says of its scale.
pub open spec fn scale_note(scale: u64) -> Seq<char> {
    "scale  0 – "@ + figure(ms_number(scale as int), 0) + " ms"@
}

/// The latency panel: what it says of its scale, and its rows, fastest first.
pub fn latency_panel(monitor: &Monitor, app: &MultiPingApp) -> (r: (String, Vec<LatencyRow>))
    requires
        monitor.wf(),
    ensures
        r.0@ == scale_note(panel_scale(monitor@.hosts)),
        exists|places: Seq<usize>| #[trigger]
            fastest_first(monitor@.hosts, places) && r.1@.map_values(|row: LatencyRow| row@)
                == rows_at(monitor@.hosts, places, app@),
        forall|k: int|
            0 <= k < r.1@.len() ==> ((#[trigger] r.1@[k]).bar matches Some(b) ==> b.wf()),
{
    let ghost hosts = monitor@.hosts;
    let scale: u64 = y_top(&monitor.kept_hosts(), 50_000_000);
    assert(scale == panel_scale(hosts));
    let places = monitor.by_latency();
    let n: usize = places.len();
    let mut rows: Vec<LatencyRow> = Vec::new();
    for k in 0..n
        invariant
            n == places@.len(),
            monitor.wf(),
            hosts == monitor@.hosts,
            scale == panel_scale(hosts),
            fastest_first(hosts, places@),
            rows@.len() == k,
            forall|j: int|
                0 <= j < k ==> (#[trigger] rows@[j])@ == latency_row(
                    hosts[places@[j] as int],
                    scale,
                    app@,
                ),
            forall|j: int|
                0 <= j < k ==> ((#[trigger] rows@[j]).bar matches Some(b) ==> b.wf()),
    {
        let i: usize = places[k];
        assert(places@[k as int] < hosts.len() && !hosts[i as int].removed);
        let h: &Host = &monitor.hosts[i];
        assert(hosts[i as int] == h@);
        rows.push(draw_latency_row(h, scale, app));
    }
    assert(rows@.map_values(|row: LatencyRow| row@) =~= rows_at(hosts, places@, app@));
    let mut note = "scale  0 – ".to_owned();
    note.append(write_number(&ms(scale), 0).as_str());
    note.append(" ms");
    (note, rows)
}

/// What was clicked in the rows of the latency panel: the numbers of the hosts,
/// and the new intervals.
#[derive(Debug, PartialEq, Eq)]
pub struct Clicks {
    pub remove: Vec<usize>,
    pub pause: Vec<usize>,
    pub visible: Vec<usize>,
    pub reset: Vec<usize>,
    pub interval: Vec<(usize, u64)>,
}

/// The same change for each of the hosts.
pub open spec fn each(ids: Seq<usize>, edit: Edit) -> Seq<(usize, Edit)> {
    ids.map_values(|id: usize| (id, edit))
}

impl Clicks {
    /// The changes that the clicks ask for, in the order in which they are made.
    pub open spec fn edits(self, now: u64) -> Seq<(usize, Edit)> {
        each(self.remove@, Edit::Remove) + each(self.pause@, Edit::TogglePause) + each(
            self.visible@,
            Edit::ToggleVisible,
        ) + each(self.reset@, Edit::Reset(now)) + self.interval@.map_values(
            |c: (usize, u64)| (c.0, Edit::Interval(c.1)),
        )
    }

    /// No clicks.
    pub fn new() -> (c: Clicks)
        ensures
            forall|now: u64| #[trigger] c.edits(now) == Seq::<(usize, Edit)>::empty(),
    {
        let c = Clicks {
            remove: Vec::new(),
            pause: Vec::new(),
            visible: Vec::new(),
            reset: Vec::new(),
            interval: Vec::new(),
        };
        assert forall|now: u64| #[trigger] c.edits(now) == Seq::<(usize, Edit)>::empty() by {
            assert(c.edits(now) =~= Seq::<(usize, Edit)>::empty());
        }
        c
    }
}

/// Adds the same change for each of the hosts.
fn add_each(edits: &mut Vec<(usize, Edit)>, ids: &Vec<usize>, edit: Edit)
    ensures
        final(edits)@ == old(edits)@ + each(ids@, edit),
{
    let n: usize = ids.len();
    assert(edits@ =~= old(edits)@ + each(ids@.take(0), edit));
    for i in 0..n
        invariant
            n == ids@.len(),
            edits@ == old(edits)@ + each(ids@.take(i as int), edit),
    {
        edits.push((ids[i], edit));
        assert(edits@ =~= old(edits)@ + each(ids@.take(i + 1), edit));
    }
    assert(ids@.take(n as int) =~= ids@);
}

impl Monitor {
    /// Makes the changes that the clicks ask for at the session time `now`.
    pub fn apply_clicks(&mut self, clicks: &Clicks, now: u64)
        requires
            old(self).wf(),
        ensures
            final(self).wf(),
            final(self)@ == (MonitorView {
                hosts: edited(old(self)@.hosts, clicks.edits(now)),
                ..old(self)@
            }),
    {
        let mut edits: Vec<(usize, Edit)> = Vec::new();
        add_each(&mut edits, &clicks.remove, Edit::Remove);
        add_each(&mut edits, &clicks.pause, Edit::TogglePause);
        add_each(&mut edits, &clicks.visible, Edit::ToggleVisible);
        add_each(&mut edits, &clicks.reset, Edit::Reset(now));
        let ghost head = edits@;
        let ghost f = |c: (usize, u64)| (c.0, Edit::Interval(c.1));
        let n: usize = clicks.interval.len();
        assert(edits@ =~= head + clicks.interval@.take(0).map_values(f));
        for i in 0..n
            invariant
                n == clicks.interval@.len(),
                f == (|c: (usize, u64)| (c.0, Edit::Interval(c.1))),
                edits@ == head + clicks.interval@.take(i as int).map_values(f),
        {
            let (id, interval_ms) = clicks.interval[i];
            edits.push((id, Edit::Interval(interval_ms)));
            assert(edits@ =~= head + clicks.interval@.take(i + 1).map_values(f));
        }
        assert(clicks.interval@.take(n as int) =~= clicks.interval@);
        assert(edits@ =~= clicks.edits(now));
        self.apply_edits(&edits);
    }
}

} // verus!
