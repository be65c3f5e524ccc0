//! What holds of the panels of the window, the log and the colours.

use vstd::prelude::*;

use crate::boxes::box_plot;
use crate::chart::{chart_end, chart_top, hit_points, miss_points};
use crate::console::{AppView, MultiPingApp};
use crate::doc::figure;
use crate::host::{HostView, Status, StatusView};
use crate::host_laws::{law_verdict_judges_mean_and_loss, law_verdicts_are_told_apart};
use crate::icon::pixel;
use crate::log::{
    entry_of, law_filter_exact, log_file, log_file_name, log_lines, lowercase, passes, pushed,
    shown, EntryView, LogEntry, LogLevel, RULER,
};
use crate::monitor::{Edit, Summary};
use crate::monitor_laws::law_kept_are_not_removed;
use crate::number::number;
use crate::palette::{chart_palette, Color, Rgb};
use crate::panel::{
    axis_ends, drawn, host_series, labels, latency_row, log_row, panel_scale, rows_at, scale_note,
    strip, summary_shown, Clicks, Label, LatencyRow, LogRow, Series,
};
use crate::report_laws::lemma_extremes_are;
use crate::stats::{hits, is_greatest, is_least, lemma_hits_len, swings, total};
use crate::text::{decimal, occurs, occurs_at, padded, right_aligned};

verus! {

// ---------------------------------------------------------------------------
// Summary
// ---------------------------------------------------------------------------

/// The summary shows the failing hosts, the hosts without a reply and the hosts
/// online, in this order, each with its number; it leaves out the first two
/// where there are none, and shows nothing without hosts. It is good where all
/// hosts are online.
pub proof fn law_summary_labels(s: Summary)
    ensures
        ({
            let v = summary_shown(s);
            let online = "● "@ + decimal(s.online as nat) + "/"@ + decimal(s.total as nat)
                + " online"@;
            let tone = if s.online == s.total {
                Color::Good
            } else {
                Color::Warn
            };
            let err = ("✕ "@ + decimal(s.err as nat) + " err"@, Color::Bad);
            let timeout = ("⚠ "@ + decimal(s.timeout as nat) + " timeout"@, Color::Warn);
            &&& s.total == 0 ==> v.len() == 0
            &&& s.total > 0 && s.err == 0 && s.timeout == 0 ==> v == seq![(online, tone)]
            &&& s.total > 0 && s.err > 0 && s.timeout == 0 ==> v == seq![err, (online, tone)]
            &&& s.total > 0 && s.err == 0 && s.timeout > 0 ==> v == seq![timeout, (online, tone)]
            &&& s.total > 0 && s.err > 0 && s.timeout > 0 ==> v == seq![
                err,
                timeout,
                (online, tone),
            ]
        }),
{
}

// ---------------------------------------------------------------------------
// Chart
// ---------------------------------------------------------------------------

/// The chart draws the visible hosts, all of them and in order.
pub proof fn law_visible_hosts_are_drawn(hosts: Seq<HostView>)
    ensures
        drawn(hosts) == hosts.filter(|h: HostView| h.visible).map_values(
            |h: HostView| host_series(h),
        ),
    decreases hosts.len(),
{
    reveal(Seq::filter);
    let visible = |h: HostView| h.visible;
    let f = |h: HostView| host_series(h);
    if hosts.len() > 0 {
        let front = hosts.drop_last();
        law_visible_hosts_are_drawn(front);
        if hosts.last().visible {
            assert(front.filter(visible).push(hosts.last()).map_values(f) =~= front.filter(
                visible,
            ).map_values(f).push(host_series(hosts.last())));
        }
    }
    assert(drawn(hosts) =~= hosts.filter(visible).map_values(f));
}

/// A host is drawn under its name, in the colour of its slot, with a line
/// through its answered pings and a cross for each lost one.
pub proof fn law_series_of_a_host(h: HostView)
    ensures
        host_series(h).name == h.name,
        host_series(h).color == chart_palette()[h.color_idx as int % 10],
        host_series(h).line == hit_points(h.history),
        host_series(h).crosses == miss_points(h.history),
{
}

/// The strip shows the round-trip time of the last ping, and a dash where that
/// was lost or where there was none.
pub proof fn law_strip_shows_last_ping(h: HostView)
    ensures
        h.history.len() == 0 ==> strip(h) == h.name + "  —"@,
        h.history.len() > 0 && h.history.last().rtt is None ==> strip(h) == h.name + "  —"@,
        h.history.len() > 0 && h.history.last().rtt is Some ==> strip(h) == h.name + "  "@ + figure(
            number(0, 1, h.history.last().rtt->0 as int, 1_000_000),
            1,
        ) + " ms"@,
{
}

/// The axes end at the last ping in seconds, and at 120 percent of the largest
/// round-trip time in milliseconds.
pub proof fn law_axes_end(hosts: Seq<HostView>)
    ensures
        axis_ends(hosts).0 == number(0, 1, chart_end(hosts), 1_000_000_000),
        axis_ends(hosts).1 == number(0, 1, 120 * chart_top(hosts, 10_000_000), 100_000_000),
{
}

// ---------------------------------------------------------------------------
// Latency panel
// ---------------------------------------------------------------------------

/// What a row of the panel says of its host: its name and address, the
/// round-trip time of its last ping, its statistics in milliseconds, its loss,
/// its counts and its verdict; a dash stands for what there is not.
pub proof fn law_row_says_what_the_host_did(
    h: HostView,
    scale: u64,
    app: AppView,
    low: u64,
    high: u64,
)
    requires
        hits(h.history).len() > 0 ==> is_least(hits(h.history), low) && is_greatest(
            hits(h.history),
            high,
        ),
    ensures
        ({
            let all = hits(h.history);
            let n = all.len() as int;
            let r = latency_row(h, scale, app);
            &&& r.name == (match h.ip {
                Some(ip) => h.name + "  ("@ + ip.text + ")"@,
                None => h.name,
            })
            &&& r.last == "last "@ + (if h.history.len() == 0 || h.history.last().rtt is None {
                " —  "@
            } else {
                right_aligned(
                    figure(number(0, 1, h.history.last().rtt->0 as int, 1_000_000), 1),
                    6,
                )
            })
            &&& r.min == "min "@ + (if n == 0 {
                " —  "@
            } else {
                right_aligned(figure(number(0, 1, low as int, 1_000_000), 1), 6)
            })
            &&& r.avg == "avg "@ + (if n == 0 {
                " —  "@
            } else {
                right_aligned(figure(number(0, 1, total(all) as int, n * 1_000_000), 1), 6)
            })
            &&& r.max == "max "@ + (if n == 0 {
                " —  "@
            } else {
                right_aligned(figure(number(0, 1, high as int, 1_000_000), 1), 6)
            })
            &&& r.jitter == "±"@ + (if n < 2 {
                " —  "@
            } else {
                right_aligned(figure(number(0, 1, swings(all) as int, (n - 1) * 1_000_000), 1), 5)
            })
            &&& r.loss == "loss "@ + right_aligned(figure(h.loss_pct(), 1), 5) + "%"@
            &&& r.loss_color == (if all.len() == h.history.len() {
                Color::Good
            } else {
                Color::Warn
            })
            &&& r.sent == "sent "@ + decimal(h.history.len())
            &&& r.received == "recv "@ + decimal(all.len())
        }),
{
    lemma_hits_len(h.history);
    lemma_extremes_are(h, low, high);
}

/// How a row of the panel looks: its colours, its box plot on the shared scale,
/// which is at least a millisecond, its verdict, and its controls, which offer
/// to pause a host that runs and to let one that is paused go on.
pub proof fn law_row_looks(h: HostView, scale: u64, app: AppView)
    ensures
        ({
            let all = hits(h.history);
            let r = latency_row(h, scale, app);
            let fast = total(all) <= app.sla_rtt * all.len();
            let clean = 100_000_000 * (h.history.len() - all.len()) <= app.sla_loss
                * h.history.len();
            let (word, tone) = if all.len() == 0 {
                ("  —  "@, Color::Dim)
            } else if fast && clean {
                (" PASS "@, Color::Good)
            } else if !fast && !clean {
                (" FAIL "@, Color::Bad)
            } else {
                (" WARN "@, Color::Warn)
            };
            &&& r.id == h.id
            &&& r.chart_color == chart_palette()[h.color_idx as int % 10]
            &&& r.status_color == (match h.status {
                StatusView::Idle => Color::Dim,
                StatusView::Resolving => Color::Info,
                StatusView::Online => if all.len() == h.history.len() {
                    Color::Good
                } else {
                    Color::Warn
                },
                _ => Color::Bad,
            })
            &&& r.name_color == (if h.paused {
                Color::Dim
            } else {
                Color::Text
            })
            &&& r.bar == (if all.len() == 0 {
                None
            } else if scale < 1_000_000 {
                Some(box_plot(h, 1_000_000, 0, 300))
            } else {
                Some(box_plot(h, scale as int, 0, 300))
            })
            &&& r.sla == word && r.sla_color == tone
            &&& h.paused ==> r.pause_sign == "▶"@ && r.pause_hint == "Resume"@
            &&& !h.paused ==> r.pause_sign == "⏸"@ && r.pause_hint == "Pause"@
            &&& r.paused == h.paused
            &&& r.visible == h.visible
            &&& r.interval_ms == h.interval_ms
        }),
{
    lemma_hits_len(h.history);
    law_verdict_judges_mean_and_loss(h, app.sla_rtt as nat, app.sla_loss as nat);
    law_verdicts_are_told_apart(h.sla(app.sla_rtt as nat, app.sla_loss as nat));
}

/// The rows of the panel are those of the hosts at the given places, in this
/// order, all on one scale: the largest round-trip time of the hosts that are
/// not removed, and at least 50 milliseconds.
pub proof fn law_rows_share_a_scale(
    hosts: Seq<HostView>,
    places: Seq<usize>,
    app: AppView,
    k: int,
)
    requires
        0 <= k < places.len(),
    ensures
        rows_at(hosts, places, app).len() == places.len(),
        rows_at(hosts, places, app)[k] == latency_row(
            hosts[places[k] as int],
            chart_top(hosts.filter(|h: HostView| !h.removed), 50_000_000),
            app,
        ),
        panel_scale(hosts) == chart_top(hosts.filter(|h: HostView| !h.removed), 50_000_000),
{
    law_kept_are_not_removed(hosts);
}

/// What the panel says of its scale.
pub proof fn law_scale_is_named(scale: u64)
    ensures
        scale_note(scale) == "scale  0 – "@ + figure(number(0, 1, scale as int, 1_000_000), 0)
            + " ms"@,
{
}

/// Clicks are carried out kind by kind, and within a kind in order: hosts are
/// removed, paused or let go on, hidden or shown, reset, and given another
/// interval.
pub proof fn law_clicks_in_order(c: Clicks, now: u64)
    ensures
        ({
            let edits = c.edits(now);
            let a = c.remove@.len() as int;
            let b = a + c.pause@.len();
            let d = b + c.visible@.len();
            let e = d + c.reset@.len();
            &&& edits.len() == e + c.interval@.len()
            &&& forall|i: int| 0 <= i < a ==> #[trigger] edits[i] == (c.remove@[i], Edit::Remove)
            &&& forall|i: int|
                a <= i < b ==> #[trigger] edits[i] == (c.pause@[i - a], Edit::TogglePause)
            &&& forall|i: int|
                b <= i < d ==> #[trigger] edits[i] == (c.visible@[i - b], Edit::ToggleVisible)
            &&& forall|i: int|
                d <= i < e ==> #[trigger] edits[i] == (c.reset@[i - d], Edit::Reset(now))
            &&& forall|i: int|
                e <= i < edits.len() ==> #[trigger] edits[i] == (
                    c.interval@[i - e].0,
                    Edit::Interval(c.interval@[i - e].1),
                )
        }),
{
}

// ---------------------------------------------------------------------------
// Log
// ---------------------------------------------------------------------------

/// A new line stands behind all others, which keep their order; only where
/// there are 5000 lines does the oldest one leave.
pub proof fn law_new_lines_come_last(log: Seq<EntryView>, e: EntryView)
    ensures
        log.len() < 5000 ==> pushed(log, e) == log.push(e),
        log.len() >= 5000 ==> pushed(log, e) == log.subrange(1, log.len() as int).push(e),
{
}

/// A line holds what it was made of.
pub proof fn law_lines_hold_their_parts(
    time: Seq<char>,
    host: Seq<char>,
    msg: Seq<char>,
    level: LogLevel,
)
    ensures
        entry_of(time, host, msg, level).time == time,
        entry_of(time, host, msg, level).host == host,
        entry_of(time, host, msg, level).msg == msg,
        entry_of(time, host, msg, level).level == level,
{
}

/// The levels have different tags, all four characters wide, and different
/// colours.
pub proof fn law_levels_are_told_apart(level: LogLevel)
    ensures
        level == LogLevel::Info ==> level.tag() == "INFO"@ && level.tone() == Color::Info,
        level == LogLevel::Good ==> level.tag() == "OK  "@ && level.tone() == Color::Good,
        level == LogLevel::Warn ==> level.tag() == "WARN"@ && level.tone() == Color::Warn,
        level == LogLevel::Bad ==> level.tag() == "ERR "@ && level.tone() == Color::Bad,
        level.tag().len() == 4,
{
    reveal_strlit("INFO");
    reveal_strlit("OK  ");
    reveal_strlit("WARN");
    reveal_strlit("ERR ");
}

/// A filter that is not empty passes the lines that hold it somewhere in the
/// host or somewhere in the message, whatever the case of the letters.
pub proof fn law_filter_searches_host_and_message(log: Seq<EntryView>, filter: Seq<char>, k: int)
    requires
        0 <= k < log.len(),
    ensures
        ({
            let wanted = lowercase(filter);
            let host = lowercase(log[k].host);
            let msg = lowercase(log[k].msg);
            shown(log, filter).contains(k) <==> {
                ||| wanted.len() == 0
                ||| exists|i: int|
                    0 <= i <= host.len() - wanted.len() && #[trigger] host.subrange(
                        i,
                        i + wanted.len(),
                    ) == wanted
                ||| exists|i: int|
                    0 <= i <= msg.len() - wanted.len() && #[trigger] msg.subrange(
                        i,
                        i + wanted.len(),
                    ) == wanted
            }
        }),
{
    let wanted = lowercase(filter);
    let host = lowercase(log[k].host);
    let msg = lowercase(log[k].msg);
    law_filter_exact(log, filter);
    assert(log[k].host == log[k].host);
    assert(shown(log, filter).contains(k) <==> passes(host, msg, wanted));
    if passes(host, msg, wanted) && wanted.len() > 0 {
        if occurs(host, wanted) {
            let i = choose|i: int| occurs_at(host, wanted, i);
            assert(host.subrange(i, i + wanted.len()) == wanted);
        } else {
            let i = choose|i: int| occurs_at(msg, wanted, i);
            assert(msg.subrange(i, i + wanted.len()) == wanted);
        }
    }
    if exists|i: int|
        0 <= i <= host.len() - wanted.len() && #[trigger] host.subrange(i, i + wanted.len())
            == wanted {
        let i = choose|i: int|
            0 <= i <= host.len() - wanted.len() && #[trigger] host.subrange(i, i + wanted.len())
                == wanted;
        assert(occurs_at(host, wanted, i));
    }
    if exists|i: int|
        0 <= i <= msg.len() - wanted.len() && #[trigger] msg.subrange(i, i + wanted.len())
            == wanted {
        let i = choose|i: int|
            0 <= i <= msg.len() - wanted.len() && #[trigger] msg.subrange(i, i + wanted.len())
                == wanted;
        assert(occurs_at(msg, wanted, i));
    }
}

/// How a line of the log is shown.
pub proof fn law_log_rows(e: EntryView)
    ensures
        log_row(e).time == e.time,
        log_row(e).tag == e.level.tag(),
        log_row(e).color == e.level.tone(),
        log_row(e).host == padded(e.host, 22),
        log_row(e).msg == e.msg,
{
}

/// The exported log holds a line for each entry, in order: its time, its level,
/// its host in 25 characters and its message.
pub proof fn law_exported_log(time: Seq<char>, log: Seq<EntryView>, stamp: Seq<char>)
    ensures
        log_lines(log) == log.map_values(
            |e: EntryView|
                "["@ + e.time + "]  ["@ + e.level.tag() + "]  "@ + padded(e.host, 25) + "  "@ + e.msg
                    + "\n"@,
        ).flatten(),
        log_file(time, log).len() >= log_lines(log).len(),
        log_file(time, log).skip(log_file(time, log).len() - log_lines(log).len()) == log_lines(
            log,
        ),
        log_file(time, log).take(
            ("pinger — Activity Log\nExported: "@.len() + time.len()) as int,
        ) == "pinger — Activity Log\nExported: "@ + time,
        log_file(time, log).len() == "pinger — Activity Log\nExported: "@.len() + time.len() + 83
            + log_lines(log).len(),
        log_file(time, log).subrange(
            ("pinger — Activity Log\nExported: "@.len() + time.len()) as int,
            ("pinger — Activity Log\nExported: "@.len() + time.len() + 83) as int,
        ) == seq!['\n'] + Seq::new(80, |i: int| '─') + seq!['\n', '\n'],
        log_file_name(stamp) == "pinger_log_"@ + stamp + ".txt"@,
    decreases log.len(),
{
    broadcast use Seq::lemma_flatten_push;

    let f = |e: EntryView|
        "["@ + e.time + "]  ["@ + e.level.tag() + "]  "@ + padded(e.host, 25) + "  "@ + e.msg
            + "\n"@;
    if log.len() == 0 {
        assert(log.map_values(f) =~= Seq::empty());
    } else {
        law_exported_log(time, log.drop_last(), stamp);
        assert(log.map_values(f) =~= log.drop_last().map_values(f).push(f(log.last())));
    }
    let file = log_file(time, log);
    let lines = log_lines(log);
    let head = "pinger — Activity Log\nExported: "@ + time;
    reveal_strlit("────────────────────────────────────────────────────────────────────────────────");
    reveal_strlit("\n");
    reveal_strlit("\n\n");
    assert(RULER@ =~= Seq::new(80, |i: int| '─'));
    assert(file.skip(file.len() - lines.len()) =~= lines);
    assert(file.take(head.len() as int) =~= head);
    assert(file.subrange(head.len() as int, (head.len() + 83) as int) =~= seq!['\n'] + Seq::new(
        80,
        |i: int| '─',
    ) + seq!['\n', '\n']);
}

// ---------------------------------------------------------------------------
// Colours and the icon
// ---------------------------------------------------------------------------

/// The chart colours in their order.
pub proof fn law_chart_palette()
    ensures
        chart_palette().len() == 10,
        chart_palette()[0] == (Rgb { r: 220, g: 50, b: 50 }),
        chart_palette()[1] == (Rgb { r: 30, g: 130, b: 210 }),
        chart_palette()[2] == (Rgb { r: 40, g: 170, b: 80 }),
        chart_palette()[3] == (Rgb { r: 210, g: 140, b: 0 }),
        chart_palette()[4] == (Rgb { r: 150, g: 60, b: 200 }),
        chart_palette()[5] == (Rgb { r: 0, g: 180, b: 180 }),
        chart_palette()[6] == (Rgb { r: 230, g: 100, b: 0 }),
        chart_palette()[7] == (Rgb { r: 180, g: 30, b: 120 }),
        chart_palette()[8] == (Rgb { r: 80, g: 160, b: 80 }),
        chart_palette()[9] == (Rgb { r: 100, g: 100, b: 210 }),
{
}

/// The colours that carry a meaning: green for good, orange for a warning, red
/// for bad, blue for information, greys for the rest.
pub proof fn law_meaning_of_colours(c: Color)
    ensures
        ({
            let p = c.parts();
            &&& c == Color::Good ==> p == (Rgb { r: 16, g: 124, b: 16 })
            &&& c == Color::Warn ==> p == (Rgb { r: 202, g: 80, b: 16 })
            &&& c == Color::Bad ==> p == (Rgb { r: 196, g: 43, b: 28 })
            &&& c == Color::Info || c == Color::Accent ==> p == (Rgb { r: 0, g: 102, b: 204 })
            &&& c == Color::Text ==> p == (Rgb { r: 32, g: 32, b: 32 })
            &&& c == Color::Dim ==> p == (Rgb { r: 110, g: 110, b: 110 })
            &&& c == Color::Border ==> p == (Rgb { r: 200, g: 200, b: 200 })
            &&& c == Color::Bg0 ==> p == (Rgb { r: 240, g: 240, b: 240 })
            &&& c == Color::Bg1 ==> p == (Rgb { r: 243, g: 243, b: 243 })
            &&& c == Color::Bg2 ==> p == (Rgb { r: 255, g: 255, b: 255 })
        }),
{
}

/// A pixel of the icon is clear beyond a rounded corner, white on the letter and
/// blue elsewhere. A corner is rounded around a centre that lies four pixels
/// from both of its sides, with a radius of five.
pub proof fn law_icon_pixels(x: int, y: int)
    requires
        0 <= x < 32,
        0 <= y < 32,
    ensures
        ({
            let dx = if x <= 15 { 4 - x } else { x - 27 };
            let dy = if y <= 15 { 4 - y } else { y - 27 };
            let clear = dx >= 0 && dy >= 0 && dx * dx + dy * dy > 25;
            let stem = 7 <= x <= 11 && 6 <= y <= 26;
            let bowl = 11 <= x <= 23 && (6 <= y <= 10 || 16 <= y <= 20) || 20 <= x <= 24 && 6 <= y
                <= 20;
            pixel(x, y) == (if clear {
                seq![0u8, 0u8, 0u8, 0u8]
            } else if stem || bowl {
                seq![255u8, 255u8, 255u8, 255u8]
            } else {
                seq![0u8, 102u8, 204u8, 255u8]
            })
        }),
{
    reveal(pixel);
    let dx = if x <= 15 { 4 - x } else { x - 27 };
    let dy = if y <= 15 { 4 - y } else { y - 27 };
    assert(0 <= dx <= 4 ==> dx * dx <= 16) by (nonlinear_arith);
    assert(0 <= dy <= 4 ==> dy * dy <= 16) by (nonlinear_arith);
}

// ---------------------------------------------------------------------------
// Views
// ---------------------------------------------------------------------------

/// What is known of a row of the latency panel is what it holds.
pub proof fn law_rows_show_what_they_hold(r: LatencyRow)
    ensures
        r@.id == r.id,
        r@.chart_color == r.chart_color,
        r@.status_color == r.status_color,
        r@.name_color == r.name_color,
        r@.bar == r.bar,
        r@.loss_color == r.loss_color,
        r@.sla_color == r.sla_color,
        r@.paused == r.paused,
        r@.visible == r.visible,
        r@.interval_ms == r.interval_ms,
        r@.name == r.name@,
        r@.last == r.last@,
        r@.min == r.min@,
        r@.avg == r.avg@,
        r@.max == r.max@,
        r@.jitter == r.jitter@,
        r@.loss == r.loss@,
        r@.sent == r.sent@,
        r@.received == r.received@,
        r@.sla == r.sla@,
        r@.pause_sign == r.pause_sign@,
        r@.pause_hint == r.pause_hint@,
{
}

/// What is known of a line of the log, of a label and of a series of the chart
/// is what they hold.
pub proof fn law_parts_show_what_they_hold(
    row: LogRow,
    label: Label,
    series: Series,
    entry: LogEntry,
    all: Seq<Label>,
    i: int,
)
    requires
        0 <= i < all.len(),
    ensures
        row@.time == row.time@ && row@.tag == row.tag@ && row@.color == row.color && row@.host
            == row.host@ && row@.msg == row.msg@,
        label@.0 == label.text@ && label@.1 == label.color,
        labels(all).len() == all.len() && labels(all)[i] == all[i]@,
        series@.name == series.name@ && series@.color == series.color && series@.line
            == series.line@ && series@.crosses == series.crosses@,
        entry@.time == entry.time@ && entry@.host == entry.host@ && entry@.msg == entry.msg@
            && entry@.level == entry.level,
{
}

/// What is known of the controls is what they hold.
pub proof fn law_controls_show_what_they_hold(app: MultiPingApp)
    ensures
        app@.interval_ms == app.interval_ms,
        app@.sla_rtt == app.sla_rtt,
        app@.sla_loss == app.sla_loss,
        app@.log_autoscroll == app.log_autoscroll,
        app@.show_log == app.show_log,
        app@.host_input == app.host_input@,
        app@.sweep_input == app.sweep_input@,
        app@.network_location == app.network_location@,
        app@.report_comment == app.report_comment@,
        app@.log_filter == app.log_filter@,
        app@.status_bar == app.status_bar@,
{
}

/// A status is known as what it is, with the words of an error.
pub proof fn law_statuses_show_what_they_are(s: Status)
    ensures
        match s {
            Status::Idle => s@ is Idle,
            Status::Resolving => s@ is Resolving,
            Status::Online => s@ is Online,
            Status::Timeout => s@ is Timeout,
            Status::Error(e) => s@ == StatusView::Error(e@),
        },
{
}

} // verus!
