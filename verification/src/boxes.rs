//! Box plots of the round-trip times: where their parts stand, and the
//! distribution chart of the report.

use vstd::prelude::*;

use crate::chart::{chart_top, line_color, line_color_text, y_top};
use crate::chart_laws::law_box_plot_cuts_nothing_off;
use crate::doc::{figure, Doc};
use crate::host::{
    law_mean_between_extremes, law_sorted_extremes, lemma_extremes, lemma_sums_fit,
    Host, HostView, MAX_SENT,
};
use crate::markup::{escaped, xml_esc};
use crate::monitor::{all_wf, ref_views};
use crate::number::{ms, ms_number, number, Number, NANOS_PER_MS};
use crate::stats::{
    hits, law_percentile_between_extremes, law_percentile_monotone, lemma_total_bounds,
    percentile_scaled, smaller_first, total,
};

verus! {

// ---------------------------------------------------------------------------
// Geometry
// ---------------------------------------------------------------------------

/// Where the parts of a box plot stand: the whiskers at the smallest and the
/// largest round-trip time, the box from the first to the third quartile, the
/// median and the mean.
#[derive(Clone, Copy, Debug, PartialEq, Eq)]
pub struct BoxPlot {
    pub min: Number,
    pub p25: Number,
    pub median: Number,
    pub p75: Number,
    pub max: Number,
    pub mean: Number,
    /// How wide the box is.
    pub spread: Number,
}

impl BoxPlot {
    /// All places can be written out.
    pub open spec fn wf(self) -> bool {
        &&& self.min.wf()
        &&& self.p25.wf()
        &&& self.median.wf()
        &&& self.p75.wf()
        &&& self.max.wf()
        &&& self.mean.wf()
        &&& self.spread.wf()
    }
}

/// The quartile `k` times four.
pub open spec fn quartile(h: HostView, k: nat) -> int {
    percentile_scaled(h.sorted_hits(), k, 4)
}

/// `v`, and at most `limit`.
pub open spec fn capped(v: int, limit: int) -> int {
    if v <= limit {
        v
    } else {
        limit
    }
}

/// The box plot of a host on an axis that begins at `offset` and is `width`
/// wide for `scale` nanoseconds; what lies beyond stands at its end. The upper
/// whisker stands at least 2 behind the lower one, and the box is at least 2
/// wide.
pub open spec fn box_plot(h: HostView, scale: int, offset: int, width: int) -> BoxPlot {
    let low = capped(h.min_rtt()->0 as int, scale);
    let high = capped(h.max_rtt() as int, scale);
    let q1 = capped(quartile(h, 1), 4 * scale);
    let q2 = capped(quartile(h, 2), 4 * scale);
    let q3 = capped(quartile(h, 3), 4 * scale);
    let sum = capped(total(h.hits()) as int, h.received() * scale);
    let long = width * low + 2 * scale <= width * high;
    let wide = width * q1 + 8 * scale <= width * q3;
    BoxPlot {
        min: number(offset, width, low, scale),
        p25: number(offset, width, q1, 4 * scale),
        median: number(offset, width, q2, 4 * scale),
        p75: if wide {
            number(offset, width, q3, 4 * scale)
        } else {
            number(offset + 2, width, q1, 4 * scale)
        },
        max: if long {
            number(offset, width, high, scale)
        } else {
            number(offset + 2, width, low, scale)
        },
        mean: number(offset, width, sum, h.received() * scale),
        spread: if wide {
            number(0, width, q3 - q1, 4 * scale)
        } else {
            number(2, 0, 0, 1)
        },
    }
}

/// The quartiles stand in order between the extremes.
pub proof fn law_quartiles_ordered(h: Host)
    requires
        h.wf(),
        h.received > 0,
    ensures
        h@.min_rtt() is Some,
        4 * h@.min_rtt()->0 <= quartile(h@, 1) <= quartile(h@, 2) <= quartile(h@, 3) <= 4
            * h@.max_rtt(),
{
    let sorted = h@.sorted_hits();
    lemma_extremes(h);
    law_sorted_extremes(h);
    law_percentile_between_extremes(sorted, 1, 4);
    law_percentile_monotone(sorted, 1, 4, 2, 4);
    law_percentile_monotone(sorted, 2, 4, 3, 4);
    law_percentile_between_extremes(sorted, 3, 4);
}

/// A scale that holds all round-trip times cuts nothing off.
pub proof fn law_scale_cuts_nothing_off(h: Host, scale: u64)
    requires
        h.wf(),
        h.received > 0,
        h.max_rtt <= scale,
    ensures
        h@.min_rtt()->0 <= scale,
        h@.max_rtt() <= scale,
        quartile(h@, 1) <= quartile(h@, 2) <= quartile(h@, 3) <= 4 * scale,
        total(h@.hits()) <= h@.received() * scale,
{
    law_quartiles_ordered(h);
    law_mean_between_extremes(h);
    lemma_extremes(h);
    let high = h.max_rtt as int;
    let n = h.received as int;
    assert(high * n <= n * scale) by (nonlinear_arith)
        requires
            high <= scale,
            n >= 0,
    ;
}

/// No part of a box plot stands before the beginning of the axis or behind its
/// end, but for a whisker and a side of the box that are pushed 2 to the right.
pub proof fn law_box_plot_on_axis(h: Host, scale: u64, offset: u32, width: u32)
    requires
        h.wf(),
        h.received > 0,
        0 < scale,
    ensures
        ({
            let b = box_plot(h@, scale as int, offset as int, width as int);
            &&& 0 <= b.min.num <= b.min.den
            &&& 0 <= b.p25.num <= b.p25.den
            &&& 0 <= b.median.num <= b.median.den
            &&& 0 <= b.p75.num <= b.p75.den
            &&& 0 <= b.max.num <= b.max.den
            &&& 0 <= b.mean.num <= b.mean.den
            &&& b.min.offset == offset && b.p25.offset == offset && b.median.offset == offset
                && b.mean.offset == offset
            &&& offset <= b.p75.offset <= offset + 2
            &&& offset <= b.max.offset <= offset + 2
        }),
{
    law_quartiles_ordered(h);
    lemma_received_scale(h, scale);
}

/// The denominator of the mean fits.
proof fn lemma_received_scale(h: Host, scale: u64)
    requires
        h.wf(),
        h.received > 0,
        0 < scale,
    ensures
        1 <= h.received * scale <= MAX_SENT * u64::MAX,
        h@.received() * scale == h.received * scale,
{
    lemma_sums_fit(h);
    let n = h.received as int;
    assert(1 <= n * scale <= MAX_SENT * u64::MAX) by (nonlinear_arith)
        requires
            1 <= n <= MAX_SENT,
            1 <= scale <= u64::MAX,
    ;
}

/// `v`, and at most `limit`.
fn cap(v: u128, limit: u128) -> (r: u128)
    ensures
        r == capped(v as int, limit as int),
{
    if v <= limit {
        v
    } else {
        limit
    }
}

/// The box plot of a host on an axis that begins at `offset` and is `width`
/// wide for `scale` nanoseconds.
pub fn place_box(h: &Host, scale: u64, offset: u32, width: u32) -> (b: BoxPlot)
    requires
        h.wf(),
        h.received > 0,
        0 < scale,
        width <= 2048,
    ensures
        b == box_plot(h@, scale as int, offset as int, width as int),
        b.wf(),
        h.max_rtt <= scale ==> b.median.num * 4 * scale == percentile_scaled(
            hits(h@.history).sort_by(smaller_first()),
            2,
            4,
        ) * b.median.den,
        h.max_rtt <= scale ==> b.mean.num * hits(h@.history).len() * scale == total(
            hits(h@.history),
        ) * b.mean.den,
{
    let sorted = h.rtt_samples_sorted();
    proof {
        lemma_extremes(*h);
        lemma_received_scale(*h, scale);
        law_quartiles_ordered(*h);
        law_sorted_extremes(*h);
        if h.max_rtt <= scale {
            law_box_plot_cuts_nothing_off(*h, scale, offset, width);
        }
    }
    let one: u128 = scale as u128;
    let four: u128 = 4 * one;
    let all: u128 = h.received as u128 * one;
    let low: u128 = match h.min_rtt {
        Some(m) => cap(m as u128, one),
        None => 0,
    };
    let high: u128 = cap(h.max_rtt as u128, one);
    let (q1, q2, q3): (u128, u128, u128) = match (
        Host::percentile(sorted.as_slice(), 1, 4),
        Host::percentile(sorted.as_slice(), 2, 4),
        Host::percentile(sorted.as_slice(), 3, 4),
    ) {
        (Some(a), Some(b), Some(c)) => (cap(a.num, four), cap(b.num, four), cap(c.num, four)),
        _ => (0, 0, 0),
    };
    let sum: u128 = cap(h.sum_rtt, all);
    assert(width * low <= 2048 * u64::MAX && width * high <= 2048 * u64::MAX) by (nonlinear_arith)
        requires
            0 <= width <= 2048,
            0 <= low <= u64::MAX,
            0 <= high <= u64::MAX,
    ;
    assert(width * q1 <= 2048 * (4 * u64::MAX) && width * q3 <= 2048 * (4 * u64::MAX))
        by (nonlinear_arith)
        requires
            0 <= width <= 2048,
            0 <= q1 <= 4 * u64::MAX,
            0 <= q3 <= 4 * u64::MAX,
    ;
    let off: i64 = offset as i64;
    let w: i64 = width as i64;
    let long: bool = width as u128 * low + 2 * one <= width as u128 * high;
    let wide: bool = width as u128 * q1 + 2 * four <= width as u128 * q3;
    BoxPlot {
        min: Number { offset: off, gain: w, num: low as i128, den: one },
        p25: Number { offset: off, gain: w, num: q1 as i128, den: four },
        median: Number { offset: off, gain: w, num: q2 as i128, den: four },
        p75: if wide {
            Number { offset: off, gain: w, num: q3 as i128, den: four }
        } else {
            Number { offset: off + 2, gain: w, num: q1 as i128, den: four }
        },
        max: if long {
            Number { offset: off, gain: w, num: high as i128, den: one }
        } else {
            Number { offset: off + 2, gain: w, num: low as i128, den: one }
        },
        mean: Number { offset: off, gain: w, num: sum as i128, den: all },
        spread: if wide {
            Number { offset: 0, gain: w, num: q3 as i128 - q1 as i128, den: four }
        } else {
            Number { offset: 2, gain: 0, num: 0, den: 1 }
        },
    }
}

// ---------------------------------------------------------------------------
// The distribution chart of the report
// ---------------------------------------------------------------------------

/// The opening tag of the chart for `n` hosts.
pub open spec fn boxes_open(n: int) -> Seq<Seq<char>> {
    seq![
        "<svg xmlns=\"http://www.w3.org/2000/svg\" viewBox=\"0 0 900 "@,
        figure(number(60, 50, n, 1), 0),
        "\" style=\"width:100%;max-width:900px;background:#fff;border:1px solid #ccc;border-radius:4px;display:block\">\n"@,
    ]
}

/// The grid line for `i` fifths of the width, with its round-trip time.
pub open spec fn scale_tick(i: int, n: int, scale: int) -> Seq<Seq<char>> {
    seq![
        "<line x1=\""@,
        figure(number(160, 710, i, 5), 1),
        "\" y1=\"30\" x2=\""@,
        figure(number(160, 710, i, 5), 1),
        "\" y2=\""@,
        figure(number(30, 50, n, 1), 1),
        "\" stroke=\"#eee\" stroke-width=\"1\"/>\n<text x=\""@,
        figure(number(160, 710, i, 5), 1),
        "\" y=\"26.0\" text-anchor=\"middle\" font-size=\"10\" fill=\"#888\">"@,
        figure(number(0, 1, scale * i, 5 * NANOS_PER_MS), 0),
        "</text>\n"@,
    ]
}

/// The grid lines for 0 to `k - 1` fifths of the width.
pub open spec fn scale_ticks(k: nat, n: int, scale: int) -> Seq<Seq<char>>
    decreases k,
{
    if k == 0 {
        Seq::empty()
    } else {
        scale_ticks((k - 1) as nat, n, scale) + scale_tick(k - 1, n, scale)
    }
}

/// The axis and its label, above and below the rows of `n` hosts.
pub open spec fn boxes_axis(n: int) -> Seq<Seq<char>> {
    seq![
        "<line x1=\"160\" y1=\"30\" x2=\"870.0\" y2=\"30\" stroke=\"#ccc\" stroke-width=\"1\"/>\n<text x=\"515.0\" y=\""@,
        figure(number(54, 50, n, 1), 1),
        "\" text-anchor=\"middle\" font-size=\"11\" fill=\"#555\">RTT (ms)</text>\n"@,
    ]
}

/// The background of every other row.
pub open spec fn row_background(idx: int) -> Seq<Seq<char>> {
    if idx % 2 == 1 {
        seq![
            "<rect x=\"160\" y=\""@,
            figure(number(30, 50, idx, 1), 1),
            "\" width=\"710\" height=\"50\" fill=\"#f9f9f9\"/>\n"@,
        ]
    } else {
        Seq::empty()
    }
}

/// The name of a host, with its address where that is known.
pub open spec fn row_label(h: HostView) -> Seq<char> {
    match h.ip {
        Some(ip) => escaped(h.name) + " ("@ + ip.text + ")"@,
        None => escaped(h.name),
    }
}

/// The label at the left of a row.
pub open spec fn row_head(h: HostView, idx: int) -> Seq<Seq<char>> {
    seq![
        "<text x=\"154.0\" y=\""@,
        figure(number(59, 50, idx, 1), 1),
        "\" text-anchor=\"end\" font-size=\"11\" fill=\"#333\">"@,
        row_label(h),
        "</text>\n"@,
    ]
}

/// What stands in the row of a host without any answer.
pub open spec fn row_empty(idx: int) -> Seq<Seq<char>> {
    seq![
        "<text x=\"164.0\" y=\""@,
        figure(number(59, 50, idx, 1), 1),
        "\" font-size=\"10\" fill=\"#aaa\">no data</text>\n"@,
    ]
}

/// A line of the colour `color` and the width `stroke`.
pub open spec fn stroke_line(
    x1: Number,
    y1: Number,
    x2: Number,
    y2: Number,
    color: Seq<char>,
    stroke: Seq<char>,
) -> Seq<Seq<char>> {
    seq![
        "<line x1=\""@,
        figure(x1, 1),
        "\" y1=\""@,
        figure(y1, 1),
        "\" x2=\""@,
        figure(x2, 1),
        "\" y2=\""@,
        figure(y2, 1),
        "\" stroke=\""@,
        color,
        "\" stroke-width=\""@,
        stroke,
        "\"/>\n"@,
    ]
}

/// The whiskers of a box plot.
pub open spec fn whiskers(b: BoxPlot, idx: int) -> Seq<Seq<char>> {
    let mid = number(55, 50, idx, 1);
    let top = number(45, 50, idx, 1);
    let bottom = number(65, 50, idx, 1);
    let color = line_color(idx);
    stroke_line(b.min, mid, b.p25, mid, color, "1.5"@) + stroke_line(
        b.min,
        top,
        b.min,
        bottom,
        color,
        "1.5"@,
    ) + stroke_line(b.p75, mid, b.max, mid, color, "1.5"@) + stroke_line(
        b.max,
        top,
        b.max,
        bottom,
        color,
        "1.5"@,
    )
}

/// The box from the first to the third quartile.
pub open spec fn box_body(b: BoxPlot, idx: int) -> Seq<Seq<char>> {
    seq![
        "<rect x=\""@,
        figure(b.p25, 1),
        "\" y=\""@,
        figure(number(41, 50, idx, 1), 1),
        "\" width=\""@,
        figure(b.spread, 1),
        "\" height=\"28.0\" fill=\""@,
        line_color(idx),
        "\" fill-opacity=\"0.25\" stroke=\""@,
        line_color(idx),
        "\" stroke-width=\"1.5\"/>\n"@,
    ]
}

/// The circle at the mean.
pub open spec fn mean_circle(b: BoxPlot, idx: int) -> Seq<Seq<char>> {
    seq![
        "<circle cx=\""@,
        figure(b.mean, 1),
        "\" cy=\""@,
        figure(number(55, 50, idx, 1), 1),
        "\" r=\"4\" fill=\"none\" stroke=\""@,
        line_color(idx),
        "\" stroke-width=\"2\"/>\n"@,
    ]
}

/// The mean round-trip time of a host with an answer, in milliseconds.
pub open spec fn mean_ms(h: HostView) -> Number {
    number(0, 1, total(h.hits()) as int, h.received() * NANOS_PER_MS)
}

/// The values at the right of a row.
pub open spec fn row_values(h: HostView, idx: int) -> Seq<Seq<char>> {
    seq![
        "<text x=\"874.0\" y=\""@,
        figure(number(59, 50, idx, 1), 1),
        "\" font-size=\"10\" fill=\"#555\">min "@,
        figure(ms_number(h.min_rtt()->0 as int), 1),
        "  avg "@,
        figure(mean_ms(h), 1),
        "  max "@,
        figure(ms_number(h.max_rtt() as int), 1),
        " ms</text>\n"@,
    ]
}

/// The row of a host.
pub open spec fn box_row(h: HostView, idx: int, scale: int) -> Seq<Seq<char>> {
    let head = row_background(idx) + row_head(h, idx);
    if h.received() == 0 {
        head + row_empty(idx)
    } else {
        let b = box_plot(h, scale, 160, 710);
        head + whiskers(b, idx) + box_body(b, idx) + stroke_line(
            b.median,
            number(41, 50, idx, 1),
            b.median,
            number(69, 50, idx, 1),
            line_color(idx),
            "2.5"@,
        ) + mean_circle(b, idx) + row_values(h, idx)
    }
}

/// The rows of all the hosts.
pub open spec fn box_rows(hosts: Seq<HostView>, scale: int) -> Seq<Seq<char>>
    decreases hosts.len(),
{
    if hosts.len() == 0 {
        Seq::empty()
    } else {
        box_rows(hosts.drop_last(), scale) + box_row(hosts.last(), hosts.len() - 1, scale)
    }
}

/// The distribution chart of the report; nothing without hosts.
pub open spec fn boxes_svg(hosts: Seq<HostView>) -> Seq<Seq<char>> {
    let n = hosts.len() as int;
    let scale = chart_top(hosts, NANOS_PER_MS) as int;
    if n == 0 {
        Seq::empty()
    } else {
        boxes_open(n) + scale_ticks(6, n, scale) + boxes_axis(n) + box_rows(hosts, scale) + seq![
            "</svg>"@,
        ]
    }
}

/// The grid line for `i` fifths of the width.
fn draw_scale_tick(i: u32, n: usize, scale: u64) -> (d: Doc)
    requires
        i <= 5,
    ensures
        d@ == scale_tick(i as int, n as int, scale as int),
{
    let x = Number { offset: 160, gain: 710, num: i as i128, den: 5 };
    let mut d = Doc::new();
    d.text("<line x1=\"");
    d.figure(x, 1);
    d.text("\" y1=\"30\" x2=\"");
    d.figure(x, 1);
    d.text("\" y2=\"");
    d.figure(Number { offset: 30, gain: 50, num: n as i128, den: 1 }, 1);
    d.text("\" stroke=\"#eee\" stroke-width=\"1\"/>\n<text x=\"");
    d.figure(x, 1);
    d.text("\" y=\"26.0\" text-anchor=\"middle\" font-size=\"10\" fill=\"#888\">");
    assert(scale * i <= u64::MAX * 5) by (nonlinear_arith)
        requires
            scale <= u64::MAX,
            i <= 5,
    ;
    d.figure(
        Number {
            offset: 0,
            gain: 1,
            num: scale as i128 * i as i128,
            den: 5 * NANOS_PER_MS as u128,
        },
        0,
    );
    d.text("</text>\n");
    d
}

/// A line.
fn draw_line(
    x1: Number,
    y1: Number,
    x2: Number,
    y2: Number,
    color: &str,
    stroke: &str,
) -> (d: Doc)
    requires
        x1.wf(),
        y1.wf(),
        x2.wf(),
        y2.wf(),
    ensures
        d@ == stroke_line(x1, y1, x2, y2, color@, stroke@),
{
    let mut d = Doc::new();
    d.text("<line x1=\"");
    d.figure(x1, 1);
    d.text("\" y1=\"");
    d.figure(y1, 1);
    d.text("\" x2=\"");
    d.figure(x2, 1);
    d.text("\" y2=\"");
    d.figure(y2, 1);
    d.text("\" stroke=\"");
    d.text(color);
    d.text("\" stroke-width=\"");
    d.text(stroke);
    d.text("\"/>\n");
    d
}

/// A height in the row `idx`.
fn row_y(offset: i64, idx: usize) -> (n: Number)
    ensures
        n == number(offset as int, 50, idx as int, 1),
        n.wf(),
{
    Number { offset, gain: 50, num: idx as i128, den: 1 }
}

/// The whiskers of a box plot.
fn draw_whiskers(b: &BoxPlot, idx: usize) -> (d: Doc)
    requires
        b.wf(),
    ensures
        d@ == whiskers(*b, idx as int),
{
    let mid = row_y(55, idx);
    let top = row_y(45, idx);
    let bottom = row_y(65, idx);
    let color = line_color_text(idx);
    let mut d = draw_line(b.min, mid, b.p25, mid, color, "1.5");
    d.append(draw_line(b.min, top, b.min, bottom, color, "1.5"));
    d.append(draw_line(b.p75, mid, b.max, mid, color, "1.5"));
    d.append(draw_line(b.max, top, b.max, bottom, color, "1.5"));
    d
}

/// The box from the first to the third quartile.
fn draw_box_body(b: &BoxPlot, idx: usize) -> (d: Doc)
    requires
        b.wf(),
    ensures
        d@ == box_body(*b, idx as int),
{
    let color = line_color_text(idx);
    let mut d = Doc::new();
    d.text("<rect x=\"");
    d.figure(b.p25, 1);
    d.text("\" y=\"");
    d.figure(row_y(41, idx), 1);
    d.text("\" width=\"");
    d.figure(b.spread, 1);
    d.text("\" height=\"28.0\" fill=\"");
    d.text(color);
    d.text("\" fill-opacity=\"0.25\" stroke=\"");
    d.text(color);
    d.text("\" stroke-width=\"1.5\"/>\n");
    d
}

/// The circle at the mean.
fn draw_mean_circle(b: &BoxPlot, idx: usize) -> (d: Doc)
    requires
        b.wf(),
    ensures
        d@ == mean_circle(*b, idx as int),
{
    let mut d = Doc::new();
    d.text("<circle cx=\"");
    d.figure(b.mean, 1);
    d.text("\" cy=\"");
    d.figure(row_y(55, idx), 1);
    d.text("\" r=\"4\" fill=\"none\" stroke=\"");
    d.text(line_color_text(idx));
    d.text("\" stroke-width=\"2\"/>\n");
    d
}

/// The mean round-trip time of a host with an answer, in milliseconds.
pub fn mean_in_ms(h: &Host) -> (n: Number)
    requires
        h.wf(),
        h.received > 0,
    ensures
        n == mean_ms(h@),
        n.wf(),
{
    proof {
        lemma_sums_fit(*h);
        lemma_total_bounds(h@.hits(), 0, u64::MAX as int);
    }
    Number {
        offset: 0,
        gain: 1,
        num: h.sum_rtt as i128,
        den: h.received as u128 * NANOS_PER_MS as u128,
    }
}

/// The values at the right of a row.
fn draw_row_values(h: &Host, idx: usize) -> (d: Doc)
    requires
        h.wf(),
        h.received > 0,
    ensures
        d@ == row_values(h@, idx as int),
{
    proof {
        lemma_extremes(*h);
    }
    let low: u64 = match h.min_rtt {
        Some(m) => m,
        None => 0,
    };
    let mut d = Doc::new();
    d.text("<text x=\"874.0\" y=\"");
    d.figure(row_y(59, idx), 1);
    d.text("\" font-size=\"10\" fill=\"#555\">min ");
    d.figure(ms(low), 1);
    d.text("  avg ");
    d.figure(mean_in_ms(h), 1);
    d.text("  max ");
    d.figure(ms(h.max_rtt), 1);
    d.text(" ms</text>\n");
    d
}

/// The name of a host, with its address where that is known.
fn label_of(h: &Host) -> (s: String)
    ensures
        s@ == row_label(h@),
{
    let mut s = xml_esc(h.name.as_str());
    if let Some(ip) = &h.ip {
        s.append(" (");
        s.append(ip.text.as_str());
        s.append(")");
    }
    s
}

/// The background and the label of a row.
fn draw_row_head(h: &Host, idx: usize) -> (d: Doc)
    ensures
        d@ == row_background(idx as int) + row_head(h@, idx as int),
{
    let mut d = Doc::new();
    if idx % 2 == 1 {
        d.text("<rect x=\"160\" y=\"");
        d.figure(row_y(30, idx), 1);
        d.text("\" width=\"710\" height=\"50\" fill=\"#f9f9f9\"/>\n");
    }
    d.text("<text x=\"154.0\" y=\"");
    d.figure(row_y(59, idx), 1);
    d.text("\" text-anchor=\"end\" font-size=\"11\" fill=\"#333\">");
    d.text(label_of(h).as_str());
    d.text("</text>\n");
    d
}

/// The row of a host.
fn draw_box_row(h: &Host, idx: usize, scale: u64) -> (d: Doc)
    requires
        h.wf(),
        0 < scale,
    ensures
        d@ == box_row(h@, idx as int, scale as int),
{
    let mut d = draw_row_head(h, idx);
    if h.received == 0 {
        d.text("<text x=\"164.0\" y=\"");
        d.figure(row_y(59, idx), 1);
        d.text("\" font-size=\"10\" fill=\"#aaa\">no data</text>\n");
        assert(d@ =~= box_row(h@, idx as int, scale as int));
        return d;
    }
    let b = place_box(h, scale, 160, 710);
    d.append(draw_whiskers(&b, idx));
    d.append(draw_box_body(&b, idx));
    d.append(
        draw_line(
            b.median,
            row_y(41, idx),
            b.median,
            row_y(69, idx),
            line_color_text(idx),
            "2.5",
        ),
    );
    d.append(draw_mean_circle(&b, idx));
    d.append(draw_row_values(h, idx));
    d
}

/// The opening tag, the grid and the axis of the chart for `n` hosts.
fn draw_boxes_head(n: usize, scale: u64) -> (d: Doc)
    ensures
        d@ == boxes_open(n as int) + scale_ticks(6, n as int, scale as int) + boxes_axis(n as int),
{
    let mut d = Doc::new();
    d.text("<svg xmlns=\"http://www.w3.org/2000/svg\" viewBox=\"0 0 900 ");
    d.figure(Number { offset: 60, gain: 50, num: n as i128, den: 1 }, 0);
    d.text(
        "\" style=\"width:100%;max-width:900px;background:#fff;border:1px solid #ccc;border-radius:4px;display:block\">\n",
    );
    let ghost head = d@;
    for i in 0..6u32
        invariant
            d@ == head + scale_ticks(i as nat, n as int, scale as int),
    {
        d.append(draw_scale_tick(i, n, scale));
        assert(d@ =~= head + scale_ticks((i + 1) as nat, n as int, scale as int));
    }
    d.text(
        "<line x1=\"160\" y1=\"30\" x2=\"870.0\" y2=\"30\" stroke=\"#ccc\" stroke-width=\"1\"/>\n<text x=\"515.0\" y=\"",
    );
    d.figure(Number { offset: 54, gain: 50, num: n as i128, den: 1 }, 1);
    d.text("\" text-anchor=\"middle\" font-size=\"11\" fill=\"#555\">RTT (ms)</text>\n");
    assert(d@ =~= boxes_open(n as int) + scale_ticks(6, n as int, scale as int) + boxes_axis(
        n as int,
    ));
    d
}

/// The rows of all the hosts.
fn draw_box_rows(hosts: &Vec<&Host>, scale: u64) -> (d: Doc)
    requires
        all_wf(hosts@),
        0 < scale,
    ensures
        d@ == box_rows(ref_views(hosts@), scale as int),
{
    let ghost all = ref_views(hosts@);
    let n: usize = hosts.len();
    let mut d = Doc::new();
    assert(all.take(0) =~= Seq::empty());
    for i in 0..n
        invariant
            n == hosts@.len(),
            all_wf(hosts@),
            all == ref_views(hosts@),
            0 < scale,
            d@ == box_rows(all.take(i as int), scale as int),
    {
        assert(all.take(i + 1).drop_last() =~= all.take(i as int));
        let h: &Host = hosts[i];
        assert(all[i as int] == h@);
        assert(hosts@[i as int].wf());
        d.append(draw_box_row(h, i, scale));
    }
    assert(all.take(n as int) =~= all);
    d
}

/// The distribution chart of the report: a row with a box plot for each host,
/// all on one scale.
pub fn generate_candlestick_svg(hosts: &Vec<&Host>) -> (d: Doc)
    requires
        all_wf(hosts@),
    ensures
        d@ == boxes_svg(ref_views(hosts@)),
{
    let n: usize = hosts.len();
    if n == 0 {
        return Doc::new();
    }
    let scale: u64 = y_top(hosts, NANOS_PER_MS);
    let mut d = draw_boxes_head(n, scale);
    d.append(draw_box_rows(hosts, scale));
    d.text("</svg>");
    assert(d@ =~= boxes_svg(ref_views(hosts@)));
    d
}

} // verus!
