//! What holds of the charts: where the parts of a box plot and the points of a
//! line stand, and what they stand for.

use vstd::math::{max, min};
use vstd::prelude::*;

use crate::boxes::{
    box_body, box_plot, box_row, box_rows, boxes_axis, boxes_svg, law_quartiles_ordered,
    law_scale_cuts_nothing_off, mean_circle, row_background, row_empty, row_head, row_values,
    scale_tick, scale_ticks, stroke_line,
};
use crate::chart::{
    all_lines, chart_end, chart_top, cross, crosses, hit_points, legend, legends, line_color,
    line_markup, line_points, miss_points, place_x, place_y, report_svg, x_tick, x_ticks, y_tick,
    y_ticks, CHART_FRAME, CHART_OPEN,
};
use crate::doc::figure;
use crate::host::{law_sorted_extremes, lemma_extremes, lemma_sums_fit, Host, HostView, MAX_SENT};
use crate::markup::escaped;
use crate::number::{number, Number};
use crate::stats::{hits, percentile_scaled, total, Sample};

verus! {

// ---------------------------------------------------------------------------
// Box plots
// ---------------------------------------------------------------------------

/// A number that is `v` over `d`.
pub open spec fn is_value(n: Number, v: int, d: int) -> bool {
    n.scaled() * d == v * n.den
}

/// Each part of a box plot stands at the value that it shows, on an axis that
/// begins at `offset` and is `width` wide for `scale`: the lower whisker at the
/// smallest round-trip time, the box from the first quartile to the third, the
/// line at the median, the circle at the mean, the upper whisker at the largest
/// round-trip time. What lies beyond the scale stands at the end of the axis.
/// The upper whisker stands at least 2 behind the lower one, and the box is at
/// least 2 wide.
pub proof fn law_box_plot_shows_statistics(h: Host, scale: u64, offset: u32, width: u32)
    requires
        h.wf(),
        h.received > 0,
        0 < scale,
        width <= 2048,
    ensures
        ({
            let b = box_plot(h@, scale as int, offset as int, width as int);
            let sorted = h@.sorted_hits();
            let all = hits(h@.history);
            let four = 4 * scale as int;
            let count = all.len() * scale as int;
            let begin = offset * four;
            let p25 = begin + width * min(percentile_scaled(sorted, 1, 4), four);
            let p50 = begin + width * min(percentile_scaled(sorted, 2, 4), four);
            let p75 = begin + width * min(percentile_scaled(sorted, 3, 4), four);
            let low = offset * scale + width * min(sorted[0] as int, scale as int);
            let high = offset * scale + width * min(sorted.last() as int, scale as int);
            &&& is_value(b.median, p50, four)
            &&& is_value(b.p25, p25, four)
            &&& is_value(b.p75, max(p75, p25 + 2 * four), four)
            &&& is_value(b.spread, max(p75, p25 + 2 * four) - p25, four)
            &&& is_value(b.mean, offset * count + width * min(total(all) as int, count), count)
            &&& is_value(b.min, low, scale as int)
            &&& is_value(b.max, max(high, low + 2 * scale), scale as int)
        }),
{
    law_sorted_extremes(h);
    law_quartiles_ordered(h);
    lemma_extremes(h);
    lemma_sums_fit(h);
    let sorted = h@.sorted_hits();
    let all = hits(h@.history);
    let n = h.received as int;
    let w = width as int;
    let four = 4 * scale as int;
    let q1 = min(percentile_scaled(sorted, 1, 4), four);
    let q3 = min(percentile_scaled(sorted, 3, 4), four);
    assert(1 <= n * scale <= MAX_SENT * u64::MAX) by (nonlinear_arith)
        requires
            1 <= n <= MAX_SENT,
            1 <= scale <= u64::MAX,
    ;
    assert(w * (q3 - q1) == w * q3 - w * q1) by (nonlinear_arith);
    assert(all.len() * scale == n * scale);
    let b = box_plot(h@, scale as int, offset as int, width as int);
    let begin = offset * four;
    let q2 = min(percentile_scaled(sorted, 2, 4), four);
    let low = min(sorted[0] as int, scale as int);
    let high = min(sorted.last() as int, scale as int);
    let count = all.len() * scale as int;
    assert(b.median.scaled() == begin + w * q2);
    assert(b.p25.scaled() == begin + w * q1);
    assert((offset + 2) * four == begin + 2 * four) by (nonlinear_arith)
        requires
            begin == offset * four,
    ;
    assert(b.p75.scaled() == max(begin + w * q3, begin + w * q1 + 2 * four));
    assert(b.mean.scaled() == offset * count + w * min(total(all) as int, count));
    assert(b.min.scaled() == offset * scale + w * low);
    assert((offset + 2) * scale == offset * scale + 2 * scale) by (nonlinear_arith);
    assert(b.max.scaled() == max(offset * scale + w * high, offset * scale + w * low + 2 * scale));
    let wide = w * q1 + 8 * scale <= w * q3;
    let across = max(begin + w * q3, begin + w * q1 + 2 * four) - (begin + w * q1);
    let at = b.spread.scaled();
    let by = b.spread.den as int;
    if wide {
        assert(b.spread == number(0, w, q3 - q1, four));
        assert(0 * four == 0) by (nonlinear_arith);
        assert(at * four == across * by) by (nonlinear_arith)
            requires
                at == across,
                by == four,
        ;
    } else {
        assert(b.spread == number(2, 0, 0, 1));
        assert(0 * 0 == 0 && 2 * 1 == 2) by (nonlinear_arith);
        assert(at == 2 * 1 + 0 * 0);
        assert(at * four == across * by) by (nonlinear_arith)
            requires
                at == 2,
                by == 1,
                across == 2 * four,
        ;
    }
    assert(is_value(b.spread, across, four));
}

/// On a scale that holds all round-trip times the median stands at the median,
/// the mean at the mean over all answers, and the quartiles in order.
pub proof fn law_box_plot_cuts_nothing_off(h: Host, scale: u64, offset: u32, width: u32)
    requires
        h.wf(),
        h.received > 0,
        0 < scale,
        h.max_rtt <= scale,
    ensures
        ({
            let b = box_plot(h@, scale as int, offset as int, width as int);
            let sorted = h@.sorted_hits();
            let all = hits(h@.history);
            &&& b.p25.num * 4 * scale == percentile_scaled(sorted, 1, 4) * b.p25.den
            &&& b.median.num * 4 * scale == percentile_scaled(sorted, 2, 4) * b.median.den
            &&& b.mean.num * all.len() * scale == total(all) * b.mean.den
            &&& b.min.num * scale == sorted[0] * b.min.den
            &&& b.p25.num * b.median.den <= b.median.num * b.p25.den
            &&& b.median.num * 4 * scale <= percentile_scaled(sorted, 3, 4) * b.median.den
        }),
{
    law_sorted_extremes(h);
    law_scale_cuts_nothing_off(h, scale);
    lemma_extremes(h);
    lemma_sums_fit(h);
    let sorted = h@.sorted_hits();
    let all = hits(h@.history);
    let n = h.received as int;
    let four = 4 * scale as int;
    let q1 = percentile_scaled(sorted, 1, 4);
    let q2 = percentile_scaled(sorted, 2, 4);
    let q3 = percentile_scaled(sorted, 3, 4);
    let sum = total(all) as int;
    assert(1 <= n * scale <= MAX_SENT * u64::MAX) by (nonlinear_arith)
        requires
            1 <= n <= MAX_SENT,
            1 <= scale <= u64::MAX,
    ;
    let b = box_plot(h@, scale as int, offset as int, width as int);
    assert(all.len() == n);
    assert(b.p25.num == q1 && b.p25.den == four);
    assert(b.median.num == q2 && b.median.den == four);
    assert(b.mean.num == sum && b.mean.den == n * scale);
    assert(q1 * 4 * scale == q1 * four && q2 * 4 * scale == q2 * four) by (nonlinear_arith)
        requires
            four == 4 * scale,
    ;
    assert(sum * n * scale == sum * (n * scale)) by (nonlinear_arith);
    assert(q1 * four <= q2 * four && q2 * four <= q3 * four) by (nonlinear_arith)
        requires
            q1 <= q2 <= q3,
            four >= 0,
    ;
}

// ---------------------------------------------------------------------------
// Axes and points
// ---------------------------------------------------------------------------

/// The time axis ends at ten seconds, or at the last ping of some host where
/// that came later.
pub proof fn law_end_is_a_last_ping(hosts: Seq<HostView>)
    ensures
        chart_end(hosts) >= 10_000_000_000,
        chart_end(hosts) == 10_000_000_000 || exists|i: int|
            0 <= i < hosts.len() && (#[trigger] hosts[i]).history.len() > 0
                && hosts[i].history.last().at == chart_end(hosts),
    decreases hosts.len(),
{
    if hosts.len() > 0 {
        let front = hosts.drop_last();
        law_end_is_a_last_ping(front);
        assert(hosts[hosts.len() - 1] == hosts.last());
        if chart_end(hosts) == chart_end(front) && chart_end(front) != 10_000_000_000 {
            let i = choose|i: int|
                0 <= i < front.len() && (#[trigger] front[i]).history.len() > 0
                    && front[i].history.last().at == chart_end(front);
            assert(hosts[i] == front[i]);
        }
    }
}

/// The top of a chart is its floor, or the largest round-trip time of some host
/// where that is larger.
pub proof fn law_top_is_a_largest_time(hosts: Seq<HostView>, floor: u64)
    ensures
        chart_top(hosts, floor) >= floor,
        chart_top(hosts, floor) == floor || exists|i: int|
            0 <= i < hosts.len() && (#[trigger] hosts[i]).max_rtt() == chart_top(hosts, floor),
    decreases hosts.len(),
{
    if hosts.len() > 0 {
        let front = hosts.drop_last();
        law_top_is_a_largest_time(front, floor);
        assert(hosts[hosts.len() - 1] == hosts.last());
        if chart_top(hosts, floor) == chart_top(front, floor) && chart_top(front, floor) != floor {
            let i = choose|i: int|
                0 <= i < front.len() && (#[trigger] front[i]).max_rtt() == chart_top(front, floor);
            assert(hosts[i] == front[i]);
        }
    }
}

/// The points of the line are the answered pings and the crosses the lost ones,
/// each in order.
pub proof fn law_points_are_the_pings(history: Seq<Sample>)
    ensures
        hit_points(history) == history.filter(|s: Sample| s.rtt is Some).map_values(
            |s: Sample| (s.at, s.rtt->0),
        ),
        miss_points(history) == history.filter(|s: Sample| s.rtt is None).map_values(
            |s: Sample| s.at,
        ),
    decreases history.len(),
{
    reveal(Seq::filter);
    let answered = |s: Sample| s.rtt is Some;
    let lost = |s: Sample| s.rtt is None;
    let point = |s: Sample| (s.at, s.rtt->0);
    let at = |s: Sample| s.at;
    if history.len() > 0 {
        let front = history.drop_last();
        let s = history.last();
        law_points_are_the_pings(front);
        if s.rtt is Some {
            assert(front.filter(answered).push(s).map_values(point) =~= front.filter(
                answered,
            ).map_values(point).push((s.at, s.rtt->0)));
        } else {
            assert(front.filter(lost).push(s).map_values(at) =~= front.filter(lost).map_values(
                at,
            ).push(s.at));
        }
    }
    assert(hit_points(history) =~= history.filter(answered).map_values(point));
    assert(miss_points(history) =~= history.filter(lost).map_values(at));
}

/// A time stands as far along the plot as it lies along the axis, and a
/// round-trip time as high as it is large, with the top of the plot at 115
/// percent of the largest one.
pub proof fn law_points_are_to_scale(t: int, end: int, rtt: int, top: int)
    requires
        -u64::MAX <= t <= u64::MAX,
        0 < end <= u64::MAX,
        0 <= rtt <= u64::MAX,
        0 < top <= u64::MAX,
    ensures
        is_value(place_x(t, end), 58 * end + 1122 * t, end),
        is_value(place_y(rtt, top), 376 * (115 * top) - 346 * (100 * rtt), 115 * top),
{
    let x = place_x(t, end);
    let y = place_y(rtt, top);
    assert(x.scaled() == 58 * end + 1122 * t);
    let gain = y.gain as int;
    let num = y.num as int;
    assert(gain * num == -346 * (100 * rtt)) by (nonlinear_arith)
        requires
            gain == -346,
            num == 100 * rtt,
    ;
    assert(y.scaled() == 376 * (115 * top) - 346 * (100 * rtt));
}

/// The points of a line stand in the order of the answered pings, each as its
/// two places with a comma between them, with a blank between any two points.
pub proof fn law_line_goes_through_the_answers(history: Seq<Sample>, end: int, top: int)
    ensures
        ({
            let points = hit_points(history);
            let parts = line_points(history, end, top);
            &&& points.len() == 0 ==> parts.len() == 0
            &&& points.len() > 0 ==> parts.len() == 4 * points.len() - 1
            &&& forall|k: int|
                0 <= k < points.len() ==> {
                    let (at, rtt) = #[trigger] points[k];
                    &&& parts[4 * k] == figure(place_x(at as int, end), 1)
                    &&& parts[4 * k + 1] == ","@
                    &&& parts[4 * k + 2] == figure(place_y(rtt as int, top), 1)
                    &&& k + 1 < points.len() ==> parts[4 * k + 3] == " "@
                }
        }),
    decreases history.len(),
{
    if history.len() > 0 {
        let front = history.drop_last();
        law_line_goes_through_the_answers(front, end, top);
        let before = hit_points(front);
        let points = hit_points(history);
        let parts = line_points(history, end, top);
        let old_parts = line_points(front, end, top);
        if history.last().rtt is Some {
            assert(points == before.push((history.last().at, history.last().rtt->0)));
            assert forall|k: int| 0 <= k < points.len() implies {
                let (at, rtt) = #[trigger] points[k];
                &&& parts[4 * k] == figure(place_x(at as int, end), 1)
                &&& parts[4 * k + 1] == ","@
                &&& parts[4 * k + 2] == figure(place_y(rtt as int, top), 1)
                &&& k + 1 < points.len() ==> parts[4 * k + 3] == " "@
            } by {
                if k < before.len() {
                    assert(before[k] == points[k]);
                    assert(parts[4 * k] == old_parts[4 * k]);
                    assert(parts[4 * k + 1] == old_parts[4 * k + 1]);
                    assert(parts[4 * k + 2] == old_parts[4 * k + 2]);
                }
            }
        }
    }
}

/// The line of a host without answers is not drawn; another one has the colour
/// of the place of its host.
pub proof fn law_line_markup(h: HostView, idx: int, end: int, top: int)
    ensures
        ({
            let parts = line_markup(h, idx, end, top);
            let points = line_points(h.history, end, top);
            let n = points.len() as int;
            &&& hits(h.history).len() == 0 ==> parts.len() == 0
            &&& hits(h.history).len() > 0 ==> parts.len() == n + 4 && parts.subrange(1, n + 1)
                == points && parts[n + 2] == line_color(idx)
        }),
{
    let parts = line_markup(h, idx, end, top);
    let points = line_points(h.history, end, top);
    let n = points.len() as int;
    if hits(h.history).len() > 0 {
        assert(parts.subrange(1, n + 1) =~= points);
    }
}

/// A cross stands at the time of each lost ping, in order.
pub proof fn law_a_cross_for_each_loss(history: Seq<Sample>, end: int)
    ensures
        crosses(history, end) == miss_points(history).map_values(
            |at: i128| cross(at as int, end),
        ).flatten(),
    decreases history.len(),
{
    broadcast use Seq::lemma_flatten_push;

    let f = |at: i128| cross(at as int, end);
    if history.len() == 0 {
        assert(miss_points(history).map_values(f) =~= Seq::empty());
    } else {
        let front = history.drop_last();
        law_a_cross_for_each_loss(front, end);
        if history.last().rtt is None {
            assert(miss_points(history).map_values(f) =~= miss_points(front).map_values(f).push(
                cross(history.last().at as int, end),
            ));
        }
    }
}

/// A cross stands at its time; a legend has the colour and the name of its host,
/// one 150 behind the other.
pub proof fn law_marks(t: int, end: int, name: Seq<char>, idx: int)
    ensures
        cross(t, end).len() == 3,
        cross(t, end)[1] == figure(place_x(t, end), 1),
        legend(name, idx).len() == 11,
        legend(name, idx)[1] == figure(number(66, 150, idx, 1), 1),
        legend(name, idx)[3] == figure(number(84, 150, idx, 1), 1),
        legend(name, idx)[5] == line_color(idx),
        legend(name, idx)[7] == figure(number(88, 150, idx, 1), 1),
        legend(name, idx)[9] == escaped(name),
{
}

/// The eight colours of the lines come round again.
pub proof fn law_line_colours(idx: int)
    ensures
        line_color(idx + 8) == line_color(idx),
        idx % 8 == 0 ==> line_color(idx) == "#0072BD"@,
        idx % 8 == 1 ==> line_color(idx) == "#D95319"@,
        idx % 8 == 2 ==> line_color(idx) == "#208644"@,
        idx % 8 == 3 ==> line_color(idx) == "#7E2F8E"@,
        idx % 8 == 4 ==> line_color(idx) == "#A2142F"@,
        idx % 8 == 5 ==> line_color(idx) == "#4DBEEE"@,
        idx % 8 == 6 ==> line_color(idx) == "#77AC30"@,
        idx % 8 == 7 ==> line_color(idx) == "#00A6A6"@,
{
}

/// The grid lines stand in order, evenly over the plot, each beside the value
/// of its place.
pub proof fn law_grid(n: nat, end: int, top: int, hosts: int, scale: int, i: int)
    ensures
        y_ticks(n, top) == Seq::new(n, |k: int| y_tick(k, top)).flatten(),
        x_ticks(n, end) == Seq::new(n, |k: int| x_tick(k, end)).flatten(),
        scale_ticks(n, hosts, scale) == Seq::new(n, |k: int| scale_tick(k, hosts, scale)).flatten(),
        ({
            let y = y_tick(i, top);
            let x = x_tick(i, end);
            let s = scale_tick(i, hosts, scale);
            &&& y.len() == 9 && x.len() == 9 && s.len() == 11
            &&& y[1] == figure(number(376, -346, i, 5), 1) && y[3] == y[1]
            &&& y[5] == figure(number(380, -346, i, 5), 1)
            &&& y[7] == figure(number(0, 1, 115 * top * i, 500_000_000), 0)
            &&& x[1] == figure(number(58, 1122, i, 6), 1) && x[3] == x[1] && x[5] == x[1]
            &&& x[7] == figure(number(0, 1, end * i, 6_000_000_000), 0)
            &&& s[1] == figure(number(160, 710, i, 5), 1) && s[3] == s[1] && s[7] == s[1]
            &&& s[5] == figure(number(30, 50, hosts, 1), 1)
            &&& s[9] == figure(number(0, 1, scale * i, 5_000_000), 0)
        }),
    decreases n,
{
    broadcast use Seq::lemma_flatten_push;

    let f = |k: int| y_tick(k, top);
    let g = |k: int| x_tick(k, end);
    let h = |k: int| scale_tick(k, hosts, scale);
    if n == 0 {
        assert(Seq::new(n, f) =~= Seq::empty());
        assert(Seq::new(n, g) =~= Seq::empty());
        assert(Seq::new(n, h) =~= Seq::empty());
    } else {
        let m = (n - 1) as nat;
        law_grid(m, end, top, hosts, scale, i);
        assert(Seq::new(n, f) =~= Seq::new(m, f).push(y_tick(n - 1, top)));
        assert(Seq::new(n, g) =~= Seq::new(m, g).push(x_tick(n - 1, end)));
        assert(Seq::new(n, h) =~= Seq::new(m, h).push(scale_tick(n - 1, hosts, scale)));
    }
}

/// The chart of the report: the grid, the lines and the legends of its hosts,
/// on axes that hold all of their pings.
pub proof fn law_chart_of_the_report(hosts: Seq<HostView>)
    ensures
        ({
            let end = chart_end(hosts);
            let top = chart_top(hosts, 10_000_000) as int;
            let svg = report_svg(hosts);
            let grid = y_ticks(6, top) + x_ticks(7, end);
            let lines = all_lines(hosts, end, top);
            let at = 2 + grid.len() as int;
            let to = at + lines.len() as int;
            &&& svg.subrange(1, at - 1) == grid
            &&& svg.subrange(at, to) == lines
            &&& svg.subrange(to, svg.len() - 1) == legends(hosts)
            &&& svg[0] == CHART_OPEN@ && svg[at - 1] == CHART_FRAME@ && svg.last() == "</svg>"@
        }),
{
    let end = chart_end(hosts);
    let top = chart_top(hosts, 10_000_000) as int;
    let svg = report_svg(hosts);
    let grid = y_ticks(6, top) + x_ticks(7, end);
    let lines = all_lines(hosts, end, top);
    let at = 2 + grid.len() as int;
    let to = at + lines.len() as int;
    assert(svg.subrange(1, at - 1) =~= grid);
    assert(svg.subrange(at, to) =~= lines);
    assert(svg.subrange(to, svg.len() - 1) =~= legends(hosts));
}

// ---------------------------------------------------------------------------
// The distribution chart
// ---------------------------------------------------------------------------

/// Without hosts there is no distribution chart; otherwise one of 60 and 50 for
/// each host high, with the rows of all hosts on one scale that holds all of
/// their round-trip times and a millisecond.
pub proof fn law_distribution_chart(hosts: Seq<HostView>)
    ensures
        ({
            let n = hosts.len() as int;
            let scale = chart_top(hosts, 1_000_000) as int;
            let svg = boxes_svg(hosts);
            let ticks = scale_ticks(6, n, scale);
            let at = 6 + ticks.len() as int;
            &&& n == 0 ==> svg.len() == 0
            &&& n > 0 ==> svg[1] == figure(number(60, 50, n, 1), 0) && svg.subrange(3, at - 3)
                == ticks && svg[at - 2] == figure(number(54, 50, n, 1), 1) && svg.subrange(
                at,
                svg.len() - 1,
            ) == box_rows(hosts, scale) && svg.last() == "</svg>"@
        }),
{
    let n = hosts.len() as int;
    let scale = chart_top(hosts, 1_000_000) as int;
    let svg = boxes_svg(hosts);
    let ticks = scale_ticks(6, n, scale);
    let at = 6 + ticks.len() as int;
    if n > 0 {
        assert(svg.subrange(3, at - 3) =~= ticks);
        assert(svg.subrange(at, svg.len() - 1) =~= box_rows(hosts, scale));
        assert(svg[at - 2] == boxes_axis(n)[1]);
    }
}

/// A row begins with a background, where its place is odd, and the name of its
/// host with its address where that is known.
pub proof fn law_row_begins_with_the_name(h: HostView, idx: int, scale: int)
    ensures
        ({
            let row = box_row(h, idx, scale);
            let at = if idx % 2 == 1 { 3int } else { 0int };
            &&& row.len() >= at + 5
            &&& idx % 2 == 1 ==> row[1] == figure(number(30, 50, idx, 1), 1)
            &&& row[at + 1] == figure(number(59, 50, idx, 1), 1)
            &&& row[at + 3] == (match h.ip {
                Some(ip) => escaped(h.name) + " ("@ + ip.text + ")"@,
                None => escaped(h.name),
            })
        }),
{
    let row = box_row(h, idx, scale);
    let at = if idx % 2 == 1 { 3int } else { 0int };
    let head = row_background(idx) + row_head(h, idx);
    assert(head.len() == at + 5);
    assert(row.subrange(0, at + 5) =~= head);
    assert forall|k: int| 0 <= k < at + 5 implies row[k] == head[k] by {
        assert(row.subrange(0, at + 5)[k] == row[k]);
    }
}

/// The ends of a line, its colour and its width.
proof fn lemma_stroke_line(
    x1: Number,
    y1: Number,
    x2: Number,
    y2: Number,
    color: Seq<char>,
    stroke: Seq<char>,
)
    ensures
        ({
            let l = stroke_line(x1, y1, x2, y2, color, stroke);
            &&& l.len() == 13
            &&& l[1] == figure(x1, 1)
            &&& l[3] == figure(y1, 1)
            &&& l[5] == figure(x2, 1)
            &&& l[7] == figure(y2, 1)
            &&& l[9] == color
            &&& l[11] == stroke
        }),
{
}

/// What a row draws behind its name, where its host has answers: the whiskers
/// from the smallest round-trip time to the first quartile and from the third
/// quartile to the largest, each with an upright end; the box, the line at the
/// median, the circle at the mean, and the smallest, mean and largest time in
/// milliseconds; all in the colour of its place.
pub proof fn law_row_draws_the_box(h: HostView, idx: int, scale: int)
    requires
        hits(h.history).len() > 0,
    ensures
        ({
            let b = box_plot(h, scale, 160, 710);
            let from = if idx % 2 == 1 { 8int } else { 5int };
            let row = box_row(h, idx, scale).skip(from);
            let color = line_color(idx);
            let mid = figure(number(55, 50, idx, 1), 1);
            let low = figure(number(45, 50, idx, 1), 1);
            let high = figure(number(65, 50, idx, 1), 1);
            &&& row.len() == 92
            &&& row[1] == figure(b.min, 1) && row[3] == mid && row[5] == figure(b.p25, 1) && row[7]
                == mid && row[9] == color
            &&& row[14] == figure(b.min, 1) && row[16] == low && row[18] == figure(b.min, 1)
                && row[20] == high && row[22] == color
            &&& row[27] == figure(b.p75, 1) && row[29] == mid && row[31] == figure(b.max, 1)
                && row[33] == mid && row[35] == color
            &&& row[40] == figure(b.max, 1) && row[42] == low && row[44] == figure(b.max, 1)
                && row[46] == high && row[48] == color
            &&& row[53] == figure(b.p25, 1) && row[55] == figure(number(41, 50, idx, 1), 1)
                && row[57] == figure(b.spread, 1) && row[59] == color && row[61] == color
            &&& row[64] == figure(b.median, 1) && row[66] == figure(number(41, 50, idx, 1), 1)
                && row[68] == figure(b.median, 1) && row[70] == figure(number(69, 50, idx, 1), 1)
                && row[72] == color
            &&& row[77] == figure(b.mean, 1) && row[79] == mid && row[81] == color
            &&& row[84] == figure(number(59, 50, idx, 1), 1) && row[86] == figure(
                number(0, 1, h.min_rtt()->0 as int, 1_000_000),
                1,
            )
            &&& row[88] == figure(
                number(
                    0,
                    1,
                    total(hits(h.history)) as int,
                    hits(h.history).len() as int * 1_000_000,
                ),
                1,
            )
            &&& row[90] == figure(number(0, 1, h.max_rtt() as int, 1_000_000), 1)
        }),
{
    let b = box_plot(h, scale, 160, 710);
    let from = if idx % 2 == 1 { 8int } else { 5int };
    let row = box_row(h, idx, scale).skip(from);
    let color = line_color(idx);
    let mid = number(55, 50, idx, 1);
    let top = number(45, 50, idx, 1);
    let bottom = number(65, 50, idx, 1);
    let l1 = stroke_line(b.min, mid, b.p25, mid, color, "1.5"@);
    let l2 = stroke_line(b.min, top, b.min, bottom, color, "1.5"@);
    let l3 = stroke_line(b.p75, mid, b.max, mid, color, "1.5"@);
    let l4 = stroke_line(b.max, top, b.max, bottom, color, "1.5"@);
    let l5 = stroke_line(
        b.median,
        number(41, 50, idx, 1),
        b.median,
        number(69, 50, idx, 1),
        color,
        "2.5"@,
    );
    lemma_stroke_line(b.min, mid, b.p25, mid, color, "1.5"@);
    lemma_stroke_line(b.min, top, b.min, bottom, color, "1.5"@);
    lemma_stroke_line(b.p75, mid, b.max, mid, color, "1.5"@);
    lemma_stroke_line(b.max, top, b.max, bottom, color, "1.5"@);
    lemma_stroke_line(
        b.median,
        number(41, 50, idx, 1),
        b.median,
        number(69, 50, idx, 1),
        color,
        "2.5"@,
    );
    let body = box_body(b, idx);
    let circle = mean_circle(b, idx);
    let values = row_values(h, idx);
    assert(body.len() == 11 && circle.len() == 7 && values.len() == 9);
    assert(row =~= l1 + l2 + l3 + l4 + body + l5 + circle + values);
    lemma_eight(l1, l2, l3, l4, body, l5, circle, values);
}

/// Eight parts one behind the other.
proof fn lemma_eight<A>(
    a: Seq<A>,
    b: Seq<A>,
    c: Seq<A>,
    d: Seq<A>,
    e: Seq<A>,
    f: Seq<A>,
    g: Seq<A>,
    h: Seq<A>,
)
    requires
        a.len() == 13,
        b.len() == 13,
        c.len() == 13,
        d.len() == 13,
        e.len() == 11,
        f.len() == 13,
        g.len() == 7,
        h.len() == 9,
    ensures
        ({
            let all = a + b + c + d + e + f + g + h;
            &&& all.len() == 92
            &&& forall|k: int| 0 <= k < 13 ==> all[k] == #[trigger] a[k]
            &&& forall|k: int| 0 <= k < 13 ==> all[13 + k] == #[trigger] b[k]
            &&& forall|k: int| 0 <= k < 13 ==> all[26 + k] == #[trigger] c[k]
            &&& forall|k: int| 0 <= k < 13 ==> all[39 + k] == #[trigger] d[k]
            &&& forall|k: int| 0 <= k < 11 ==> all[52 + k] == #[trigger] e[k]
            &&& forall|k: int| 0 <= k < 13 ==> all[63 + k] == #[trigger] f[k]
            &&& forall|k: int| 0 <= k < 7 ==> all[76 + k] == #[trigger] g[k]
            &&& forall|k: int| 0 <= k < 9 ==> all[83 + k] == #[trigger] h[k]
        }),
{
}

/// The row of a host without answers says so.
pub proof fn law_row_without_answers(h: HostView, idx: int, scale: int)
    requires
        hits(h.history).len() == 0,
    ensures
        ({
            let from = if idx % 2 == 1 { 8int } else { 5int };
            let row = box_row(h, idx, scale).skip(from);
            &&& row.len() == 3
            &&& row[1] == figure(number(59, 50, idx, 1), 1)
            &&& row[2] == "\" font-size=\"10\" fill=\"#aaa\">no data</text>\n"@
        }),
{
    let from = if idx % 2 == 1 { 8int } else { 5int };
    assert(box_row(h, idx, scale).skip(from) =~= row_empty(idx));
}

} // verus!
