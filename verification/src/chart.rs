//! Round-trip times over time: the series and the axes of the live chart, and
//! the chart of the report.

use vstd::prelude::*;

use crate::doc::{figure, Doc};
use crate::host::{lemma_extremes, times_fit, Host, HostView};
use crate::markup::{escaped, xml_esc};
use crate::monitor::{all_wf, ref_views};
use crate::number::{number, Number, NANOS_PER_MS, NANOS_PER_S};
use crate::stats::{hits, Sample};

verus! {

// ---------------------------------------------------------------------------
// Axes
// ---------------------------------------------------------------------------

/// The end of the time axis: the last ping of all the hosts, and at least ten
/// seconds.
pub open spec fn chart_end(hosts: Seq<HostView>) -> int
    decreases hosts.len(),
{
    if hosts.len() == 0 {
        10 * NANOS_PER_S
    } else {
        let end = chart_end(hosts.drop_last());
        let h = hosts.last().history;
        if h.len() > 0 && h.last().at > end {
            h.last().at as int
        } else {
            end
        }
    }
}

/// The largest round-trip time of all the hosts, and at least `floor`.
pub open spec fn chart_top(hosts: Seq<HostView>, floor: u64) -> u64
    decreases hosts.len(),
{
    if hosts.len() == 0 {
        floor
    } else {
        let top = chart_top(hosts.drop_last(), floor);
        if hosts.last().max_rtt() > top {
            hosts.last().max_rtt()
        } else {
            top
        }
    }
}

/// The end of the time axis.
pub fn x_end(hosts: &Vec<&Host>) -> (end: u64)
    requires
        all_wf(hosts@),
    ensures
        end == chart_end(ref_views(hosts@)),
        end >= 10 * NANOS_PER_S,
{
    let ghost all = ref_views(hosts@);
    let n: usize = hosts.len();
    let mut end: u64 = 10_000_000_000;
    assert(all.take(0) =~= Seq::empty());
    for i in 0..n
        invariant
            n == hosts@.len(),
            all_wf(hosts@),
            all == ref_views(hosts@),
            end == chart_end(all.take(i as int)),
            end >= 10 * NANOS_PER_S,
    {
        assert(all.take(i + 1).drop_last() =~= all.take(i as int));
        let h: &Host = hosts[i];
        assert(all[i as int] == h@);
        assert(hosts@[i as int].wf());
        let m: usize = h.history.len();
        if m > 0 && h.history[m - 1].at > end as i128 {
            end = h.history[m - 1].at as u64;
        }
    }
    assert(all.take(n as int) =~= all);
    end
}

/// The largest round-trip time, and at least `floor`.
pub fn y_top(hosts: &Vec<&Host>, floor: u64) -> (top: u64)
    requires
        all_wf(hosts@),
    ensures
        top == chart_top(ref_views(hosts@), floor),
        top >= floor,
{
    let ghost all = ref_views(hosts@);
    let n: usize = hosts.len();
    let mut top: u64 = floor;
    assert(all.take(0) =~= Seq::empty());
    for i in 0..n
        invariant
            n == hosts@.len(),
            all_wf(hosts@),
            all == ref_views(hosts@),
            top == chart_top(all.take(i as int), floor),
            top >= floor,
    {
        assert(all.take(i + 1).drop_last() =~= all.take(i as int));
        let h: &Host = hosts[i];
        assert(all[i as int] == h@);
        assert(hosts@[i as int].wf());
        proof {
            lemma_extremes(*h);
        }
        if h.max_rtt > top {
            top = h.max_rtt;
        }
    }
    assert(all.take(n as int) =~= all);
    top
}

/// No host has a round-trip time above the top of the chart.
pub proof fn law_top_holds_all(hosts: Seq<HostView>, floor: u64, i: int)
    requires
        0 <= i < hosts.len(),
    ensures
        hosts[i].max_rtt() <= chart_top(hosts, floor),
    decreases hosts.len(),
{
    if i < hosts.len() - 1 {
        law_top_holds_all(hosts.drop_last(), floor, i);
    }
}

/// No host was pinged last behind the end of the chart.
pub proof fn law_end_holds_all(hosts: Seq<HostView>, i: int)
    requires
        0 <= i < hosts.len(),
        hosts[i].history.len() > 0,
    ensures
        hosts[i].history.last().at <= chart_end(hosts),
    decreases hosts.len(),
{
    if i < hosts.len() - 1 {
        law_end_holds_all(hosts.drop_last(), i);
    }
}

// ---------------------------------------------------------------------------
// Series
// ---------------------------------------------------------------------------

/// The answered pings: when, and the round-trip time.
pub open spec fn hit_points(history: Seq<Sample>) -> Seq<(i128, u64)>
    decreases history.len(),
{
    if history.len() == 0 {
        Seq::empty()
    } else {
        match history.last().rtt {
            Some(rtt) => hit_points(history.drop_last()).push((history.last().at, rtt)),
            None => hit_points(history.drop_last()),
        }
    }
}

/// The lost pings: when.
pub open spec fn miss_points(history: Seq<Sample>) -> Seq<i128>
    decreases history.len(),
{
    if history.len() == 0 {
        Seq::empty()
    } else {
        match history.last().rtt {
            Some(_) => miss_points(history.drop_last()),
            None => miss_points(history.drop_last()).push(history.last().at),
        }
    }
}

/// The points of a host: those of the line, and those of the crosses.
pub fn series(h: &Host) -> (r: (Vec<(i128, u64)>, Vec<i128>))
    ensures
        r.0@ == hit_points(h@.history),
        r.1@ == miss_points(h@.history),
{
    let mut line: Vec<(i128, u64)> = Vec::new();
    let mut crosses: Vec<i128> = Vec::new();
    let n: usize = h.history.len();
    let ghost all = h.history@;
    assert(all.take(0) =~= Seq::empty());
    for i in 0..n
        invariant
            n == h.history@.len(),
            all == h.history@,
            line@ == hit_points(all.take(i as int)),
            crosses@ == miss_points(all.take(i as int)),
    {
        assert(all.take(i + 1).drop_last() =~= all.take(i as int));
        let s: Sample = h.history[i];
        match s.rtt {
            Some(rtt) => {
                line.push((s.at, rtt));
            },
            None => {
                crosses.push(s.at);
            },
        }
    }
    assert(all.take(n as int) =~= all);
    (line, crosses)
}

/// Every ping is a point of the line or a cross, and none is both.
pub proof fn law_every_ping_is_drawn(history: Seq<Sample>)
    ensures
        hit_points(history).len() + miss_points(history).len() == history.len(),
        hit_points(history).len() == hits(history).len(),
        forall|i: int|
            0 <= i < history.len() && (#[trigger] history[i]).rtt is None ==> miss_points(
                history,
            ).contains(history[i].at),
        forall|i: int|
            0 <= i < history.len() && (#[trigger] history[i]).rtt is Some ==> hit_points(
                history,
            ).contains((history[i].at, history[i].rtt->0)),
    decreases history.len(),
{
    if history.len() > 0 {
        let front = history.drop_last();
        law_every_ping_is_drawn(front);
        assert forall|i: int| 0 <= i < history.len() && (#[trigger] history[i]).rtt is None implies miss_points(
            history,
        ).contains(history[i].at) by {
            if i < front.len() {
                assert(front[i] == history[i]);
                let k = choose|k: int|
                    0 <= k < miss_points(front).len() && miss_points(front)[k] == front[i].at;
                assert(miss_points(history)[k] == history[i].at);
            } else {
                assert(miss_points(history)[miss_points(history).len() - 1] == history[i].at);
            }
        }
        assert forall|i: int| 0 <= i < history.len() && (#[trigger] history[i]).rtt is Some implies hit_points(
            history,
        ).contains((history[i].at, history[i].rtt->0)) by {
            if i < front.len() {
                assert(front[i] == history[i]);
                let k = choose|k: int|
                    0 <= k < hit_points(front).len() && hit_points(front)[k] == (
                        front[i].at,
                        front[i].rtt->0,
                    );
                assert(hit_points(history)[k] == (history[i].at, history[i].rtt->0));
            } else {
                assert(hit_points(history)[hit_points(history).len() - 1] == (
                    history[i].at,
                    history[i].rtt->0,
                ));
            }
        }
    }
}

// ---------------------------------------------------------------------------
// The chart of the report
// ---------------------------------------------------------------------------

/// The colours of the lines of a report.
pub open spec fn line_color(idx: int) -> Seq<char> {
    seq![
        "#0072BD"@,
        "#D95319"@,
        "#208644"@,
        "#7E2F8E"@,
        "#A2142F"@,
        "#4DBEEE"@,
        "#77AC30"@,
        "#00A6A6"@,
    ][idx % 8]
}

/// The colour of the line of the host at the place `idx`.
pub fn line_color_text(idx: usize) -> (s: &'static str)
    ensures
        s@ == line_color(idx as int),
{
    let k: usize = idx % 8;
    if k == 0 {
        "#0072BD"
    } else if k == 1 {
        "#D95319"
    } else if k == 2 {
        "#208644"
    } else if k == 3 {
        "#7E2F8E"
    } else if k == 4 {
        "#A2142F"
    } else if k == 5 {
        "#4DBEEE"
    } else if k == 6 {
        "#77AC30"
    } else {
        "#00A6A6"
    }
}

/// The horizontal place of the time `t` on a chart that ends at `end`: the plot
/// is 1122 wide and begins at 58.
pub open spec fn place_x(t: int, end: int) -> Number {
    number(58, 1122, t, end)
}

/// The vertical place of the round-trip time `rtt` on a chart whose largest one
/// is `top`: the plot is 346 high, ends at 376, and leaves 15 percent above.
pub open spec fn place_y(rtt: int, top: int) -> Number {
    number(376, -346, 100 * rtt, 115 * top)
}

/// The opening tag of the chart.
pub const CHART_OPEN: &'static str = "<svg xmlns=\"http://www.w3.org/2000/svg\" viewBox=\"0 0 1200 420\" style=\"width:100%;max-width:1200px;background:#fff;border:1px solid #ccc;border-radius:4px;display:block\">\n";

/// The frame of the plot and the labels of the axes.
pub const CHART_FRAME: &'static str = "<rect x=\"58\" y=\"30\" width=\"1122\" height=\"346\" fill=\"none\" stroke=\"#aaa\" stroke-width=\"1\"/>\n<text x=\"619.0\" y=\"414.0\" text-anchor=\"middle\" font-size=\"11\" fill=\"#444\">Time (s)</text>\n<text x=\"-203.0\" y=\"14\" text-anchor=\"middle\" font-size=\"11\" fill=\"#444\" transform=\"rotate(-90)\">RTT (ms)</text>\n";

/// The grid line for `i` fifths of the height, with its round-trip time.
pub open spec fn y_tick(i: int, top: int) -> Seq<Seq<char>> {
    seq![
        "<line x1=\"58\" y1=\""@,
        figure(number(376, -346, i, 5), 1),
        "\" x2=\"1180.0\" y2=\""@,
        figure(number(376, -346, i, 5), 1),
        "\" stroke=\"#e8e8e8\" stroke-width=\"1\"/>\n<text x=\"54.0\" y=\""@,
        figure(number(380, -346, i, 5), 1),
        "\" text-anchor=\"end\" font-size=\"10\" fill=\"#888\">"@,
        figure(number(0, 1, 115 * top * i, 500 * NANOS_PER_MS), 0),
        "</text>\n"@,
    ]
}

/// The grid line for `i` sixths of the width, with its time.
pub open spec fn x_tick(i: int, end: int) -> Seq<Seq<char>> {
    seq![
        "<line x1=\""@,
        figure(number(58, 1122, i, 6), 1),
        "\" y1=\"30\" x2=\""@,
        figure(number(58, 1122, i, 6), 1),
        "\" y2=\"376.0\" stroke=\"#e8e8e8\" stroke-width=\"1\"/>\n<text x=\""@,
        figure(number(58, 1122, i, 6), 1),
        "\" y=\"390.0\" text-anchor=\"middle\" font-size=\"10\" fill=\"#888\">"@,
        figure(number(0, 1, end * i, 6 * NANOS_PER_S), 0),
        "</text>\n"@,
    ]
}

/// The grid lines for 0 to `n - 1` fifths of the height.
pub open spec fn y_ticks(n: nat, top: int) -> Seq<Seq<char>>
    decreases n,
{
    if n == 0 {
        Seq::empty()
    } else {
        y_ticks((n - 1) as nat, top) + y_tick(n - 1, top)
    }
}

/// The grid lines for 0 to `n - 1` sixths of the width.
pub open spec fn x_ticks(n: nat, end: int) -> Seq<Seq<char>>
    decreases n,
{
    if n == 0 {
        Seq::empty()
    } else {
        x_ticks((n - 1) as nat, end) + x_tick(n - 1, end)
    }
}

/// The points of a line, with blanks between them.
pub open spec fn line_points(history: Seq<Sample>, end: int, top: int) -> Seq<Seq<char>>
    decreases history.len(),
{
    if history.len() == 0 {
        Seq::empty()
    } else {
        let front = history.drop_last();
        let before = line_points(front, end, top);
        match history.last().rtt {
            Some(rtt) => (if before.len() > 0 {
                before.push(" "@)
            } else {
                before
            }) + seq![
                figure(place_x(history.last().at as int, end), 1),
                ","@,
                figure(place_y(rtt as int, top), 1),
            ],
            None => before,
        }
    }
}

/// The line of a host; none without any answer.
pub open spec fn line_markup(
    h: HostView,
    idx: int,
    end: int,
    top: int,
) -> Seq<Seq<char>> {
    if h.received() == 0 {
        Seq::empty()
    } else {
        seq!["<polyline points=\""@] + line_points(h.history, end, top) + seq![
            "\" fill=\"none\" stroke=\""@,
            line_color(idx),
            "\" stroke-width=\"1.5\" stroke-linejoin=\"round\"/>\n"@,
        ]
    }
}

/// The cross of a ping that was lost at the time `t`.
pub open spec fn cross(t: int, end: int) -> Seq<Seq<char>> {
    seq![
        "<text x=\""@,
        figure(place_x(t, end), 1),
        "\" y=\"374.0\" text-anchor=\"middle\" font-size=\"9\" fill=\"#C42B1C\">✕</text>\n"@,
    ]
}

/// A cross for every lost ping.
pub open spec fn crosses(history: Seq<Sample>, end: int) -> Seq<Seq<char>>
    decreases history.len(),
{
    if history.len() == 0 {
        Seq::empty()
    } else {
        let before = crosses(history.drop_last(), end);
        match history.last().rtt {
            Some(_) => before,
            None => before + cross(history.last().at as int, end),
        }
    }
}

/// The lines and crosses of all the hosts.
pub open spec fn all_lines(hosts: Seq<HostView>, end: int, top: int) -> Seq<Seq<char>>
    decreases hosts.len(),
{
    if hosts.len() == 0 {
        Seq::empty()
    } else {
        let h = hosts.last();
        all_lines(hosts.drop_last(), end, top) + line_markup(h, hosts.len() - 1, end, top)
            + crosses(h.history, end)
    }
}

/// The legend of the host at the place `idx`.
pub open spec fn legend(name: Seq<char>, idx: int) -> Seq<Seq<char>> {
    seq![
        "<line x1=\""@,
        figure(number(66, 150, idx, 1), 1),
        "\" y1=\"42.0\" x2=\""@,
        figure(number(84, 150, idx, 1), 1),
        "\" y2=\"42.0\" stroke=\""@,
        line_color(idx),
        "\" stroke-width=\"2\"/>\n<text x=\""@,
        figure(number(88, 150, idx, 1), 1),
        "\" y=\"46.0\" font-size=\"11\" fill=\"#333\">"@,
        escaped(name),
        "</text>\n"@,
    ]
}

/// The legends of all the hosts.
pub open spec fn legends(hosts: Seq<HostView>) -> Seq<Seq<char>>
    decreases hosts.len(),
{
    if hosts.len() == 0 {
        Seq::empty()
    } else {
        legends(hosts.drop_last()) + legend(hosts.last().name, hosts.len() - 1)
    }
}

/// The chart of the report.
pub open spec fn report_svg(hosts: Seq<HostView>) -> Seq<Seq<char>> {
    let end = chart_end(hosts);
    let top = chart_top(hosts, (10 * NANOS_PER_MS) as u64) as int;
    seq![CHART_OPEN@] + y_ticks(6, top) + x_ticks(7, end) + seq![CHART_FRAME@]
        + all_lines(hosts, end, top) + legends(hosts) + seq!["</svg>"@]
}

/// The grid line for `i` fifths of the height.
fn draw_y_tick(i: u32, top: u64) -> (d: Doc)
    requires
        i <= 5,
    ensures
        d@ == y_tick(i as int, top as int),
{
    let y = Number { offset: 376, gain: -346, num: i as i128, den: 5 };
    let mut d = Doc::new();
    d.text("<line x1=\"58\" y1=\"");
    d.figure(y, 1);
    d.text("\" x2=\"1180.0\" y2=\"");
    d.figure(y, 1);
    d.text("\" stroke=\"#e8e8e8\" stroke-width=\"1\"/>\n<text x=\"54.0\" y=\"");
    d.figure(Number { offset: 380, gain: -346, num: i as i128, den: 5 }, 1);
    d.text("\" text-anchor=\"end\" font-size=\"10\" fill=\"#888\">");
    assert(115 * top * i <= 115 * u64::MAX * 5) by (nonlinear_arith)
        requires
            top <= u64::MAX,
            i <= 5,
    ;
    d.figure(
        Number {
            offset: 0,
            gain: 1,
            num: 115 * top as i128 * i as i128,
            den: 500 * NANOS_PER_MS as u128,
        },
        0,
    );
    d.text("</text>\n");
    d
}

/// The grid line for `i` sixths of the width.
fn draw_x_tick(i: u32, end: u64) -> (d: Doc)
    requires
        i <= 6,
    ensures
        d@ == x_tick(i as int, end as int),
{
    let x = Number { offset: 58, gain: 1122, num: i as i128, den: 6 };
    let mut d = Doc::new();
    d.text("<line x1=\"");
    d.figure(x, 1);
    d.text("\" y1=\"30\" x2=\"");
    d.figure(x, 1);
    d.text("\" y2=\"376.0\" stroke=\"#e8e8e8\" stroke-width=\"1\"/>\n<text x=\"");
    d.figure(x, 1);
    d.text("\" y=\"390.0\" text-anchor=\"middle\" font-size=\"10\" fill=\"#888\">");
    assert(end * i <= u64::MAX * 6) by (nonlinear_arith)
        requires
            end <= u64::MAX,
            i <= 6,
    ;
    d.figure(
        Number {
            offset: 0,
            gain: 1,
            num: end as i128 * i as i128,
            den: 6 * NANOS_PER_S as u128,
        },
        0,
    );
    d.text("</text>\n");
    d
}

/// The horizontal place of the time `t`.
fn place_x_of(t: i128, end: u64) -> (n: Number)
    requires
        -u64::MAX <= t <= u64::MAX,
        0 < end,
    ensures
        n == place_x(t as int, end as int),
        n.wf(),
{
    Number { offset: 58, gain: 1122, num: t, den: end as u128 }
}

/// The vertical place of the round-trip time `rtt`.
fn place_y_of(rtt: u64, top: u64) -> (n: Number)
    requires
        0 < top,
    ensures
        n == place_y(rtt as int, top as int),
        n.wf(),
{
    Number { offset: 376, gain: -346, num: 100 * rtt as i128, den: 115 * top as u128 }
}

/// The line of a host.
fn draw_line(h: &Host, idx: usize, end: u64, top: u64) -> (d: Doc)
    requires
        h.wf(),
        0 < end,
        0 < top,
    ensures
        d@ == line_markup(h@, idx as int, end as int, top as int),
{
    let mut d = Doc::new();
    if h.received == 0 {
        return d;
    }
    let mut points = Doc::new();
    let mut any: bool = false;
    let n: usize = h.history.len();
    let ghost all = h.history@;
    assert(all.take(0) =~= Seq::empty());
    for i in 0..n
        invariant
            n == h.history@.len(),
            all == h.history@,
            times_fit(all),
            0 < end,
            0 < top,
            points@ == line_points(all.take(i as int), end as int, top as int),
            any == (points@.len() > 0),
    {
        assert(all.take(i + 1).drop_last() =~= all.take(i as int));
        let s: Sample = h.history[i];
        assert(s == all[i as int]);
        let ghost before = points@;
        if let Some(rtt) = s.rtt {
            if any {
                points.text(" ");
            }
            let ghost spaced = points@;
            points.figure(place_x_of(s.at, end), 1);
            points.text(",");
            points.figure(place_y_of(rtt, top), 1);
            any = true;
            assert(points@ =~= spaced + seq![
                figure(place_x(s.at as int, end as int), 1),
                ","@,
                figure(place_y(rtt as int, top as int), 1),
            ]);
        }
    }
    assert(all.take(n as int) =~= all);
    d.text("<polyline points=\"");
    d.append(points);
    d.text("\" fill=\"none\" stroke=\"");
    d.text(line_color_text(idx));
    d.text("\" stroke-width=\"1.5\" stroke-linejoin=\"round\"/>\n");
    assert(d@ =~= line_markup(h@, idx as int, end as int, top as int));
    d
}

/// A cross for every lost ping of a host.
fn draw_crosses(h: &Host, end: u64) -> (d: Doc)
    requires
        h.wf(),
        0 < end,
    ensures
        d@ == crosses(h@.history, end as int),
{
    let mut d = Doc::new();
    let n: usize = h.history.len();
    let ghost all = h.history@;
    assert(all.take(0) =~= Seq::empty());
    for i in 0..n
        invariant
            n == h.history@.len(),
            all == h.history@,
            times_fit(all),
            0 < end,
            d@ == crosses(all.take(i as int), end as int),
    {
        assert(all.take(i + 1).drop_last() =~= all.take(i as int));
        let s: Sample = h.history[i];
        assert(s == all[i as int]);
        if s.rtt.is_none() {
            let ghost before = d@;
            d.text("<text x=\"");
            d.figure(place_x_of(s.at, end), 1);
            d.text(
                "\" y=\"374.0\" text-anchor=\"middle\" font-size=\"9\" fill=\"#C42B1C\">✕</text>\n",
            );
            assert(d@ =~= before + cross(s.at as int, end as int));
        }
    }
    assert(all.take(n as int) =~= all);
    d
}

/// The legend of the host at the place `idx`.
fn draw_legend(h: &Host, idx: usize) -> (d: Doc)
    ensures
        d@ == legend(h@.name, idx as int),
{
    let mut d = Doc::new();
    d.text("<line x1=\"");
    d.figure(Number { offset: 66, gain: 150, num: idx as i128, den: 1 }, 1);
    d.text("\" y1=\"42.0\" x2=\"");
    d.figure(Number { offset: 84, gain: 150, num: idx as i128, den: 1 }, 1);
    d.text("\" y2=\"42.0\" stroke=\"");
    d.text(line_color_text(idx));
    d.text("\" stroke-width=\"2\"/>\n<text x=\"");
    d.figure(Number { offset: 88, gain: 150, num: idx as i128, den: 1 }, 1);
    d.text("\" y=\"46.0\" font-size=\"11\" fill=\"#333\">");
    d.text(xml_esc(h.name.as_str()).as_str());
    d.text("</text>\n");
    d
}

/// The grid of the chart.
fn draw_grid(end: u64, top: u64) -> (d: Doc)
    ensures
        d@ == y_ticks(6, top as int) + x_ticks(7, end as int),
{
    let mut d = Doc::new();
    for i in 0..6u32
        invariant
            d@ == y_ticks(i as nat, top as int),
    {
        d.append(draw_y_tick(i, top));
    }
    let ghost head = d@;
    for i in 0..7u32
        invariant
            d@ == head + x_ticks(i as nat, end as int),
    {
        d.append(draw_x_tick(i, end));
        assert(d@ =~= head + x_ticks((i + 1) as nat, end as int));
    }
    d
}

/// The lines and crosses of all the hosts.
fn draw_all_lines(hosts: &Vec<&Host>, end: u64, top: u64) -> (d: Doc)
    requires
        all_wf(hosts@),
        0 < end,
        0 < top,
    ensures
        d@ == all_lines(ref_views(hosts@), end as int, top as int),
{
    let ghost all = ref_views(hosts@);
    let n: usize = hosts.len();
    let mut d = Doc::new();
    assert(all.take(0) =~= Seq::empty());
    for i in 0..n
        invariant
            n == hosts@.len(),
            all_wf(hosts@),
            all == ref_views(hosts@),
            0 < end,
            0 < top,
            d@ == all_lines(all.take(i as int), end as int, top as int),
    {
        assert(all.take(i + 1).drop_last() =~= all.take(i as int));
        let h: &Host = hosts[i];
        assert(all[i as int] == h@);
        assert(hosts@[i as int].wf());
        d.append(draw_line(h, i, end, top));
        d.append(draw_crosses(h, end));
    }
    assert(all.take(n as int) =~= all);
    d
}

/// The legends of all the hosts.
fn draw_legends(hosts: &Vec<&Host>) -> (d: Doc)
    ensures
        d@ == legends(ref_views(hosts@)),
{
    let ghost all = ref_views(hosts@);
    let n: usize = hosts.len();
    let mut d = Doc::new();
    assert(all.take(0) =~= Seq::empty());
    for i in 0..n
        invariant
            n == hosts@.len(),
            all == ref_views(hosts@),
            d@ == legends(all.take(i as int)),
    {
        assert(all.take(i + 1).drop_last() =~= all.take(i as int));
        let h: &Host = hosts[i];
        assert(all[i as int] == h@);
        d.append(draw_legend(h, i));
    }
    assert(all.take(n as int) =~= all);
    d
}

/// The chart of the report: a line and crosses for each host, over a grid, with
/// a legend.
pub fn generate_report_svg(hosts: &Vec<&Host>) -> (d: Doc)
    requires
        all_wf(hosts@),
    ensures
        d@ == report_svg(ref_views(hosts@)),
{
    let end: u64 = x_end(hosts);
    let top: u64 = y_top(hosts, 10_000_000);
    let mut d = Doc::new();
    d.text(CHART_OPEN);
    d.append(draw_grid(end, top));
    d.text(CHART_FRAME);
    d.append(draw_all_lines(hosts, end, top));
    d.append(draw_legends(hosts));
    d.text("</svg>");
    assert(d@ =~= report_svg(ref_views(hosts@)));
    d
}

} // verus!
