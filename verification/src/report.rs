//! The exported statistics and the exported report.

use vstd::prelude::*;

use crate::boxes::{boxes_svg, generate_candlestick_svg, mean_in_ms, mean_ms};
use crate::chart::{generate_report_svg, report_svg};
use crate::clock::{is_file_stamp, is_human_stamp, now_file_ts, now_human};
use crate::console::{AppView, MultiPingApp};
use crate::doc::{figure, joined, Doc};
use crate::host::{address_text, lemma_extremes, lemma_sums_fit, Host, HostView};
use crate::markup::{break_lines, escaped, with_breaks, xml_esc};
use crate::monitor::{all_wf, kept, ref_views, Monitor};
use crate::number::{ms, ms_number, number, Number, NANOS_PER_MS, NANOS_PER_S};
use crate::page::{
    PAGE_BOXES, PAGE_CHART, PAGE_DURATION, PAGE_END, PAGE_HEAD, PAGE_HOSTS, PAGE_LOCATION,
    PAGE_LOSS, PAGE_MINUTES, PAGE_NOTES, PAGE_SLA, PAGE_STATS, PAGE_THRESHOLDS,
};
use crate::stats::{lemma_swings_bound, swings};
use crate::text::{decimal, decimal_text, push_decimal};

verus! {

// ---------------------------------------------------------------------------
// Statistics of a host in milliseconds
// ---------------------------------------------------------------------------

/// The smallest round-trip time.
pub open spec fn min_shown(h: HostView) -> Option<Number> {
    match h.min_rtt() {
        Some(m) => Some(ms_number(m as int)),
        None => None,
    }
}

/// The mean round-trip time.
pub open spec fn avg_shown(h: HostView) -> Option<Number> {
    if h.received() == 0 {
        None
    } else {
        Some(mean_ms(h))
    }
}

/// The largest round-trip time.
pub open spec fn max_shown(h: HostView) -> Option<Number> {
    if h.received() == 0 {
        None
    } else {
        Some(ms_number(h.max_rtt() as int))
    }
}

/// The mean jitter.
pub open spec fn jitter_shown(h: HostView) -> Option<Number> {
    if h.received() < 2 {
        None
    } else {
        Some(number(0, 1, swings(h.hits()) as int, (h.received() - 1) * NANOS_PER_MS))
    }
}

/// The statistics of a host in milliseconds, each where it exists.
#[derive(Clone, Copy, Debug, PartialEq, Eq)]
pub struct Figures {
    pub min: Option<Number>,
    pub avg: Option<Number>,
    pub max: Option<Number>,
    pub jitter: Option<Number>,
}

impl Figures {
    /// All numbers can be written out.
    pub open spec fn wf(self) -> bool {
        &&& self.min matches Some(n) ==> n.wf()
        &&& self.avg matches Some(n) ==> n.wf()
        &&& self.max matches Some(n) ==> n.wf()
        &&& self.jitter matches Some(n) ==> n.wf()
    }
}

/// The statistics of a host in milliseconds, each where it exists.
pub open spec fn figures(h: HostView) -> Figures {
    Figures {
        min: min_shown(h),
        avg: avg_shown(h),
        max: max_shown(h),
        jitter: jitter_shown(h),
    }
}

/// The statistics of a host in milliseconds, each where it exists.
pub fn figures_of(h: &Host) -> (f: Figures)
    requires
        h.wf(),
    ensures
        f == figures(h@),
        f.wf(),
{
    proof {
        lemma_extremes(*h);
        lemma_sums_fit(*h);
        lemma_swings_bound(h@.hits());
    }
    let min = match h.min_rtt {
        Some(m) => Some(ms(m)),
        None => None,
    };
    let (avg, max) = if h.received == 0 {
        (None, None)
    } else {
        (Some(mean_in_ms(h)), Some(ms(h.max_rtt)))
    };
    let jitter = if h.jitter_count == 0 {
        None
    } else {
        Some(
            Number {
                offset: 0,
                gain: 1,
                num: h.jitter_sum as i128,
                den: h.jitter_count as u128 * NANOS_PER_MS as u128,
            },
        )
    };
    Figures { min, avg, max, jitter }
}

/// A number with two digits behind the point, or a dash.
pub open spec fn cell(value: Option<Number>) -> Seq<char> {
    match value {
        Some(n) => figure(n, 2),
        None => "—"@,
    }
}

/// Adds a number with two digits behind the point, or a dash.
fn add_cell(d: &mut Doc, value: Option<Number>)
    requires
        value matches Some(n) ==> n.wf(),
    ensures
        final(d)@ == old(d)@.push(cell(value)),
{
    match value {
        Some(n) => {
            d.figure(n, 2);
        },
        None => {
            d.text("—");
        },
    }
}

/// The characters of the address of a host; none where it is unknown.
fn address_of(h: &Host) -> (s: &str)
    ensures
        s@ == address_text(h@.ip),
{
    match &h.ip {
        Some(a) => a.text.as_str(),
        None => {
            proof {
                reveal_strlit("");
                assert(""@ =~= Seq::<char>::empty());
            }
            ""
        },
    }
}

// ---------------------------------------------------------------------------
// Statistics
// ---------------------------------------------------------------------------

/// The head of the exported statistics, before the time of the export.
pub const STATS_TITLE: &'static str = "pinger — Statistics Export\nExported: ";

/// The head of the exported statistics, after the time of the export.
pub const STATS_COLUMNS: &'static str = "\n\nHost,IP,Status,Sent,Received,Loss %,Min ms,Avg ms,Max ms,Jitter ms\n";

/// The beginning of a line of the exported statistics.
pub open spec fn stats_identity(h: HostView) -> Seq<char> {
    h.name + ","@ + address_text(h.ip) + ","@ + h.status.label() + ","@ + decimal(h.sent()) + ","@
        + decimal(h.received()) + ","@
}

/// A line of the exported statistics.
pub open spec fn stats_line(h: HostView) -> Seq<Seq<char>> {
    seq![
        stats_identity(h),
        figure(h.loss_pct(), 1),
        ","@,
        cell(min_shown(h)),
        ","@,
        cell(avg_shown(h)),
        ","@,
        cell(max_shown(h)),
        ","@,
        cell(jitter_shown(h)),
        "\n"@,
    ]
}

/// The lines of the exported statistics.
pub open spec fn stats_lines(hosts: Seq<HostView>) -> Seq<Seq<char>>
    decreases hosts.len(),
{
    if hosts.len() == 0 {
        Seq::empty()
    } else {
        stats_lines(hosts.drop_last()) + stats_line(hosts.last())
    }
}

/// The exported statistics, written at `time`.
pub open spec fn stats_file(time: Seq<char>, hosts: Seq<HostView>) -> Seq<Seq<char>> {
    seq![STATS_TITLE@, time, STATS_COLUMNS@] + stats_lines(hosts)
}

/// A line of the exported statistics.
fn write_stats_line(h: &Host) -> (d: Doc)
    requires
        h.wf(),
    ensures
        d@ == stats_line(h@),
{
    let mut s = h.name.clone();
    s.append(",");
    s.append(address_of(h));
    s.append(",");
    s.append(h.status.label());
    s.append(",");
    push_decimal(&mut s, h.sent);
    s.append(",");
    push_decimal(&mut s, h.received);
    s.append(",");
    let f = figures_of(h);
    let mut d = Doc::new();
    d.text(s.as_str());
    d.figure(h.loss_pct(), 1);
    d.text(",");
    add_cell(&mut d, f.min);
    d.text(",");
    add_cell(&mut d, f.avg);
    d.text(",");
    add_cell(&mut d, f.max);
    d.text(",");
    add_cell(&mut d, f.jitter);
    d.text("\n");
    d
}

/// The exported statistics of the hosts, written at `time`.
pub fn stats_text(time: &str, hosts: &Vec<&Host>) -> (s: String)
    requires
        all_wf(hosts@),
    ensures
        s@ == joined(stats_file(time@, ref_views(hosts@))),
{
    let ghost all = ref_views(hosts@);
    let n: usize = hosts.len();
    let mut d = Doc::new();
    d.text(STATS_TITLE);
    d.text(time);
    d.text(STATS_COLUMNS);
    let ghost head = d@;
    assert(all.take(0) =~= Seq::empty());
    for i in 0..n
        invariant
            n == hosts@.len(),
            all_wf(hosts@),
            all == ref_views(hosts@),
            d@ == head + stats_lines(all.take(i as int)),
    {
        assert(all.take(i + 1).drop_last() =~= all.take(i as int));
        let h: &Host = hosts[i];
        assert(all[i as int] == h@);
        assert(hosts@[i as int].wf());
        d.append(write_stats_line(h));
        assert(d@ =~= head + stats_lines(all.take(i + 1)));
    }
    assert(all.take(n as int) =~= all);
    assert(d@ =~= stats_file(time@, all));
    d.join()
}

/// The name of the exported statistics, written at `stamp`.
pub open spec fn stats_file_name(stamp: Seq<char>) -> Seq<char> {
    "pinger_stats_"@ + stamp + ".csv"@
}

/// The name and the contents of the exported statistics of the hosts that are
/// not removed.
pub fn export_stats(monitor: &Monitor) -> (r: (String, String))
    requires
        monitor.wf(),
    ensures
        exists|stamp: Seq<char>|
            is_file_stamp(stamp) && r.0@ == #[trigger] stats_file_name(stamp),
        exists|time: Seq<char>|
            is_human_stamp(time) && r.1@ == joined(
                #[trigger] stats_file(time, kept(monitor@.hosts)),
            ),
{
    let time = now_human();
    let hosts = monitor.kept_hosts();
    let text = stats_text(time.as_str(), &hosts);
    let stamp = now_file_ts();
    let mut name = "pinger_stats_".to_owned();
    name.append(stamp.as_str());
    name.append(".csv");
    assert(name@ == stats_file_name(stamp@));
    (name, text)
}

// ---------------------------------------------------------------------------
// Report
// ---------------------------------------------------------------------------

/// The threshold for the loss, in percent.
pub open spec fn loss_threshold(app: AppView) -> Number {
    number(0, 1, app.sla_loss as int, 1_000_000)
}

/// A row of the verdicts.
pub open spec fn sla_row(app: AppView, h: HostView) -> Seq<Seq<char>> {
    let verdict = h.sla(app.sla_rtt as nat, app.sla_loss as nat);
    seq![
        "<tr><td>"@ + escaped(h.name) + "</td><td>"@ + address_text(h.ip) + "</td><td>"@,
        cell(avg_shown(h)),
        "</td><td>"@,
        figure(h.loss_pct(), 1),
        "%</td><td>"@,
        figure(ms_number(app.sla_rtt as int), 0),
        " ms</td><td>"@,
        figure(loss_threshold(app), 1),
        "%</td><td class=\""@ + verdict.class() + "\">"@ + verdict.word() + "</td></tr>\n"@,
    ]
}

/// The rows of the verdicts.
pub open spec fn sla_rows(app: AppView, hosts: Seq<HostView>) -> Seq<Seq<char>>
    decreases hosts.len(),
{
    if hosts.len() == 0 {
        Seq::empty()
    } else {
        sla_rows(app, hosts.drop_last()) + sla_row(app, hosts.last())
    }
}

/// A row of the statistics.
pub open spec fn stats_row(h: HostView) -> Seq<Seq<char>> {
    seq![
        "<tr><td>"@ + escaped(h.name) + "</td><td>"@ + address_text(h.ip) + "</td><td>"@
                + decimal(h.sent()) + "</td><td>"@ + decimal(h.received()) + "</td><td>"@,
        figure(h.loss_pct(), 1),
        "%</td><td>"@,
        cell(min_shown(h)),
        "</td><td>"@,
        cell(avg_shown(h)),
        "</td><td>"@,
        cell(max_shown(h)),
        "</td><td>"@,
        cell(jitter_shown(h)),
        "</td></tr>\n"@,
    ]
}

/// The rows of the statistics.
pub open spec fn stats_rows(hosts: Seq<HostView>) -> Seq<Seq<char>>
    decreases hosts.len(),
{
    if hosts.len() == 0 {
        Seq::empty()
    } else {
        stats_rows(hosts.drop_last()) + stats_row(hosts.last())
    }
}

/// The location as the report shows it: a dash where there is none.
pub open spec fn location_shown(location: Seq<char>) -> Seq<char> {
    if location.len() == 0 {
        "—"@
    } else {
        escaped(location)
    }
}

/// The comment as the report shows it, line by line: a dash where there is none.
pub open spec fn comment_shown(comment: Seq<char>) -> Seq<char> {
    if comment.len() == 0 {
        "—"@
    } else {
        with_breaks(escaped(comment))
    }
}

/// The part of the report before its tables.
pub open spec fn report_head(
    app: AppView,
    count: int,
    duration: int,
    time: Seq<char>,
) -> Seq<Seq<char>> {
    seq![
        PAGE_HEAD@,
        time,
        PAGE_LOCATION@,
        location_shown(app.network_location),
        PAGE_DURATION@,
        figure(number(0, 1, duration, NANOS_PER_S as int), 0),
        PAGE_MINUTES@,
        figure(number(0, 1, duration, 60 * NANOS_PER_S), 1),
        PAGE_HOSTS@,
        decimal(count as nat),
        PAGE_THRESHOLDS@,
        figure(ms_number(app.sla_rtt as int), 0),
        PAGE_LOSS@,
        figure(loss_threshold(app), 2),
        PAGE_NOTES@,
        comment_shown(app.report_comment),
        PAGE_SLA@,
    ]
}

/// The report of a session that has taken `duration` nanoseconds, written at
/// `time`.
pub open spec fn report_page(
    app: AppView,
    hosts: Seq<HostView>,
    duration: int,
    time: Seq<char>,
) -> Seq<Seq<char>> {
    report_head(app, hosts.len() as int, duration, time) + sla_rows(app, hosts) + seq![
        PAGE_STATS@,
    ] + stats_rows(hosts) + seq![PAGE_CHART@] + report_svg(hosts) + seq![
        PAGE_BOXES@,
    ] + boxes_svg(hosts) + seq![PAGE_END@]
}

/// A row of the verdicts.
fn write_sla_row(app: &MultiPingApp, h: &Host) -> (d: Doc)
    requires
        h.wf(),
    ensures
        d@ == sla_row(app@, h@),
{
    let verdict = h.sla(app.sla_rtt, app.sla_loss);
    let mut head = "<tr><td>".to_owned();
    head.append(xml_esc(h.name.as_str()).as_str());
    head.append("</td><td>");
    head.append(address_of(h));
    head.append("</td><td>");
    let mut tail = "%</td><td class=\"".to_owned();
    tail.append(verdict.class_text());
    tail.append("\">");
    tail.append(verdict.word_text());
    tail.append("</td></tr>\n");
    let mut d = Doc::new();
    d.text(head.as_str());
    add_cell(&mut d, figures_of(h).avg);
    d.text("</td><td>");
    d.figure(h.loss_pct(), 1);
    d.text("%</td><td>");
    d.figure(ms(app.sla_rtt), 0);
    d.text(" ms</td><td>");
    d.figure(Number { offset: 0, gain: 1, num: app.sla_loss as i128, den: 1_000_000 }, 1);
    d.text(tail.as_str());
    d
}

/// A row of the statistics.
fn write_stats_row(h: &Host) -> (d: Doc)
    requires
        h.wf(),
    ensures
        d@ == stats_row(h@),
{
    let mut head = "<tr><td>".to_owned();
    head.append(xml_esc(h.name.as_str()).as_str());
    head.append("</td><td>");
    head.append(address_of(h));
    head.append("</td><td>");
    push_decimal(&mut head, h.sent);
    head.append("</td><td>");
    push_decimal(&mut head, h.received);
    head.append("</td><td>");
    let f = figures_of(h);
    let mut d = Doc::new();
    d.text(head.as_str());
    d.figure(h.loss_pct(), 1);
    d.text("%</td><td>");
    add_cell(&mut d, f.min);
    d.text("</td><td>");
    add_cell(&mut d, f.avg);
    d.text("</td><td>");
    add_cell(&mut d, f.max);
    d.text("</td><td>");
    add_cell(&mut d, f.jitter);
    d.text("</td></tr>\n");
    d
}

/// The rows of the verdicts.
fn write_sla_rows(app: &MultiPingApp, hosts: &Vec<&Host>) -> (d: Doc)
    requires
        all_wf(hosts@),
    ensures
        d@ == sla_rows(app@, ref_views(hosts@)),
{
    let ghost all = ref_views(hosts@);
    let n: usize = hosts.len();
    let mut d = Doc::new();
    assert(all.take(0) =~= Seq::empty());
    for i in 0..n
        invariant
            n == hosts@.len(),
            all_wf(hosts@),
            all == ref_views(hosts@),
            d@ == sla_rows(app@, all.take(i as int)),
    {
        assert(all.take(i + 1).drop_last() =~= all.take(i as int));
        let h: &Host = hosts[i];
        assert(all[i as int] == h@);
        assert(hosts@[i as int].wf());
        d.append(write_sla_row(app, h));
    }
    assert(all.take(n as int) =~= all);
    d
}

/// The rows of the statistics.
fn write_stats_rows(hosts: &Vec<&Host>) -> (d: Doc)
    requires
        all_wf(hosts@),
    ensures
        d@ == stats_rows(ref_views(hosts@)),
{
    let ghost all = ref_views(hosts@);
    let n: usize = hosts.len();
    let mut d = Doc::new();
    assert(all.take(0) =~= Seq::empty());
    for i in 0..n
        invariant
            n == hosts@.len(),
            all_wf(hosts@),
            all == ref_views(hosts@),
            d@ == stats_rows(all.take(i as int)),
    {
        assert(all.take(i + 1).drop_last() =~= all.take(i as int));
        let h: &Host = hosts[i];
        assert(all[i as int] == h@);
        assert(hosts@[i as int].wf());
        d.append(write_stats_row(h));
    }
    assert(all.take(n as int) =~= all);
    d
}

/// The part of the report before its tables.
fn write_head(app: &MultiPingApp, count: usize, duration: u64, time: &str) -> (d: Doc)
    ensures
        d@ == report_head(app@, count as int, duration as int, time@),
{
    let location = if app.network_location.as_str().is_empty() {
        "—".to_owned()
    } else {
        xml_esc(app.network_location.as_str())
    };
    let comment = if app.report_comment.as_str().is_empty() {
        "—".to_owned()
    } else {
        break_lines(xml_esc(app.report_comment.as_str()).as_str())
    };
    let mut d = Doc::new();
    d.text(PAGE_HEAD);
    d.text(time);
    d.text(PAGE_LOCATION);
    d.text(location.as_str());
    d.text(PAGE_DURATION);
    d.figure(
        Number { offset: 0, gain: 1, num: duration as i128, den: NANOS_PER_S as u128 },
        0,
    );
    d.text(PAGE_MINUTES);
    d.figure(
        Number { offset: 0, gain: 1, num: duration as i128, den: 60 * NANOS_PER_S as u128 },
        1,
    );
    d.text(PAGE_HOSTS);
    d.text(decimal_text(count as u64).as_str());
    d.text(PAGE_THRESHOLDS);
    d.figure(ms(app.sla_rtt), 0);
    d.text(PAGE_LOSS);
    d.figure(Number { offset: 0, gain: 1, num: app.sla_loss as i128, den: 1_000_000 }, 2);
    d.text(PAGE_NOTES);
    d.text(comment.as_str());
    d.text(PAGE_SLA);
    d
}

/// The report on the hosts, after a session of `duration` nanoseconds, written
/// at `time`.
pub fn report_text(app: &MultiPingApp, hosts: &Vec<&Host>, duration: u64, time: &str) -> (s: String)
    requires
        all_wf(hosts@),
    ensures
        s@ == joined(report_page(app@, ref_views(hosts@), duration as int, time@)),
{
    let mut d = write_head(app, hosts.len(), duration, time);
    d.append(write_sla_rows(app, hosts));
    d.text(PAGE_STATS);
    d.append(write_stats_rows(hosts));
    d.text(PAGE_CHART);
    d.append(generate_report_svg(hosts));
    d.text(PAGE_BOXES);
    d.append(generate_candlestick_svg(hosts));
    d.text(PAGE_END);
    assert(d@ =~= report_page(app@, ref_views(hosts@), duration as int, time@));
    d.join()
}

/// The name of the exported report, written at `stamp`.
pub open spec fn report_file_name(stamp: Seq<char>) -> Seq<char> {
    "pinger_report_"@ + stamp + ".html"@
}

/// The name and the contents of the report on the hosts that are not removed,
/// after a session of `duration` nanoseconds.
pub fn export_report(app: &MultiPingApp, monitor: &Monitor, duration: u64) -> (r: (String, String))
    requires
        monitor.wf(),
    ensures
        exists|stamp: Seq<char>|
            is_file_stamp(stamp) && r.0@ == #[trigger] report_file_name(stamp),
        exists|time: Seq<char>|
            is_human_stamp(time) && r.1@ == joined(
                #[trigger] report_page(app@, kept(monitor@.hosts), duration as int, time),
            ),
{
    let time = now_human();
    let hosts = monitor.kept_hosts();
    let text = report_text(app, &hosts, duration, time.as_str());
    let stamp = now_file_ts();
    let mut name = "pinger_report_".to_owned();
    name.append(stamp.as_str());
    name.append(".html");
    assert(name@ == report_file_name(stamp@));
    (name, text)
}

} // verus!
