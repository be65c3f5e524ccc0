//! What holds of the exported statistics and the exported report.

use vstd::prelude::*;

use crate::boxes::{box_row, box_rows, boxes_svg};
use crate::chart::{
    all_lines, chart_end, chart_top, crosses, legend, legends, line_markup, report_svg,
};
use crate::console::AppView;
use crate::doc::figure;
use crate::host::HostView;
use crate::host_laws::law_verdict_judges_mean_and_loss;
use crate::markup::{escaped, with_breaks};
use crate::monitor::{kept, lemma_kept};
use crate::monitor_laws::law_kept_are_not_removed;
use crate::number::{number, NANOS_PER_MS};
use crate::page::{
    PAGE_BOXES, PAGE_CHART, PAGE_DURATION, PAGE_END, PAGE_HEAD, PAGE_HOSTS, PAGE_LOCATION,
    PAGE_LOSS, PAGE_MINUTES, PAGE_NOTES, PAGE_SLA, PAGE_STATS, PAGE_THRESHOLDS,
};
use crate::report::{
    report_file_name, report_head, report_page, sla_row, sla_rows, stats_file, stats_file_name,
    stats_line, stats_lines, stats_row, stats_rows,
};
use crate::stats::{hits, is_greatest, is_least, swings, total};
use crate::text::decimal;

verus! {

// ---------------------------------------------------------------------------
// A row for each host
// ---------------------------------------------------------------------------

/// One more row lies behind all others.
proof fn lemma_one_more<A>(hosts: Seq<HostView>, f: spec_fn(int, HostView) -> Seq<A>)
    requires
        hosts.len() > 0,
    ensures
        hosts.map(f).flatten() == hosts.drop_last().map(f).flatten() + f(
            hosts.len() - 1,
            hosts.last(),
        ),
{
    broadcast use Seq::lemma_flatten_push;

    assert(hosts.map(f) =~= hosts.drop_last().map(f).push(f(hosts.len() - 1, hosts.last())));
}

/// The parts of rows of `size` parts each.
proof fn lemma_blocks<A>(
    hosts: Seq<HostView>,
    f: spec_fn(int, HostView) -> Seq<A>,
    size: int,
    k: int,
)
    requires
        0 < size,
        0 <= k < hosts.len(),
        forall|i: int| 0 <= i < hosts.len() ==> (#[trigger] f(i, hosts[i])).len() == size,
    ensures
        hosts.map(f).flatten().len() == size * hosts.len(),
        0 <= size * k,
        size * k + size <= size * hosts.len(),
        hosts.map(f).flatten().subrange(size * k, size * k + size) == f(k, hosts[k]),
    decreases hosts.len(),
{
    let front = hosts.drop_last();
    let n = hosts.len() as int;
    let all = hosts.map(f).flatten();
    let before = front.map(f).flatten();
    lemma_one_more(hosts, f);
    assert forall|i: int| 0 <= i < front.len() implies (#[trigger] f(i, front[i])).len() == size by {
        assert(f(i, hosts[i]).len() == size);
    }
    assert(f(n - 1, hosts[n - 1]).len() == size);
    assert(size * n == size * (n - 1) + size) by (nonlinear_arith);
    assert(0 <= size * k && size * k + size <= size * n) by (nonlinear_arith)
        requires
            0 < size,
            0 <= k < n,
    ;
    if n == 1 {
        assert(front.map(f) =~= Seq::empty());
        assert(size * 1 == size && size * 0 == 0) by (nonlinear_arith);
        assert(all.subrange(0, size) =~= f(0, hosts[0]));
    } else if k < n - 1 {
        lemma_blocks(front, f, size, k);
        assert(all.subrange(size * k, size * k + size) =~= before.subrange(
            size * k,
            size * k + size,
        ));
    } else {
        lemma_blocks(front, f, size, 0);
        assert(all.subrange(size * k, size * k + size) =~= f(k, hosts[k]));
    }
}

/// The exported statistics hold the lines of the hosts one after the other:
/// exactly one for each, in order.
pub proof fn law_a_line_for_each_host(hosts: Seq<HostView>)
    ensures
        stats_lines(hosts) == hosts.map(|i: int, h: HostView| stats_line(h)).flatten(),
        stats_lines(hosts).len() == 11 * hosts.len(),
        forall|k: int|
            0 <= k < hosts.len() ==> #[trigger] stats_lines(hosts).subrange(11 * k, 11 * k + 11)
                == stats_line(hosts[k]),
    decreases hosts.len(),
{
    let f = |i: int, h: HostView| stats_line(h);
    if hosts.len() == 0 {
        assert(hosts.map(f) =~= Seq::empty());
    } else {
        law_a_line_for_each_host(hosts.drop_last());
        lemma_one_more(hosts, f);
        assert forall|k: int| 0 <= k < hosts.len() implies #[trigger] stats_lines(hosts).subrange(
            11 * k,
            11 * k + 11,
        ) == stats_line(hosts[k]) by {
            lemma_blocks(hosts, f, 11, k);
        }
    }
}

/// The report holds one verdict, one row of statistics, one line with its
/// crosses, one legend and one row of the distribution for each host, in order.
pub proof fn law_a_row_for_each_host(
    app: AppView,
    hosts: Seq<HostView>,
    end: int,
    top: int,
    scale: int,
)
    ensures
        sla_rows(app, hosts) == hosts.map(|i: int, h: HostView| sla_row(app, h)).flatten(),
        stats_rows(hosts) == hosts.map(|i: int, h: HostView| stats_row(h)).flatten(),
        all_lines(hosts, end, top) == hosts.map(
            |i: int, h: HostView|
                line_markup(h, i, end, top) + crosses(h.history, end),
        ).flatten(),
        legends(hosts) == hosts.map(
            |i: int, h: HostView| legend(h.name, i),
        ).flatten(),
        box_rows(hosts, scale) == hosts.map(
            |i: int, h: HostView| box_row(h, i, scale),
        ).flatten(),
    decreases hosts.len(),
{
    let f1 = |i: int, h: HostView| sla_row(app, h);
    let f2 = |i: int, h: HostView| stats_row(h);
    let f3 = |i: int, h: HostView|
        line_markup(h, i, end, top) + crosses(h.history, end);
    let f4 = |i: int, h: HostView| legend(h.name, i);
    let f5 = |i: int, h: HostView| box_row(h, i, scale);
    if hosts.len() == 0 {
        assert(hosts.map(f1) =~= Seq::empty());
        assert(hosts.map(f2) =~= Seq::empty());
        assert(hosts.map(f3) =~= Seq::empty());
        assert(hosts.map(f4) =~= Seq::empty());
        assert(hosts.map(f5) =~= Seq::empty());
    } else {
        law_a_row_for_each_host(app, hosts.drop_last(), end, top, scale);
        lemma_one_more(hosts, f1);
        lemma_one_more(hosts, f2);
        lemma_one_more(hosts, f3);
        lemma_one_more(hosts, f4);
        lemma_one_more(hosts, f5);
        assert(all_lines(hosts, end, top) =~= hosts.map(f3).flatten());
    }
}

/// The exported statistics of a monitor: behind the head one line for every
/// host that is not removed, hidden or not, in order.
pub proof fn law_statistics_list_all_hosts(time: Seq<char>, hosts: Seq<HostView>)
    ensures
        ({
            let listed = hosts.filter(|h: HostView| !h.removed);
            let file = stats_file(time, kept(hosts));
            &&& file.len() == 3 + 11 * listed.len()
            &&& file[0] == "pinger — Statistics Export\nExported: "@
            &&& file[1] == time
            &&& file[2]
                == "\n\nHost,IP,Status,Sent,Received,Loss %,Min ms,Avg ms,Max ms,Jitter ms\n"@
            &&& forall|k: int|
                0 <= k < listed.len() ==> #[trigger] file.subrange(3 + 11 * k, 14 + 11 * k)
                    == stats_line(listed[k])
        }),
{
    let listed = hosts.filter(|h: HostView| !h.removed);
    let file = stats_file(time, kept(hosts));
    law_kept_are_not_removed(hosts);
    law_a_line_for_each_host(listed);
    let lines = stats_lines(listed);
    assert forall|k: int| 0 <= k < listed.len() implies #[trigger] file.subrange(
        3 + 11 * k,
        14 + 11 * k,
    ) == stats_line(listed[k]) by {
        assert(file.subrange(3 + 11 * k, 14 + 11 * k) =~= lines.subrange(11 * k, 11 * k + 11));
    }
}

// ---------------------------------------------------------------------------
// What the rows say
// ---------------------------------------------------------------------------

/// What a line of the exported statistics says: name, address, status, how many
/// pings were sent and answered, the loss in percent, the smallest, mean and
/// largest round-trip time and the mean jitter in milliseconds, each as a dash
/// where there is none.
pub proof fn law_line_says_statistics(h: HostView, low: u64, high: u64)
    requires
        hits(h.history).len() > 0 ==> is_least(hits(h.history), low) && is_greatest(
            hits(h.history),
            high,
        ),
    ensures
        ({
            let all = hits(h.history);
            let line = stats_line(h);
            let n = all.len() as int;
            &&& line.len() == 11
            &&& line[0] == h.name + ","@ + (match h.ip {
                Some(ip) => ip.text,
                None => Seq::empty(),
            }) + ","@ + h.status.label() + ","@ + decimal(h.history.len()) + ","@ + decimal(
                all.len(),
            ) + ","@
            &&& line[1] == figure(h.loss_pct(), 1)
            &&& line[3] == (if n == 0 {
                "—"@
            } else {
                figure(number(0, 1, low as int, 1_000_000), 2)
            })
            &&& line[5] == (if n == 0 {
                "—"@
            } else {
                figure(number(0, 1, total(all) as int, n * 1_000_000), 2)
            })
            &&& line[7] == (if n == 0 {
                "—"@
            } else {
                figure(number(0, 1, high as int, 1_000_000), 2)
            })
            &&& line[9] == (if n < 2 {
                "—"@
            } else {
                figure(number(0, 1, swings(all) as int, (n - 1) * 1_000_000), 2)
            })
            &&& line[2] == ","@ && line[4] == ","@ && line[6] == ","@ && line[8] == ","@
            &&& line[10] == "\n"@
        }),
{
    lemma_extremes_are(h, low, high);
}

/// The extremes of a host are its smallest and its largest answer.
pub proof fn lemma_extremes_are(h: HostView, low: u64, high: u64)
    requires
        hits(h.history).len() > 0 ==> is_least(hits(h.history), low) && is_greatest(
            hits(h.history),
            high,
        ),
    ensures
        hits(h.history).len() > 0 ==> h.min_rtt() == Some(low) && h.max_rtt() == high,
        hits(h.history).len() == 0 ==> h.min_rtt() is None && h.max_rtt() == 0,
{
    let all = hits(h.history);
    if all.len() > 0 {
        let l = h.min_rtt()->0;
        let g = h.max_rtt();
        assert(is_least(all, l) && is_greatest(all, g));
        let i = choose|i: int| 0 <= i < all.len() && all[i] == low;
        let j = choose|j: int| 0 <= j < all.len() && all[j] == l;
        assert(all[i] == low && all[j] == l);
        let p = choose|p: int| 0 <= p < all.len() && all[p] == high;
        let q = choose|q: int| 0 <= q < all.len() && all[q] == g;
        assert(all[p] == high && all[q] == g);
    }
}

/// What a row of the statistics in the report says: the same numbers, behind
/// the escaped name.
pub proof fn law_row_says_statistics(h: HostView)
    ensures
        ({
            let row = stats_row(h);
            let line = stats_line(h);
            &&& row.len() == 11
            &&& row[0] == "<tr><td>"@ + escaped(h.name) + "</td><td>"@ + (match h.ip {
                Some(ip) => ip.text,
                None => Seq::empty(),
            }) + "</td><td>"@ + decimal(h.history.len()) + "</td><td>"@ + decimal(
                hits(h.history).len(),
            ) + "</td><td>"@
            &&& row[1] == line[1] && row[3] == line[3] && row[5] == line[5] && row[7] == line[7]
                && row[9] == line[9]
            &&& row[2] == "%</td><td>"@
            &&& row[4] == "</td><td>"@ && row[6] == "</td><td>"@ && row[8] == "</td><td>"@
            &&& row[10] == "</td></tr>\n"@
        }),
{
}

/// What a verdict in the report says: the mean round-trip time, the loss, the
/// two thresholds, and whether the host met them.
pub proof fn law_row_says_verdict(app: AppView, h: HostView)
    ensures
        ({
            let all = hits(h.history);
            let row = sla_row(app, h);
            let line = stats_line(h);
            let fast = total(all) <= app.sla_rtt * all.len();
            let clean = 100_000_000 * (h.history.len() - all.len()) <= app.sla_loss
                * h.history.len();
            let (class, word) = if all.len() == 0 {
                ("warn"@, "—"@)
            } else if fast && clean {
                ("pass"@, "PASS"@)
            } else if !fast && !clean {
                ("fail"@, "FAIL"@)
            } else {
                ("warn"@, "WARN"@)
            };
            &&& row.len() == 9
            &&& row[0] == "<tr><td>"@ + escaped(h.name) + "</td><td>"@ + (match h.ip {
                Some(ip) => ip.text,
                None => Seq::empty(),
            }) + "</td><td>"@
            &&& row[1] == line[5]
            &&& row[3] == line[1]
            &&& row[5] == figure(number(0, 1, app.sla_rtt as int, 1_000_000), 0)
            &&& row[7] == figure(number(0, 1, app.sla_loss as int, 1_000_000), 1)
            &&& row[2] == "</td><td>"@ && row[4] == "%</td><td>"@ && row[6] == " ms</td><td>"@
            &&& row[8] == "%</td><td class=\""@ + class + "\">"@ + word + "</td></tr>\n"@
        }),
{
    law_verdict_judges_mean_and_loss(h, app.sla_rtt as nat, app.sla_loss as nat);
}

/// What the head of the report says, between the fixed parts of the page.
pub proof fn law_head_says_settings(app: AppView, count: int, duration: int, time: Seq<char>)
    ensures
        ({
            let head = report_head(app, count, duration, time);
            &&& head.len() == 17
            &&& head[0] == PAGE_HEAD@ && head[2] == PAGE_LOCATION@ && head[4] == PAGE_DURATION@
                && head[6] == PAGE_MINUTES@ && head[8] == PAGE_HOSTS@ && head[10]
                == PAGE_THRESHOLDS@ && head[12] == PAGE_LOSS@ && head[14] == PAGE_NOTES@ && head[16]
                == PAGE_SLA@
            &&& head[1] == time
            &&& head[3] == (if app.network_location.len() == 0 {
                "—"@
            } else {
                escaped(app.network_location)
            })
            &&& head[5] == figure(number(0, 1, duration, 1_000_000_000), 0)
            &&& head[7] == figure(number(0, 1, duration, 60_000_000_000), 1)
            &&& head[9] == decimal(count as nat)
            &&& head[11] == figure(number(0, 1, app.sla_rtt as int, 1_000_000), 0)
            &&& head[13] == figure(number(0, 1, app.sla_loss as int, 1_000_000), 2)
            &&& head[15] == (if app.report_comment.len() == 0 {
                "—"@
            } else {
                with_breaks(escaped(app.report_comment))
            })
        }),
{
}

/// The report counts the hosts that it lists, and its charts are about them.
pub proof fn law_report_is_about_its_hosts(
    app: AppView,
    hosts: Seq<HostView>,
    duration: int,
    time: Seq<char>,
)
    ensures
        ({
            let page = report_page(app, hosts, duration, time);
            let head = report_head(app, hosts.len() as int, duration, time);
            let at = 17 + sla_rows(app, hosts).len() as int;
            let at_chart = at + 1 + stats_rows(hosts).len() as int;
            let at_boxes = at_chart + 1 + report_svg(hosts).len() as int;
            &&& page.subrange(0, 17) == head
            &&& page[9] == decimal(hosts.len())
            &&& page.subrange(17, at) == sla_rows(app, hosts)
            &&& page.subrange(at + 1, at_chart) == stats_rows(hosts)
            &&& page.subrange(at_chart + 1, at_boxes) == report_svg(hosts)
            &&& page.subrange(at_boxes + 1, page.len() - 1) == boxes_svg(hosts)
            &&& page[at] == PAGE_STATS@ && page[at_chart] == PAGE_CHART@ && page[at_boxes]
                == PAGE_BOXES@ && page.last() == PAGE_END@
        }),
{
    let page = report_page(app, hosts, duration, time);
    let head = report_head(app, hosts.len() as int, duration, time);
    let at = 17 + sla_rows(app, hosts).len() as int;
    let at_chart = at + 1 + stats_rows(hosts).len() as int;
    let at_boxes = at_chart + 1 + report_svg(hosts).len() as int;
    assert(page.subrange(0, 17) =~= head);
    assert(page.subrange(17, at) =~= sla_rows(app, hosts));
    assert(page.subrange(at + 1, at_chart) =~= stats_rows(hosts));
    assert(page.subrange(at_chart + 1, at_boxes) =~= report_svg(hosts));
    assert(page.subrange(at_boxes + 1, page.len() - 1) =~= boxes_svg(hosts));
}

/// The names of the exported files.
pub proof fn law_export_names(stamp: Seq<char>)
    ensures
        stats_file_name(stamp) == "pinger_stats_"@ + stamp + ".csv"@,
        report_file_name(stamp) == "pinger_report_"@ + stamp + ".html"@,
{
}

// ---------------------------------------------------------------------------
// What makes no difference
// ---------------------------------------------------------------------------

/// Two sequences of hosts that differ at most in what is not exported: whether
/// they are shown, paused, numbered or coloured alike.
pub open spec fn same_data(a: Seq<HostView>, b: Seq<HostView>) -> bool {
    &&& a.len() == b.len()
    &&& forall|i: int|
        #![trigger a[i]]
        #![trigger b[i]]
        0 <= i < a.len() ==> a[i].removed == b[i].removed && a[i].name == b[i].name && a[i].ip
            == b[i].ip && a[i].status == b[i].status && a[i].history == b[i].history
}

proof fn lemma_same_data_kept(a: Seq<HostView>, b: Seq<HostView>)
    requires
        same_data(a, b),
    ensures
        same_data(kept(a), kept(b)),
    decreases a.len(),
{
    lemma_kept(a);
    lemma_kept(b);
    if a.len() > 0 {
        assert(a[a.len() - 1].removed == b[b.len() - 1].removed);
        lemma_same_data_front(a, b);
        lemma_same_data_kept(a.drop_last(), b.drop_last());
    }
}

proof fn lemma_same_data_front(a: Seq<HostView>, b: Seq<HostView>)
    requires
        same_data(a, b),
        a.len() > 0,
    ensures
        same_data(a.drop_last(), b.drop_last()),
{
    assert forall|i: int|
        #![trigger a.drop_last()[i]]
        #![trigger b.drop_last()[i]]
        0 <= i < a.drop_last().len() implies a.drop_last()[i].removed == b.drop_last()[i].removed
        && a.drop_last()[i].name == b.drop_last()[i].name && a.drop_last()[i].ip
        == b.drop_last()[i].ip && a.drop_last()[i].status == b.drop_last()[i].status
        && a.drop_last()[i].history == b.drop_last()[i].history by {
        assert(a.drop_last()[i] == a[i]);
        assert(b.drop_last()[i] == b[i]);
    }
}

proof fn lemma_same_data_rows(
    app: AppView,
    a: Seq<HostView>,
    b: Seq<HostView>,
    end: int,
    top: int,
    scale: int,
    floor: u64,
)
    requires
        same_data(a, b),
    ensures
        stats_lines(a) == stats_lines(b),
        sla_rows(app, a) == sla_rows(app, b),
        stats_rows(a) == stats_rows(b),
        chart_end(a) == chart_end(b),
        chart_top(a, floor) == chart_top(b, floor),
        all_lines(a, end, top) == all_lines(b, end, top),
        legends(a) == legends(b),
        box_rows(a, scale) == box_rows(b, scale),
    decreases a.len(),
{
    if a.len() > 0 {
        let x = a[a.len() - 1];
        let y = b[b.len() - 1];
        assert(x == a.last() && y == b.last());
        lemma_same_data_front(a, b);
        lemma_same_data_rows(app, a.drop_last(), b.drop_last(), end, top, scale, floor);
        assert(x.hits() == y.hits());
        assert(x.min_rtt() == y.min_rtt());
        assert(x.max_rtt() == y.max_rtt());
        assert(x.sorted_hits() == y.sorted_hits());
        assert(stats_line(x) == stats_line(y));
        assert(sla_row(app, x) == sla_row(app, y));
        assert(stats_row(x) == stats_row(y));
        assert(box_row(x, a.len() - 1, scale) == box_row(
            y,
            a.len() - 1,
            scale,
        ));
    }
}

/// Hiding, showing or pausing hosts changes nothing in the exported statistics
/// and nothing in the report.
pub proof fn law_hiding_changes_no_export(
    app: AppView,
    a: Seq<HostView>,
    b: Seq<HostView>,
    duration: int,
    time: Seq<char>,
)
    requires
        same_data(a, b),
    ensures
        stats_file(time, kept(a)) == stats_file(time, kept(b)),
        report_page(app, kept(a), duration, time) == report_page(app, kept(b), duration, time),
{
    let x = kept(a);
    let y = kept(b);
    lemma_same_data_kept(a, b);
    let floor = (10 * NANOS_PER_MS) as u64;
    lemma_same_data_rows(app, x, y, 0, 0, 0, floor);
    lemma_same_data_rows(app, x, y, 0, 0, 0, NANOS_PER_MS);
    lemma_same_data_rows(
        app,
        x,
        y,
        chart_end(x),
        chart_top(x, floor) as int,
        chart_top(x, NANOS_PER_MS) as int,
        floor,
    );
}

} // verus!
