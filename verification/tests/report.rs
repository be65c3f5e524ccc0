use std::collections::VecDeque;

use multiping::boxes::generate_candlestick_svg;
use multiping::chart::generate_report_svg;
use multiping::console::MultiPingApp;
use multiping::host::{Address, Host, Status};
use multiping::monitor::{Edit, Monitor};
use multiping::report::{export_report, export_stats, figures_of, report_text, stats_text};

const MS: u64 = 1_000_000;
const S: u64 = 1_000_000_000;

fn host() -> Host {
    let mut h = Host::new(1, "<alpha>".to_string(), 1_000, 0);
    h.record(S, Some(10 * MS));
    h.record(2 * S, None);
    h.record(3 * S, Some(20 * MS));
    h.record(4 * S, Some(13 * MS + 7_000));
    h.status = Status::Online;
    h.ip = Some(Address { text: "10.0.0.1".to_string(), v6: false });
    h
}

fn silent() -> Host {
    let mut h = Host::new(2, "mute".to_string(), 1_000, 1);
    h.record(S, None);
    h.status = Status::Timeout;
    h
}

fn has_shape(s: &str, pattern: &str) -> bool {
    s.chars().count() == pattern.chars().count()
        && s.chars().zip(pattern.chars()).all(|(c, p)| if p == '9' { c.is_ascii_digit() } else { c == p })
}

fn monitored() -> Monitor {
    let mut m = Monitor::new();
    let mut logs = VecDeque::new();
    for name in ["alpha", "gone", "beta"] {
        m.add_host_named(&mut logs, name.to_string(), 1_000);
    }
    m.hosts[0].record(S, Some(10 * MS));
    m.edit(2, Edit::Remove);
    m
}

#[test]
fn statistics_in_milliseconds() {
    let f = figures_of(&silent());
    assert_eq!((f.min, f.avg, f.max, f.jitter), (None, None, None, None));
    let mut one = silent();
    one.record(2 * S, Some(5 * MS));
    let f = figures_of(&one);
    assert!(f.min.is_some() && f.avg.is_some() && f.max.is_some() && f.jitter.is_none());
}

#[test]
fn exported_statistics() {
    let h = host();
    let m = silent();
    assert_eq!(
        stats_text("2024-01-31 10:24:01", &vec![&h, &m]),
        "pinger — Statistics Export\nExported: 2024-01-31 10:24:01\n\n\
         Host,IP,Status,Sent,Received,Loss %,Min ms,Avg ms,Max ms,Jitter ms\n\
         <alpha>,10.0.0.1,online,4,3,25.0,10.00,14.34,20.00,8.50\n\
         mute,,timeout,1,0,100.0,—,—,—,—\n"
    );
    let fresh = Host::new(3, "new".to_string(), 1_000, 2);
    assert!(stats_text("t", &vec![&fresh]).ends_with("new,,idle,0,0,0.0,—,—,—,—\n"));
}

#[test]
fn exported_statistics_leave_out_removed_hosts() {
    let m = monitored();
    let (name, text) = export_stats(&m);
    assert!(has_shape(&name, "pinger_stats_99999999_999999.csv"), "{name}");
    let time = text.lines().nth(1).unwrap();
    assert!(has_shape(time, "Exported: 9999-99-99 99:99:99"), "{time}");
    assert_eq!(text, stats_text(&time["Exported: ".len()..], &m.kept_hosts()));
    assert!(text.contains("\nalpha,") && text.contains("\nbeta,") && !text.contains("\ngone,"));
}

#[test]
fn page_of_the_report() {
    let mut app = MultiPingApp::new();
    app.network_location = "Site A & B".to_string();
    app.report_comment = "one <two>\nthree".to_string();
    app.sla_rtt = 12 * MS;
    app.sla_loss = 2_500_000;
    let h = host();
    let m = silent();
    let hosts = vec![&h, &m];
    let page = report_text(&app, &hosts, 90 * S, "2024-01-31 10:24:01");
    assert!(page.starts_with("<!DOCTYPE html>\n<html lang=\"en\">\n<head>\n<meta charset=\"UTF-8\">\n<title>Network Latency Report</title>\n<style>\n* { box-sizing:border-box; margin:0; padding:0; }\n"));
    assert!(page.ends_with("\n\n</div>\n</body>\n</html>"));
    assert!(page.contains("<div class=\"meta-value\">2024-01-31 10:24:01</div>"));
    assert!(page.contains("<div class=\"meta-value\">Site A &amp; B</div>"));
    assert!(page.contains("<div class=\"meta-value\">90 s &nbsp;/&nbsp; 1.5 min</div>"));
    assert!(page.contains("<div class=\"meta-label\">Hosts Monitored</div>\n    <div class=\"meta-value\">2</div>"));
    assert!(page.contains("RTT &lt; 12 ms &nbsp;|&nbsp; Loss &lt; 2.50%</div>"));
    assert!(page.contains("<strong>Notes:</strong>&nbsp; one &lt;two&gt;<br>three</div>"));
    assert!(page.contains(
        "<th>Result</th></tr>\n  \
         <tr><td>&lt;alpha&gt;</td><td>10.0.0.1</td><td>14.34</td><td>25.0%</td>\
         <td>12 ms</td><td>2.5%</td><td class=\"fail\">FAIL</td></tr>\n\
         <tr><td>mute</td><td></td><td>—</td><td>100.0%</td>\
         <td>12 ms</td><td>2.5%</td><td class=\"warn\">—</td></tr>\n\n</table>"
    ));
    assert!(page.contains(
        "<th>Jitter (ms)</th></tr>\n  \
         <tr><td>&lt;alpha&gt;</td><td>10.0.0.1</td><td>4</td><td>3</td><td>25.0%</td>\
         <td>10.00</td><td>14.34</td><td>20.00</td><td>8.50</td></tr>\n\
         <tr><td>mute</td><td></td><td>1</td><td>0</td><td>100.0%</td>\
         <td>—</td><td>—</td><td>—</td><td>—</td></tr>\n\n</table>"
    ));
    let chart = generate_report_svg(&hosts).join();
    let boxes = generate_candlestick_svg(&hosts).join();
    let caption = "<div class=\"caption\">X-axis: session time (s) &nbsp;|&nbsp; Y-axis: round-trip time (ms)</div>\n";
    assert!(page.contains(&format!("{caption}{chart}\n\n<h2>Latency Distribution</h2>\n")));
    assert!(page.contains(&format!("  Circle&nbsp;=&nbsp;Mean\n</div>\n{boxes}\n\n</div>\n</body>")));
}

#[test]
fn page_without_location_comment_and_hosts() {
    let app = MultiPingApp::new();
    let page = report_text(&app, &Vec::new(), 0, "now");
    assert!(page.contains("<div class=\"meta-label\">Network Location</div>\n    <div class=\"meta-value\">—</div>"));
    assert!(page.contains("<strong>Notes:</strong>&nbsp; —</div>"));
    assert!(page.contains("0 s &nbsp;/&nbsp; 0.0 min"));
    assert!(page.contains("RTT &lt; 50 ms &nbsp;|&nbsp; Loss &lt; 1.00%"));
    assert!(page.contains("Circle&nbsp;=&nbsp;Mean\n</div>\n\n\n</div>\n</body>"));
}

#[test]
fn exported_report() {
    let app = MultiPingApp::new();
    let m = monitored();
    let (name, page) = export_report(&app, &m, 61 * S);
    assert!(has_shape(&name, "pinger_report_99999999_999999.html"), "{name}");
    let before = "<div class=\"meta-label\">Generated</div>\n    <div class=\"meta-value\">";
    let at = page.find(before).unwrap() + before.len();
    let time = &page[at..at + 19];
    assert!(has_shape(time, "9999-99-99 99:99:99"), "{time}");
    assert_eq!(page, report_text(&app, &m.kept_hosts(), 61 * S, time));
    assert!(page.contains("<td>alpha</td>") && !page.contains("<td>gone</td>"));
}
