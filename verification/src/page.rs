//! The fixed parts of the report page.

use vstd::prelude::*;

verus! {

/// The page before the time.
pub const PAGE_HEAD: &'static str = r#"<!DOCTYPE html>
<html lang="en">
<head>
<meta charset="UTF-8">
<title>Network Latency Report</title>
<style>
* { box-sizing:border-box; margin:0; padding:0; }
body {
  font-family: 'Segoe UI', Arial, sans-serif;
  font-size: 13px;
  color: #1a1a1a;
  background: #f4f4f4;
}
/* ── Cover banner ── */
.cover {
  background: #1a1a1a;
  color: #f0f0f0;
  padding: 32px 48px 24px;
  border-bottom: 4px solid #555;
}
.cover h1 {
  font-size: 22px;
  font-weight: 600;
  letter-spacing: 0.04em;
  text-transform: uppercase;
  margin-bottom: 4px;
}
.cover .sub {
  font-size: 12px;
  color: #aaa;
  letter-spacing: 0.06em;
  text-transform: uppercase;
}
/* ── Metadata block ── */
.meta-grid {
  display: grid;
  grid-template-columns: repeat(auto-fill, minmax(260px, 1fr));
  gap: 0;
  background: #fff;
  border-bottom: 1px solid #d0d0d0;
}
.meta-cell {
  padding: 12px 20px;
  border-right: 1px solid #e8e8e8;
}
.meta-cell:last-child { border-right: none; }
.meta-label {
  font-size: 10px;
  text-transform: uppercase;
  letter-spacing: 0.08em;
  color: #888;
  margin-bottom: 3px;
}
.meta-value { font-size: 13px; color: #1a1a1a; font-weight: 500; }
/* ── Comment block ── */
.comment-block {
  background: #fff;
  border-left: 3px solid #888;
  margin: 0;
  padding: 12px 20px;
  font-size: 12px;
  color: #444;
  border-bottom: 1px solid #d0d0d0;
}
/* ── Content area ── */
.content { padding: 28px 40px; }
h2 {
  font-size: 13px;
  font-weight: 600;
  text-transform: uppercase;
  letter-spacing: 0.07em;
  color: #1a1a1a;
  border-bottom: 2px solid #1a1a1a;
  padding-bottom: 5px;
  margin: 28px 0 12px;
}
h2:first-child { margin-top: 0; }
/* ── Tables ── */
table {
  border-collapse: collapse;
  width: 100%;
  margin-bottom: 8px;
  font-size: 12px;
  background: #fff;
  border: 1px solid #d0d0d0;
}
th {
  background: #2c2c2c;
  color: #f0f0f0;
  padding: 7px 14px;
  text-align: left;
  font-weight: 500;
  font-size: 11px;
  letter-spacing: 0.04em;
  text-transform: uppercase;
}
td { padding: 6px 14px; border-bottom: 1px solid #ebebeb; }
tr:last-child td { border-bottom: none; }
tr:nth-child(even) td { background: #fafafa; }
.pass { color: #1a6e1a; font-weight: 600; }
.fail { color: #8b1a1a; font-weight: 600; }
.warn { color: #7a4000; font-weight: 600; }
/* ── Chart caption ── */
.caption {
  font-size: 11px;
  color: #666;
  margin: 6px 0 14px;
}
</style>
</head>
<body>

<div class="cover">
  <div class="sub">pinger</div>
  <h1>Network Latency Report</h1>
</div>

<div class="meta-grid">
  <div class="meta-cell">
    <div class="meta-label">Generated</div>
    <div class="meta-value">"#;

/// The page before the location.
pub const PAGE_LOCATION: &'static str = r#"</div>
  </div>
  <div class="meta-cell">
    <div class="meta-label">Network Location</div>
    <div class="meta-value">"#;

/// The page before the session duration.
pub const PAGE_DURATION: &'static str = r#"</div>
  </div>
  <div class="meta-cell">
    <div class="meta-label">Session Duration</div>
    <div class="meta-value">"#;

/// The page before the duration in minutes.
pub const PAGE_MINUTES: &'static str = r#" s &nbsp;/&nbsp; "#;

/// The page before the number of hosts.
pub const PAGE_HOSTS: &'static str = r#" min</div>
  </div>
  <div class="meta-cell">
    <div class="meta-label">Hosts Monitored</div>
    <div class="meta-value">"#;

/// The page before the threshold for the round-trip time.
pub const PAGE_THRESHOLDS: &'static str = r#"</div>
  </div>
  <div class="meta-cell">
    <div class="meta-label">SLA Thresholds</div>
    <div class="meta-value">RTT &lt; "#;

/// The page before the threshold for the loss.
pub const PAGE_LOSS: &'static str = r#" ms &nbsp;|&nbsp; Loss &lt; "#;

/// The page before the notes.
pub const PAGE_NOTES: &'static str = r#"%</div>
  </div>
</div>

<div class="comment-block"><strong>Notes:</strong>&nbsp; "#;

/// The page before the rows of verdicts.
pub const PAGE_SLA: &'static str = r#"</div>

<div class="content">

<h2>SLA Results</h2>
<table>
  <tr><th>Host</th><th>IP</th><th>Avg RTT</th><th>Loss</th>
      <th>RTT Threshold</th><th>Loss Threshold</th><th>Result</th></tr>
  "#;

/// The page before the rows of statistics.
pub const PAGE_STATS: &'static str = r#"
</table>

<h2>Detailed Statistics</h2>
<table>
  <tr><th>Host</th><th>IP</th><th>Sent</th><th>Recv</th><th>Loss %</th>
      <th>Min (ms)</th><th>Avg (ms)</th><th>Max (ms)</th><th>Jitter (ms)</th></tr>
  "#;

/// The page before the chart.
pub const PAGE_CHART: &'static str = r#"
</table>

<h2>RTT Over Time</h2>
<div class="caption">X-axis: session time (s) &nbsp;|&nbsp; Y-axis: round-trip time (ms)</div>
"#;

/// The page before the distribution.
pub const PAGE_BOXES: &'static str = r#"

<h2>Latency Distribution</h2>
<div class="caption">
  Whiskers&nbsp;=&nbsp;Min / Max &nbsp;|&nbsp;
  Box&nbsp;=&nbsp;P25–P75 (IQR) &nbsp;|&nbsp;
  Vertical line&nbsp;=&nbsp;Median &nbsp;|&nbsp;
  Circle&nbsp;=&nbsp;Mean
</div>
"#;

/// The page after the distribution.
pub const PAGE_END: &'static str = r#"

</div>
</body>
</html>"#;

} // verus!
