//! Real-time monitoring of many network hosts: the state of the monitored
//! hosts, the statistics over their round-trip times, the activity log, the
//! parser of sweep targets, the ping worker's decisions, what the panels of the
//! window show, and the exported reports.
//!
//! Every time is a whole number of nanoseconds.

pub mod text;
pub mod number;
pub mod doc;
pub mod order;
pub mod palette;
pub mod stats;
pub mod host;
pub mod clock;
pub mod log;
pub mod monitor;
pub mod worker;
pub mod targets;
pub mod sweeps;
pub mod console;
pub mod markup;
pub mod page;
pub mod chart;
pub mod boxes;
pub mod report;
pub mod panel;
pub mod icon;
pub mod session;
pub mod text_laws;
pub mod host_laws;
pub mod monitor_laws;
pub mod chart_laws;
pub mod report_laws;
pub mod panel_laws;
