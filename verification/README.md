# multiping

Real-time monitoring of many network hosts, with a window that shows live
round-trip times, packet loss, a latency panel and an activity log.

* `src/` is the library: the monitored hosts and the statistics over their pings,
  the parser of sweep targets, the decisions of the ping workers, the activity
  log, what the panels show, and the exported statistics and reports. Every
  function states what it does in its contract, and Verus proves it. All numbers
  are exact: times are whole nanoseconds, means and percentiles are quotients,
  and they are rounded only where they are written out.
* `app/` is the window around it: drawing with `egui`, pinging with `surge-ping`
  on a `tokio` runtime, and writing files. Raw ICMP sockets need elevated rights.
* `tests/` runs the library on given values.

| Module | Contents |
|--------|----------|
| `text`, `number`, `doc`, `order` | characters, exact numbers and how they are written, sorting |
| `stats`, `host`, `monitor` | pings and statistics, one host, all hosts |
| `targets`, `sweeps` | sweep targets, and what holds of them |
| `worker`, `session` | the ping worker, and what holds of hosts and workers |
| `clock`, `log` | the local time written out, the activity log |
| `console`, `panel`, `palette`, `icon` | the controls, what the panels show, colours, the icon |
| `chart`, `boxes`, `markup`, `page`, `report` | charts, markup and the exported files |
