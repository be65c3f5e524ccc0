//! The activity log.

use std::collections::VecDeque;

use vstd::prelude::*;

use crate::clock::{is_file_stamp, is_human_stamp, is_time_stamp, now_file_ts, now_human, now_ts};
use crate::palette::Color;
use crate::text::{contains_text, occurs, pad, padded, to_chars};

verus! {

/// The most entries that the log keeps.
pub const MAX_LOGS: usize = 5_000;

/// How much an entry matters.
#[derive(Clone, Copy, Debug, PartialEq, Eq, Structural)]
pub enum LogLevel {
    Info,
    Good,
    Warn,
    Bad,
}

impl LogLevel {
    /// The tag of each level, four characters wide.
    pub open spec fn tag(self) -> Seq<char> {
        match self {
            LogLevel::Info => "INFO"@,
            LogLevel::Good => "OK  "@,
            LogLevel::Warn => "WARN"@,
            LogLevel::Bad => "ERR "@,
        }
    }

    /// The tag of the level.
    pub fn label(self) -> (s: &'static str)
        ensures
            s@ == self.tag(),
    {
        match self {
            LogLevel::Info => "INFO",
            LogLevel::Good => "OK  ",
            LogLevel::Warn => "WARN",
            LogLevel::Bad => "ERR ",
        }
    }

    /// The colour of each level.
    pub open spec fn tone(self) -> Color {
        match self {
            LogLevel::Info => Color::Info,
            LogLevel::Good => Color::Good,
            LogLevel::Warn => Color::Warn,
            LogLevel::Bad => Color::Bad,
        }
    }

    /// The colour of the level.
    pub fn color(self) -> (c: Color)
        ensures
            c == self.tone(),
    {
        match self {
            LogLevel::Info => Color::Info,
            LogLevel::Good => Color::Good,
            LogLevel::Warn => Color::Warn,
            LogLevel::Bad => Color::Bad,
        }
    }
}

/// One line of the activity log.
#[derive(Debug, PartialEq, Eq)]
pub struct LogEntry {
    pub time: String,
    pub host: String,
    pub msg: String,
    pub level: LogLevel,
}

/// One line of the activity log, by its characters.
pub struct EntryView {
    pub time: Seq<char>,
    pub host: Seq<char>,
    pub msg: Seq<char>,
    pub level: LogLevel,
}

impl View for LogEntry {
    type V = EntryView;

    open spec fn view(&self) -> EntryView {
        EntryView { time: self.time@, host: self.host@, msg: self.msg@, level: self.level }
    }
}

/// The lines of a log, oldest first.
pub open spec fn entries(logs: Seq<LogEntry>) -> Seq<EntryView> {
    logs.map_values(|e: LogEntry| e@)
}

/// The log with one more line: a full log loses its oldest one.
pub open spec fn pushed(log: Seq<EntryView>, e: EntryView) -> Seq<EntryView> {
    if log.len() >= MAX_LOGS {
        log.skip(1).push(e)
    } else {
        log.push(e)
    }
}

/// The log `after` is the log `before` with one more line, written at some
/// time of day.
pub open spec fn logged(
    before: Seq<LogEntry>,
    after: Seq<LogEntry>,
    host: Seq<char>,
    msg: Seq<char>,
    level: LogLevel,
) -> bool {
    exists|time: Seq<char>|
        is_time_stamp(time) && entries(after) == pushed(
            entries(before),
            #[trigger] entry_of(time, host, msg, level),
        )
}

/// A line of its parts.
pub open spec fn entry_of(
    time: Seq<char>,
    host: Seq<char>,
    msg: Seq<char>,
    level: LogLevel,
) -> EntryView {
    EntryView { time, host, msg, level }
}

/// Adds a line that carries the time `time`.
pub fn push_entry(logs: &mut VecDeque<LogEntry>, time: String, host: &str, msg: String, level: LogLevel)
    ensures
        entries(final(logs)@) == pushed(entries(old(logs)@), entry_of(time@, host@, msg@, level)),
{
    if logs.len() >= MAX_LOGS {
        let _ = logs.pop_front();
    }
    logs.push_back(LogEntry { time, host: host.to_owned(), msg, level });
    assert(entries(logs@) =~= pushed(entries(old(logs)@), entry_of(time@, host@, msg@, level)));
}

/// Adds a line that carries the current time of day.
pub fn push_log(logs: &mut VecDeque<LogEntry>, host: &str, msg: String, level: LogLevel)
    ensures
        logged(old(logs)@, final(logs)@, host@, msg@, level),
{
    let time = now_ts();
    push_entry(logs, time, host, msg, level);
}

/// Removes every line.
pub fn clear_log(logs: &mut VecDeque<LogEntry>)
    ensures
        final(logs)@ == Seq::<LogEntry>::empty(),
{
    logs.truncate(0);
    assert(logs@ =~= Seq::<LogEntry>::empty());
}

// ---------------------------------------------------------------------------
// Filter
// ---------------------------------------------------------------------------

/// What `str::to_lowercase` makes of a string.
pub uninterp spec fn lowercase(s: Seq<char>) -> Seq<char>;

/// `str::to_lowercase`: the lower-case equivalent of `s`, which is a function of
/// its characters alone; that of the empty string is empty.
#[verifier::external_body]
pub(crate) fn to_lowercase(s: &str) -> (r: String)
    ensures
        r@ == lowercase(s@),
        s@.len() == 0 ==> r@.len() == 0,
{
    s.to_lowercase()
}

/// Whether a line passes a filter, where all three are in lower case: an empty
/// filter passes every line, another one those that hold it in the host or in
/// the message.
pub open spec fn passes(host: Seq<char>, msg: Seq<char>, filter: Seq<char>) -> bool {
    filter.len() == 0 || occurs(host, filter) || occurs(msg, filter)
}

/// Whether a line passes a filter, where all three are in lower case.
pub fn matches_filter(host: &str, msg: &str, filter: &str) -> (r: bool)
    ensures
        r == passes(host@, msg@, filter@),
{
    let part = to_chars(filter);
    part.len() == 0 || contains_text(to_chars(host).as_slice(), part.as_slice()) || contains_text(
        to_chars(msg).as_slice(),
        part.as_slice(),
    )
}

/// The places of the lines of `log` that pass the filter, in order.
pub open spec fn shown(log: Seq<EntryView>, filter: Seq<char>) -> Seq<int>
    decreases log.len(),
{
    if log.len() == 0 {
        Seq::empty()
    } else {
        let rest = shown(log.drop_last(), filter);
        let e = log.last();
        if passes(lowercase(e.host), lowercase(e.msg), lowercase(filter)) {
            rest.push(log.len() - 1)
        } else {
            rest
        }
    }
}

/// The places of the lines that pass the filter, whatever their case.
pub fn filter_entries(logs: &VecDeque<LogEntry>, filter: &str) -> (r: Vec<usize>)
    ensures
        r@.map_values(|i: usize| i as int) == shown(entries(logs@), filter@),
        filter@.len() == 0 ==> r@ =~= Seq::new(logs@.len(), |i: int| i as usize),
{
    let f = to_lowercase(filter);
    let mut r: Vec<usize> = Vec::new();
    let n: usize = logs.len();
    let ghost all = entries(logs@);
    assert(r@.map_values(|i: usize| i as int) =~= shown(all.take(0), filter@));
    for i in 0..n
        invariant
            n == logs@.len(),
            all == entries(logs@),
            f@ == lowercase(filter@),
            r@.map_values(|i: usize| i as int) == shown(all.take(i as int), filter@),
    {
        let e: &LogEntry = &logs[i];
        assert(e@ == all[i as int]);
        assert(all.take(i + 1).drop_last() =~= all.take(i as int));
        let host = to_lowercase(e.host.as_str());
        let msg = to_lowercase(e.msg.as_str());
        if matches_filter(host.as_str(), msg.as_str(), f.as_str()) {
            let ghost before = r@;
            r.push(i);
            assert(r@.map_values(|i: usize| i as int) =~= before.map_values(
                |i: usize| i as int,
            ).push(i as int));
        }
    }
    assert(all.take(n as int) =~= all);
    proof {
        let places = r@.map_values(|i: usize| i as int);
        if filter@.len() == 0 {
            law_empty_filter_shows_all(all, filter@);
            assert forall|k: int| 0 <= k < r@.len() implies #[trigger] r@[k] == k as usize by {
                assert(places[k] == k);
            }
            assert(r@.len() == places.len());
        }
    }
    r
}

// ---------------------------------------------------------------------------
// Export
// ---------------------------------------------------------------------------

/// A ruler of 80 dashes.
pub const RULER: &'static str = "────────────────────────────────────────────────────────────────────────────────";

/// The line of the exported file for one entry.
pub open spec fn log_line(e: EntryView) -> Seq<char> {
    "["@ + e.time + "]  ["@ + e.level.tag() + "]  "@ + padded(e.host, 25) + "  "@ + e.msg + "\n"@
}

/// The lines of the exported file.
pub open spec fn log_lines(log: Seq<EntryView>) -> Seq<char>
    decreases log.len(),
{
    if log.len() == 0 {
        Seq::empty()
    } else {
        log_lines(log.drop_last()) + log_line(log.last())
    }
}

/// The exported file, written at `time`.
pub open spec fn log_file(time: Seq<char>, log: Seq<EntryView>) -> Seq<char> {
    "pinger — Activity Log\nExported: "@ + time + "\n"@ + RULER@ + "\n\n"@ + log_lines(log)
}

/// The line of the exported file for one entry.
fn log_line_text(e: &LogEntry) -> (s: String)
    ensures
        s@ == log_line(e@),
{
    let mut s = "[".to_owned();
    s.append(e.time.as_str());
    s.append("]  [");
    s.append(e.level.label());
    s.append("]  ");
    s.append(pad(e.host.as_str(), 25).as_str());
    s.append("  ");
    s.append(e.msg.as_str());
    s.append("\n");
    s
}

/// The exported file, written at `time`.
pub fn log_text(time: &str, logs: &VecDeque<LogEntry>) -> (s: String)
    ensures
        s@ == log_file(time@, entries(logs@)),
{
    let mut s = "pinger — Activity Log\nExported: ".to_owned();
    s.append(time);
    s.append("\n");
    s.append(RULER);
    s.append("\n\n");
    let ghost head = s@;
    let ghost all = entries(logs@);
    let n: usize = logs.len();
    assert(head + log_lines(all.take(0)) =~= head);
    for i in 0..n
        invariant
            n == logs@.len(),
            all == entries(logs@),
            s@ == head + log_lines(all.take(i as int)),
    {
        assert(all[i as int] == logs@[i as int]@);
        assert(all.take(i + 1).drop_last() =~= all.take(i as int));
        s.append(log_line_text(&logs[i]).as_str());
        assert(s@ =~= head + log_lines(all.take(i + 1)));
    }
    assert(all.take(n as int) =~= all);
    s
}

/// The name of the exported file, written at `stamp`.
pub open spec fn log_file_name(stamp: Seq<char>) -> Seq<char> {
    "pinger_log_"@ + stamp + ".txt"@
}

/// The name and the contents of the exported log.
pub fn export_log(logs: &VecDeque<LogEntry>) -> (r: (String, String))
    ensures
        exists|stamp: Seq<char>|
            is_file_stamp(stamp) && r.0@ == #[trigger] log_file_name(stamp),
        exists|time: Seq<char>|
            is_human_stamp(time) && r.1@ == #[trigger] log_file(time, entries(logs@)),
{
    let time = now_human();
    let text = log_text(time.as_str(), logs);
    let stamp = now_file_ts();
    let mut name = "pinger_log_".to_owned();
    name.append(stamp.as_str());
    name.append(".txt");
    assert(name@ == log_file_name(stamp@));
    (name, text)
}

// ---------------------------------------------------------------------------
// Laws
// ---------------------------------------------------------------------------

/// The log after the lines `more` were added one by one.
pub open spec fn pushed_all(log: Seq<EntryView>, more: Seq<EntryView>) -> Seq<EntryView>
    decreases more.len(),
{
    if more.len() == 0 {
        log
    } else {
        pushed(pushed_all(log, more.drop_last()), more.last())
    }
}

/// A log never grows beyond its limit.
pub proof fn law_log_bounded(log: Seq<EntryView>, e: EntryView)
    requires
        log.len() <= MAX_LOGS,
    ensures
        0 < pushed(log, e).len() <= MAX_LOGS,
        pushed(log, e).last() == e,
{
}

/// A log that began empty holds the newest lines, up to its limit, in the order
/// in which they were added.
pub proof fn law_log_keeps_newest(more: Seq<EntryView>)
    ensures
        pushed_all(Seq::empty(), more) == (if more.len() <= MAX_LOGS {
            more
        } else {
            more.skip(more.len() - MAX_LOGS)
        }),
    decreases more.len(),
{
    if more.len() > 0 {
        law_log_keeps_newest(more.drop_last());
        let before = pushed_all(Seq::empty(), more.drop_last());
        let after = pushed_all(Seq::empty(), more);
        if more.len() <= MAX_LOGS {
            assert(after =~= more);
        } else {
            assert(after =~= more.skip(more.len() - MAX_LOGS));
        }
    }
}

/// A filter that is empty in lower case shows every line.
pub proof fn law_empty_filter_shows_all(log: Seq<EntryView>, filter: Seq<char>)
    requires
        lowercase(filter).len() == 0,
    ensures
        shown(log, filter) == Seq::new(log.len(), |i: int| i),
    decreases log.len(),
{
    if log.len() > 0 {
        law_empty_filter_shows_all(log.drop_last(), filter);
    }
    assert(shown(log, filter) =~= Seq::new(log.len(), |i: int| i));
}

/// A filter shows exactly the lines that pass it, each once and in order.
pub proof fn law_filter_exact(log: Seq<EntryView>, filter: Seq<char>)
    ensures
        forall|k: int|
            0 <= k < log.len() ==> (shown(log, filter).contains(k) <==> passes(
                lowercase(#[trigger] log[k].host),
                lowercase(log[k].msg),
                lowercase(filter),
            )),
        forall|i: int, j: int|
            0 <= i < j < shown(log, filter).len() ==> 0 <= #[trigger] shown(log, filter)[i]
                < #[trigger] shown(log, filter)[j] < log.len(),
        forall|i: int|
            0 <= i < shown(log, filter).len() ==> 0 <= #[trigger] shown(log, filter)[i] < log.len(),
    decreases log.len(),
{
    if log.len() > 0 {
        let front = log.drop_last();
        law_filter_exact(front, filter);
        let rest = shown(front, filter);
        let all = shown(log, filter);
        let e = log.last();
        assert forall|k: int| 0 <= k < log.len() implies (all.contains(k) <==> passes(
            lowercase(#[trigger] log[k].host),
            lowercase(log[k].msg),
            lowercase(filter),
        )) by {
            if k < log.len() - 1 {
                assert(front[k] == log[k]);
                if rest.contains(k) {
                    let i = choose|i: int| 0 <= i < rest.len() && rest[i] == k;
                    assert(all[i] == k);
                }
                if all.contains(k) {
                    let i = choose|i: int| 0 <= i < all.len() && all[i] == k;
                    assert(i < rest.len());
                    assert(rest[i] == k);
                }
            } else {
                if passes(lowercase(e.host), lowercase(e.msg), lowercase(filter)) {
                    assert(all[all.len() - 1] == k);
                }
            }
        }
    }
}

} // verus!
