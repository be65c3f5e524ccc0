//! What holds of the pings of a host and of the statistics over them.

use vstd::prelude::*;
use vstd::seq_lib::{commutative_foldl, lemma_fold_left_permutation};

use crate::host::{HostView, Sla, StatusView, MAX_SENT};
use crate::monitor::Edit;
use crate::palette::Color;
use crate::stats::{
    hits, is_greatest, is_least, lemma_hits_len, lemma_swings_bound, lemma_total_bounds,
    percentile_scaled, smaller_first, swings, total, Sample,
};
use crate::worker::{answered_host, Answer};

verus! {

// ---------------------------------------------------------------------------
// Pings
// ---------------------------------------------------------------------------

/// Recording a ping adds it behind all others, at its session time counted from
/// the time origin, and changes nothing else.
pub proof fn law_recording_appends(h: HostView, session_t: u64, rtt: Option<u64>)
    ensures
        ({
            let after = h.recorded(session_t, rtt);
            let sample = Sample { at: (session_t - h.time_origin) as i128, rtt };
            &&& after.history == h.history.push(sample)
            &&& after == (HostView { history: after.history, ..h })
        }),
{
}

/// Every ping that ends, answered or not, is one more sample behind all others:
/// at its session time counted from the time origin, with the round-trip time of
/// the reply, or none. But for the status nothing else changes.
pub proof fn law_ended_pings_are_recorded(h: HostView, session_t: u64, answer: Answer)
    ensures
        ({
            let after = answered_host(h, session_t, answer);
            let rtt = match answer {
                Answer::Reply(rtt) => Some(rtt),
                _ => None,
            };
            let sample = Sample { at: (session_t - h.time_origin) as i128, rtt };
            &&& after.history == h.history.push(sample)
            &&& after == (HostView { history: after.history, status: after.status, ..h })
        }),
{
}

/// A reply brings a host online, a lost ping shows as a timeout, and a failure
/// as an error with its own words.
pub proof fn law_ended_pings_show(h: HostView, session_t: u64, answer: Answer)
    ensures
        answered_host(h, session_t, answer).status == (match answer {
            Answer::Reply(_) => StatusView::Online,
            Answer::Timeout => StatusView::Timeout,
            Answer::Failed(e) => StatusView::Error(e@),
        }),
{
}

/// A reset keeps everything of a host but its pings and its time origin.
pub proof fn law_reset_keeps_the_host(h: HostView, now: u64)
    ensures
        ({
            let after = h.reset_at(now);
            &&& after.history.len() == 0
            &&& after.time_origin == now
            &&& after == (HostView { history: after.history, time_origin: now, ..h })
        }),
{
}

/// The answers are the samples that have a round-trip time, in order.
pub proof fn law_hits_are_the_answers(history: Seq<Sample>)
    ensures
        hits(history) == history.filter(|s: Sample| s.rtt is Some).map_values(
            |s: Sample| s.rtt->0,
        ),
    decreases history.len(),
{
    reveal(Seq::filter);
    let answered = |s: Sample| s.rtt is Some;
    let time = |s: Sample| s.rtt->0;
    if history.len() > 0 {
        law_hits_are_the_answers(history.drop_last());
        let rest = history.drop_last().filter(answered);
        if history.last().rtt is Some {
            assert(rest.push(history.last()).map_values(time) =~= rest.map_values(time).push(
                history.last().rtt->0,
            ));
        }
    }
    assert(hits(history) =~= history.filter(answered).map_values(time));
}

/// Counting is about the samples alone.
pub proof fn law_counts(h: HostView)
    ensures
        h.sent() == h.history.len(),
        h.received() == h.history.filter(|s: Sample| s.rtt is Some).len(),
        h.lost() == h.history.filter(|s: Sample| s.rtt is None).len(),
        h.hits() == hits(h.history),
        h.last_rtt() == (if h.history.len() == 0 {
            None
        } else {
            h.history[h.history.len() - 1].rtt
        }),
{
    law_hits_are_the_answers(h.history);
    lemma_answered_and_lost(h.history);
}

proof fn lemma_answered_and_lost(history: Seq<Sample>)
    ensures
        history.filter(|s: Sample| s.rtt is Some).len() + history.filter(
            |s: Sample| s.rtt is None,
        ).len() == history.len(),
    decreases history.len(),
{
    reveal(Seq::filter);
    if history.len() > 0 {
        lemma_answered_and_lost(history.drop_last());
    }
}

// ---------------------------------------------------------------------------
// Sums
// ---------------------------------------------------------------------------

/// A sum adds up all values.
pub proof fn law_total_adds_up(values: Seq<u64>)
    ensures
        total(values) == values.fold_left(0int, |sum: int, v: u64| sum + v),
    decreases values.len(),
{
    reveal(Seq::fold_left);
    if values.len() > 0 {
        law_total_adds_up(values.drop_last());
    }
}

/// The order in which values come makes no difference to their sum.
pub proof fn law_total_ignores_order(a: Seq<u64>, b: Seq<u64>)
    requires
        a.to_multiset() == b.to_multiset(),
    ensures
        total(a) == total(b),
        a.len() == b.len(),
{
    broadcast use vstd::seq_lib::group_to_multiset_ensures;

    let f = |sum: int, v: u64| sum + v;
    law_total_adds_up(a);
    law_total_adds_up(b);
    assert(commutative_foldl(f));
    lemma_fold_left_permutation(a, b, f, 0int);
    assert(a.to_multiset().len() == a.len() && b.to_multiset().len() == b.len());
}

/// One more value moves the sum of the distances by its distance from the last
/// one; one value alone has no distance to another.
pub proof fn law_swings_add_up(values: Seq<u64>, v: u64)
    ensures
        swings(Seq::empty()) == 0,
        values.len() == 0 ==> swings(values.push(v)) == 0,
        values.len() > 0 && values.last() <= v ==> swings(values.push(v)) == swings(values) + v
            - values.last(),
        values.len() > 0 && values.last() > v ==> swings(values.push(v)) == swings(values)
            + values.last() - v,
{
    assert(values.push(v).drop_last() =~= values);
}

/// The mean of the answers: their sum over their count.
pub proof fn law_mean_is_sum_over_count(h: HostView)
    requires
        h.history.len() <= MAX_SENT,
    ensures
        ({
            let all = hits(h.history);
            match h.avg_rtt() {
                Some(f) => all.len() > 0 && f.den > 0 && f.num * all.len() == total(all) * f.den,
                None => all.len() == 0,
            }
        }),
{
    let all = hits(h.history);
    lemma_sums(h);
    let n = all.len() as int;
    let t = total(all) as int;
    assert(t * n == n * t) by (nonlinear_arith);
}

/// The sums over the answers of a host fit in 128 bits.
proof fn lemma_sums(h: HostView)
    requires
        h.history.len() <= MAX_SENT,
    ensures
        hits(h.history).len() <= MAX_SENT,
        total(hits(h.history)) <= u64::MAX * MAX_SENT,
        swings(hits(h.history)) <= u64::MAX * MAX_SENT,
{
    let all = hits(h.history);
    lemma_hits_len(h.history);
    lemma_total_bounds(all, 0, u64::MAX as int);
    lemma_swings_bound(all);
    assert(u64::MAX * all.len() <= u64::MAX * MAX_SENT) by (nonlinear_arith)
        requires
            all.len() <= MAX_SENT,
    ;
}

/// The mean jitter: the sum of the distances between neighbouring answers over
/// the count of such neighbours.
pub proof fn law_jitter_is_swings_over_count(h: HostView)
    requires
        h.history.len() <= MAX_SENT,
    ensures
        ({
            let all = hits(h.history);
            match h.avg_jitter() {
                Some(f) => all.len() > 1 && f.den > 0 && f.num * (all.len() - 1) == swings(all)
                    * f.den,
                None => all.len() <= 1,
            }
        }),
{
    let all = hits(h.history);
    lemma_sums(h);
    let n = all.len() - 1;
    let t = swings(all) as int;
    assert(t * n == n * t) by (nonlinear_arith);
}

/// The extremes are answers, and no answer lies beyond them.
pub proof fn law_extremes_are_answers(h: HostView)
    ensures
        match h.min_rtt() {
            Some(m) => hits(h.history).contains(m) && forall|i: int|
                0 <= i < hits(h.history).len() ==> m <= #[trigger] hits(h.history)[i],
            None => hits(h.history).len() == 0,
        },
        hits(h.history).len() == 0 ==> h.max_rtt() == 0,
        hits(h.history).len() > 0 ==> hits(h.history).contains(h.max_rtt()),
        forall|i: int|
            0 <= i < hits(h.history).len() ==> #[trigger] hits(h.history)[i] <= h.max_rtt(),
{
    let all = hits(h.history);
    if all.len() > 0 {
        lemma_extremes_exist(all);
    }
}

proof fn lemma_extremes_exist(values: Seq<u64>)
    requires
        values.len() > 0,
    ensures
        exists|m: u64| is_least(values, m),
        exists|m: u64| is_greatest(values, m),
    decreases values.len(),
{
    let v = values.last();
    assert(values[values.len() - 1] == v);
    if values.len() == 1 {
        assert(is_least(values, v) && is_greatest(values, v));
    } else {
        let front = values.drop_last();
        lemma_extremes_exist(front);
        let low = choose|m: u64| is_least(front, m);
        let high = choose|m: u64| is_greatest(front, m);
        let i = choose|i: int| 0 <= i < front.len() && front[i] == low;
        let j = choose|j: int| 0 <= j < front.len() && front[j] == high;
        assert(values[i] == low && values[j] == high);
        assert forall|k: int| 0 <= k < front.len() implies low <= #[trigger] values[k] <= high by {
            assert(front[k] == values[k]);
        }
        assert(is_least(values, if v < low { v } else { low }));
        assert(is_greatest(values, if v > high { v } else { high }));
    }
}

/// The sorted samples are the round-trip times of the answers, the same ones as
/// often, smallest first.
pub proof fn law_sorted_samples(h: HostView)
    ensures
        h.sorted_hits().to_multiset() == hits(h.history).to_multiset(),
        h.sorted_hits().len() == hits(h.history).len(),
        forall|i: int, j: int|
            0 <= i < j < h.sorted_hits().len() ==> #[trigger] h.sorted_hits()[i]
                <= #[trigger] h.sorted_hits()[j],
{
    broadcast use vstd::seq_lib::group_to_multiset_ensures;

    let all = hits(h.history);
    let sorted = h.sorted_hits();
    all.lemma_sort_by_ensures(smaller_first());
    assert(sorted.to_multiset().len() == all.to_multiset().len());
    assert forall|i: int, j: int| 0 <= i < j < sorted.len() implies #[trigger] sorted[i]
        <= #[trigger] sorted[j] by {
        assert((smaller_first())(sorted[i], sorted[j]));
    }
}

/// The loss in percent: a hundred times the lost pings over all pings, and 0
/// without any ping.
pub proof fn law_loss_is_lost_over_sent(h: HostView)
    requires
        h.history.len() <= MAX_SENT,
    ensures
        ({
            let n = h.loss_pct();
            let lost = h.history.len() - hits(h.history).len();
            &&& n.den > 0
            &&& n.scaled() * h.history.len() == 100 * lost * n.den
            &&& h.history.len() == 0 ==> n.scaled() == 0
        }),
{
    lemma_hits_len(h.history);
    let n = h.loss_pct();
    let lost = h.history.len() - hits(h.history).len();
    let sent = h.history.len() as int;
    let den = n.den as int;
    let num = n.num as int;
    assert(n.offset == 0 && n.gain == 100);
    assert(n.scaled() == 100 * num) by (nonlinear_arith)
        requires
            n.scaled() == n.offset * n.den + n.gain * n.num,
            n.offset == 0,
            n.gain == 100,
            num == n.num,
    ;
    if sent > 0 {
        assert(100 * num * sent == 100 * lost * den) by (nonlinear_arith)
            requires
                num == lost,
                den == sent,
        ;
    }
}

// ---------------------------------------------------------------------------
// Percentiles
// ---------------------------------------------------------------------------

/// A percentile lies on the straight line between the two samples that stand
/// around its place: `below` is the place at or before the fraction
/// `part / whole` of the way from the first to the last sample.
pub proof fn law_percentile_interpolates(sorted: Seq<u64>, part: nat, whole: nat, below: nat)
    requires
        0 < whole,
        part <= whole,
        below < sorted.len(),
        below * whole <= part * (sorted.len() - 1) < (below + 1) * whole,
    ensures
        ({
            let rest = part * (sorted.len() - 1) - below * whole;
            let low = sorted[below as int];
            &&& below + 1 < sorted.len() ==> percentile_scaled(sorted, part, whole) == low * (whole
                - rest) + sorted[below as int + 1] * rest
            &&& below + 1 == sorted.len() ==> percentile_scaled(sorted, part, whole) == low * whole
        }),
{
    let p = part * (sorted.len() - 1);
    let rest = p - below * whole;
    assert((below + 1) * whole == below * whole + whole) by (nonlinear_arith);
    vstd::arithmetic::div_mod::lemma_fundamental_div_mod_converse(
        p,
        whole as int,
        below as int,
        rest,
    );
    let low = sorted[below as int] as int;
    let next = crate::stats::next_place(sorted, below as int);
    let high = sorted[next] as int;
    assert(percentile_scaled(sorted, part, whole) == whole * low + rest * (high - low));
    assert(whole * low + rest * (high - low) == low * (whole - rest) + high * rest)
        by (nonlinear_arith);
    if below + 1 == sorted.len() {
        assert(rest * (low - low) == 0) by (nonlinear_arith);
        assert(whole * low == low * whole) by (nonlinear_arith);
    }
}

// ---------------------------------------------------------------------------
// Verdicts and colours
// ---------------------------------------------------------------------------

/// A host with answers passes where the mean of all its answers and its loss
/// are both within the thresholds, fails where neither is, and is a warning
/// otherwise. Without answers there is no verdict.
pub proof fn law_verdict_judges_mean_and_loss(h: HostView, rtt_threshold: nat, loss_threshold: nat)
    ensures
        ({
            let all = hits(h.history);
            let verdict = h.sla(rtt_threshold, loss_threshold);
            let fast = total(all) <= rtt_threshold * all.len();
            let clean = 100_000_000 * (h.history.len() - all.len()) <= loss_threshold
                * h.history.len();
            &&& verdict == Sla::NoData <==> all.len() == 0
            &&& verdict == Sla::Pass <==> all.len() > 0 && fast && clean
            &&& verdict == Sla::Fail <==> all.len() > 0 && !fast && !clean
            &&& verdict == Sla::Warn <==> all.len() > 0 && fast != clean
        }),
{
    lemma_hits_len(h.history);
}

/// The order in which the same answers and losses came makes no difference to
/// the verdict.
pub proof fn law_verdict_ignores_order(
    g: HostView,
    h: HostView,
    rtt_threshold: nat,
    loss_threshold: nat,
)
    requires
        g.history.len() == h.history.len(),
        hits(g.history).to_multiset() == hits(h.history).to_multiset(),
    ensures
        g.sla(rtt_threshold, loss_threshold) == h.sla(rtt_threshold, loss_threshold),
{
    law_total_ignores_order(hits(g.history), hits(h.history));
    law_verdict_judges_mean_and_loss(g, rtt_threshold, loss_threshold);
    law_verdict_judges_mean_and_loss(h, rtt_threshold, loss_threshold);
}

/// The verdicts have different badges, words and styles: only a passed one is
/// marked as passed, and only a failed one as failed.
pub proof fn law_verdicts_are_told_apart(v: Sla)
    ensures
        v.badge() == (match v {
            Sla::NoData => ("  —  "@, Color::Dim),
            Sla::Pass => (" PASS "@, Color::Good),
            Sla::Warn => (" WARN "@, Color::Warn),
            Sla::Fail => (" FAIL "@, Color::Bad),
        }),
        v.word() == (match v {
            Sla::NoData => "—"@,
            Sla::Pass => "PASS"@,
            Sla::Warn => "WARN"@,
            Sla::Fail => "FAIL"@,
        }),
        v.class() == "pass"@ <==> v == Sla::Pass,
        v.class() == "fail"@ <==> v == Sla::Fail,
        v.class() == "warn"@ <==> v == Sla::Warn || v == Sla::NoData,
{
    reveal_strlit("pass");
    reveal_strlit("fail");
    reveal_strlit("warn");
    assert("pass"@[0] == 'p' && "fail"@[0] == 'f' && "warn"@[0] == 'w');
}

/// A host is green while it is online without loss, amber while it is online
/// with some, and red exactly on a timeout or an error.
pub proof fn law_status_colours(s: StatusView, lost: nat)
    ensures
        s.color(lost) == Color::Good <==> s is Online && lost == 0,
        s.color(lost) == Color::Warn <==> s is Online && lost > 0,
        s.color(lost) == Color::Bad <==> s is Timeout || s is Error,
        s.color(lost) == Color::Info <==> s is Resolving,
        s.color(lost) == Color::Dim <==> s is Idle,
{
}

/// The words for the statuses.
pub proof fn law_status_words(s: StatusView)
    ensures
        s is Idle ==> s.label() == "idle"@,
        s is Resolving ==> s.label() == "resolving…"@,
        s is Online ==> s.label() == "online"@,
        s is Timeout ==> s.label() == "timeout"@,
        s is Error ==> s.label() == "error"@,
{
}

/// An edit changes one thing of a host and leaves all others.
pub proof fn law_edits_change_one_thing(h: HostView, now: u64, interval_ms: u64)
    ensures
        ({
            let removed = Edit::Remove.apply(h);
            &&& removed.removed
            &&& removed == (HostView { removed: true, ..h })
        }),
        ({
            let toggled = Edit::TogglePause.apply(h);
            &&& toggled.paused != h.paused
            &&& toggled == (HostView { paused: toggled.paused, ..h })
        }),
        ({
            let toggled = Edit::ToggleVisible.apply(h);
            &&& toggled.visible != h.visible
            &&& toggled == (HostView { visible: toggled.visible, ..h })
        }),
        ({
            let fresh = Edit::Reset(now).apply(h);
            &&& fresh.history.len() == 0
            &&& fresh.time_origin == now
            &&& fresh == (HostView { history: fresh.history, time_origin: now, ..h })
        }),
        Edit::Interval(interval_ms).apply(h) == (HostView { interval_ms, ..h }),
{
}

} // verus!
