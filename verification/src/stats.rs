//! Series of ping results and the statistics over them.

use vstd::arithmetic::div_mod::{lemma_fundamental_div_mod, lemma_mod_bound};
use vstd::prelude::*;

use crate::host::Host;
use crate::number::Fraction;
use crate::order::{ordered, Ranked};

verus! {

/// One ping: when it was recorded, counted from the host's time origin, and its
/// round-trip time, or nothing where the packet was lost.
#[derive(Clone, Copy, Debug, PartialEq, Eq)]
pub struct Sample {
    pub at: i128,
    pub rtt: Option<u64>,
}

/// The round-trip times of the answered pings, oldest first.
pub open spec fn hits(history: Seq<Sample>) -> Seq<u64>
    decreases history.len(),
{
    if history.len() == 0 {
        Seq::empty()
    } else {
        match history.last().rtt {
            Some(rtt) => hits(history.drop_last()).push(rtt),
            None => hits(history.drop_last()),
        }
    }
}

/// The sum of all values.
pub open spec fn total(values: Seq<u64>) -> nat
    decreases values.len(),
{
    if values.len() == 0 {
        0
    } else {
        total(values.drop_last()) + values.last() as nat
    }
}

/// How far two values lie apart.
pub open spec fn distance(a: u64, b: u64) -> nat {
    if a <= b {
        (b - a) as nat
    } else {
        (a - b) as nat
    }
}

/// The sum of the distances between neighbouring values.
pub open spec fn swings(values: Seq<u64>) -> nat
    decreases values.len(),
{
    if values.len() < 2 {
        0
    } else {
        swings(values.drop_last()) + distance(values[values.len() - 2], values.last())
    }
}

/// Whether `m` is the smallest of the values.
pub open spec fn is_least(values: Seq<u64>, m: u64) -> bool {
    values.contains(m) && (forall|i: int| 0 <= i < values.len() ==> m <= #[trigger] values[i])
}

/// Whether `m` is the largest of the values.
pub open spec fn is_greatest(values: Seq<u64>, m: u64) -> bool {
    values.contains(m) && (forall|i: int| 0 <= i < values.len() ==> #[trigger] values[i] <= m)
}

/// The order of round-trip times.
pub open spec fn smaller_first() -> spec_fn(u64, u64) -> bool {
    |a: u64, b: u64| a <= b
}

/// Two ordered sequences of the same values are equal.
pub proof fn lemma_ordered_unique(values: Seq<u64>, sorted: Seq<u64>)
    requires
        ordered(sorted),
        sorted.to_multiset() == values.to_multiset(),
    ensures
        sorted == values.sort_by(smaller_first()),
{
    values.lemma_sort_by_ensures(smaller_first());
    assert(vstd::relations::sorted_by(sorted, smaller_first())) by {
        assert forall|i: int, j: int| 0 <= i < j < sorted.len() implies (smaller_first())(
            #[trigger] sorted[i],
            #[trigger] sorted[j],
        ) by {
            assert(sorted[i].ranks(sorted[j]));
        }
    }
    vstd::seq_lib::lemma_sorted_unique(
        sorted,
        values.sort_by(smaller_first()),
        smaller_first(),
    );
}

/// There are no more answers than pings.
pub proof fn lemma_hits_len(history: Seq<Sample>)
    ensures
        hits(history).len() <= history.len(),
    decreases history.len(),
{
    if history.len() > 0 {
        lemma_hits_len(history.drop_last());
    }
}

/// A sum lies between the count times the smallest and the count times the
/// largest value.
pub proof fn lemma_total_bounds(values: Seq<u64>, low: int, high: int)
    requires
        forall|i: int| 0 <= i < values.len() ==> low <= #[trigger] values[i] <= high,
    ensures
        low * values.len() <= total(values) <= high * values.len(),
    decreases values.len(),
{
    if values.len() > 0 {
        let rest = values.drop_last();
        assert forall|i: int| 0 <= i < rest.len() implies low <= #[trigger] rest[i] <= high by {
            assert(rest[i] == values[i]);
        }
        lemma_total_bounds(rest, low, high);
        let n = values.len() as int;
        assert(low * n == low * (n - 1) + low) by (nonlinear_arith);
        assert(high * n == high * (n - 1) + high) by (nonlinear_arith);
    }
}

/// The sum of the distances is bounded by the count.
pub proof fn lemma_swings_bound(values: Seq<u64>)
    ensures
        swings(values) <= u64::MAX * values.len(),
    decreases values.len(),
{
    if values.len() >= 2 {
        lemma_swings_bound(values.drop_last());
        let n = values.len() as int;
        assert(u64::MAX * n == u64::MAX * (n - 1) + u64::MAX) by (nonlinear_arith);
    }
}

// ---------------------------------------------------------------------------
// Percentiles
// ---------------------------------------------------------------------------

/// The place of `sorted` at or below the fraction `part / whole` of the way
/// from its first to its last value.
pub open spec fn rank_below(sorted: Seq<u64>, part: nat, whole: nat) -> nat {
    part * ((sorted.len() - 1) as nat) / whole
}

/// How far behind that place the fraction lies, in units of `1 / whole`.
pub open spec fn rank_rest(sorted: Seq<u64>, part: nat, whole: nat) -> nat {
    part * ((sorted.len() - 1) as nat) % whole
}

/// The place behind `i`, or the last one.
pub open spec fn next_place(sorted: Seq<u64>, i: int) -> int {
    if i + 1 < sorted.len() {
        i + 1
    } else {
        sorted.len() - 1
    }
}

/// The percentile times `whole`: the value at the place below, and from there
/// the share of the way to the next value.
pub open spec fn percentile_scaled(sorted: Seq<u64>, part: nat, whole: nat) -> int {
    let below = rank_below(sorted, part, whole) as int;
    whole * sorted[below] + rank_rest(sorted, part, whole) * (sorted[next_place(sorted, below)]
        - sorted[below])
}

/// The place below lies in the sequence.
proof fn lemma_rank_below(sorted: Seq<u64>, part: nat, whole: nat)
    requires
        sorted.len() > 0,
        part <= whole,
        0 < whole,
    ensures
        rank_below(sorted, part, whole) < sorted.len(),
        rank_rest(sorted, part, whole) < whole,
{
    let last = sorted.len() - 1;
    let p = part * (last as nat);
    assert(part * last <= whole * last) by (nonlinear_arith)
        requires
            part <= whole,
            last >= 0,
    ;
    lemma_fundamental_div_mod(p as int, whole as int);
    lemma_mod_bound(p as int, whole as int);
    let q = p as int / whole as int;
    let r = p as int % whole as int;
    assert(q <= last) by (nonlinear_arith)
        requires
            whole * q + r == p,
            0 <= r,
            p <= whole * last,
            whole > 0,
    ;
}

/// A mean with weights that add up to `whole` lies between its two values.
proof fn lemma_weighted(a: int, b: int, rest: int, whole: int)
    requires
        0 <= rest < whole,
        0 <= a <= u64::MAX,
        0 <= b <= u64::MAX,
    ensures
        a * (whole - rest) + b * rest == whole * a + rest * (b - a),
        0 <= a * (whole - rest),
        0 <= b * rest,
        a * (whole - rest) + b * rest <= u64::MAX * whole,
        a <= b ==> whole * a <= whole * a + rest * (b - a) <= whole * b,
{
    assert(a * (whole - rest) + b * rest == whole * a + rest * (b - a)) by (nonlinear_arith);
    assert(0 <= a * (whole - rest) && 0 <= b * rest) by (nonlinear_arith)
        requires
            0 <= a,
            0 <= b,
            0 <= rest < whole,
    ;
    assert(a * (whole - rest) <= u64::MAX * (whole - rest)) by (nonlinear_arith)
        requires
            a <= u64::MAX,
            rest < whole,
    ;
    assert(b * rest <= u64::MAX * rest) by (nonlinear_arith)
        requires
            b <= u64::MAX,
            0 <= rest,
    ;
    assert(u64::MAX * (whole - rest) + u64::MAX * rest == u64::MAX * whole) by (nonlinear_arith);
    if a <= b {
        assert(0 <= rest * (b - a) <= whole * (b - a)) by (nonlinear_arith)
            requires
                0 <= rest < whole,
                a <= b,
        ;
        assert(whole * a + whole * (b - a) == whole * b) by (nonlinear_arith);
    }
}

impl Host {
    /// The percentile `part / whole` by linear interpolation.
    pub fn percentile(sorted: &[u64], part: u64, whole: u64) -> (r: Option<Fraction>)
        requires
            part <= whole,
            0 < whole,
        ensures
            r is None <==> sorted@.len() == 0,
            r matches Some(f) ==> f.den == whole && f.num == percentile_scaled(
                sorted@,
                part as nat,
                whole as nat,
            ),
    {
        let n: usize = sorted.len();
        if n == 0 {
            return None;
        }
        proof {
            lemma_rank_below(sorted@, part as nat, whole as nat);
        }
        let last: u64 = (n - 1) as u64;
        assert(part * last <= u64::MAX * u64::MAX) by (nonlinear_arith)
            requires
                part <= u64::MAX,
                last <= u64::MAX,
        ;
        let place: u128 = part as u128 * last as u128;
        let lo: usize = (place / whole as u128) as usize;
        let rest: u64 = (place % whole as u128) as u64;
        let hi: usize = if lo + 1 < n { lo + 1 } else { n - 1 };
        let low: u64 = sorted[lo];
        let high: u64 = sorted[hi];
        proof {
            lemma_weighted(low as int, high as int, rest as int, whole as int);
            assert(u64::MAX * whole <= u64::MAX * u64::MAX) by (nonlinear_arith)
                requires
                    whole <= u64::MAX,
            ;
        }
        let num: u128 = low as u128 * (whole - rest) as u128 + high as u128 * rest as u128;
        Some(Fraction { num, den: whole as u128 })
    }
}

/// No percentile lies below the smallest or above the largest sample.
pub proof fn law_percentile_between_extremes(sorted: Seq<u64>, part: nat, whole: nat)
    requires
        sorted.len() > 0,
        ordered(sorted),
        part <= whole,
        0 < whole,
    ensures
        whole * sorted[0] <= percentile_scaled(sorted, part, whole) <= whole * sorted.last(),
{
    let below = rank_below(sorted, part, whole) as int;
    let next = next_place(sorted, below);
    let rest = rank_rest(sorted, part, whole);
    lemma_rank_below(sorted, part, whole);
    lemma_weighted(sorted[below] as int, sorted[next] as int, rest as int, whole as int);
    let first = sorted[0] as int;
    let last = sorted.last() as int;
    let low = sorted[below] as int;
    let high = sorted[next] as int;
    assert(first <= low <= high <= last);
    assert(whole * first <= whole * low && whole * high <= whole * last) by (nonlinear_arith)
        requires
            first <= low,
            high <= last,
            whole > 0,
    ;
}

/// The percentile 0 is the smallest sample, and the percentile 1 the largest.
pub proof fn law_percentile_ends(sorted: Seq<u64>, whole: nat)
    requires
        sorted.len() > 0,
        0 < whole,
    ensures
        percentile_scaled(sorted, 0, whole) == whole * sorted[0],
        percentile_scaled(sorted, whole, whole) == whole * sorted.last(),
{
    let last = (sorted.len() - 1) as nat;
    assert(0 * last == 0) by (nonlinear_arith);
    vstd::arithmetic::div_mod::lemma_small_mod(0, whole);
    vstd::arithmetic::div_mod::lemma_div_of0(whole as int);
    vstd::arithmetic::div_mod::lemma_div_by_multiple(last as int, whole as int);
    vstd::arithmetic::div_mod::lemma_mod_multiples_basic(last as int, whole as int);
    assert(whole * last == last * whole) by (nonlinear_arith);
    let a = sorted[0] as int;
    let b = sorted[next_place(sorted, 0)] as int;
    assert(0 * (b - a) == 0) by (nonlinear_arith);
    let c = sorted.last() as int;
    assert(0 * (c - c) == 0) by (nonlinear_arith);
}

/// A higher percentile is never the smaller one, whatever the wholes of which
/// the two are parts.
pub proof fn law_percentile_monotone(
    sorted: Seq<u64>,
    part1: nat,
    whole1: nat,
    part2: nat,
    whole2: nat,
)
    requires
        sorted.len() > 0,
        ordered(sorted),
        part1 <= whole1,
        part2 <= whole2,
        0 < whole1,
        0 < whole2,
        part1 * whole2 <= part2 * whole1,
    ensures
        percentile_scaled(sorted, part1, whole1) * whole2 <= percentile_scaled(
            sorted,
            part2,
            whole2,
        ) * whole1,
{
    let last = (sorted.len() - 1) as nat;
    let p1 = part1 * last;
    let p2 = part2 * last;
    lemma_rank_below(sorted, part1, whole1);
    lemma_rank_below(sorted, part2, whole2);
    lemma_fundamental_div_mod(p1 as int, whole1 as int);
    lemma_fundamental_div_mod(p2 as int, whole2 as int);
    let b1 = rank_below(sorted, part1, whole1) as int;
    let b2 = rank_below(sorted, part2, whole2) as int;
    let r1 = rank_rest(sorted, part1, whole1) as int;
    let r2 = rank_rest(sorted, part2, whole2) as int;
    let n1 = next_place(sorted, b1);
    let n2 = next_place(sorted, b2);
    let w1 = whole1 as int;
    let w2 = whole2 as int;
    assert(p1 * w2 <= p2 * w1) by (nonlinear_arith)
        requires
            part1 * w2 <= part2 * w1,
            p1 == part1 * last,
            p2 == part2 * last,
    ;
    assert(b1 <= b2) by (nonlinear_arith)
        requires
            p1 == w1 * b1 + r1,
            p2 == w2 * b2 + r2,
            0 <= r1 < w1,
            0 <= r2 < w2,
            p1 * w2 <= p2 * w1,
    ;
    lemma_weighted(sorted[b1] as int, sorted[n1] as int, r1, w1);
    lemma_weighted(sorted[b2] as int, sorted[n2] as int, r2, w2);
    let v1 = percentile_scaled(sorted, part1, whole1);
    let v2 = percentile_scaled(sorted, part2, whole2);
    if b1 == b2 {
        let low = sorted[b1] as int;
        let step = sorted[n1] - sorted[b1];
        assert(r1 * w2 <= r2 * w1) by (nonlinear_arith)
            requires
                p1 == w1 * b1 + r1,
                p2 == w2 * b1 + r2,
                p1 * w2 <= p2 * w1,
        ;
        assert(v1 * w2 <= v2 * w1) by (nonlinear_arith)
            requires
                v1 == w1 * low + r1 * step,
                v2 == w2 * low + r2 * step,
                r1 * w2 <= r2 * w1,
                step >= 0,
        ;
    } else {
        let x = sorted[n1] as int;
        let y = sorted[b2] as int;
        assert(n1 <= b2);
        assert(x <= y);
        assert(v1 * w2 <= v2 * w1) by (nonlinear_arith)
            requires
                v1 <= w1 * x,
                w2 * y <= v2,
                x <= y,
                w1 > 0,
                w2 > 0,
        ;
    }
}

} // verus!
