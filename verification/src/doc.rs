//! Texts that are put together from parts, among them numbers with a fixed
//! count of digits behind the point.

use vstd::arithmetic::div_mod::lemma_fundamental_div_mod_converse;
use vstd::prelude::*;

use crate::number::Number;
use crate::text::{decimal, last_digits, push_last_digits, push_wide_decimal, texts};

verus! {

// ---------------------------------------------------------------------------
// Numbers
// ---------------------------------------------------------------------------

/// Ten to the power of `p`.
pub open spec fn pow10(p: nat) -> nat
    decreases p,
{
    if p == 0 {
        1
    } else {
        10 * pow10((p - 1) as nat)
    }
}

/// The whole number nearest to `num / den`; of two that are equally near, the
/// even one.
pub open spec fn nearest(num: nat, den: nat) -> nat {
    let below = num / den;
    let rest = num % den;
    if 2 * rest > den || (2 * rest == den && below % 2 == 1) {
        below + 1
    } else {
        below
    }
}

/// Rounding moves a number by half a unit at most.
pub proof fn law_rounding_is_near(num: nat, den: nat)
    requires
        0 < den,
    ensures
        2 * num - den <= 2 * (nearest(num, den) * den) <= 2 * num + den,
{
    let below = num / den;
    let rest = num % den;
    vstd::arithmetic::div_mod::lemma_fundamental_div_mod(num as int, den as int);
    vstd::arithmetic::div_mod::lemma_mod_bound(num as int, den as int);
    assert(den * below == below * den) by (nonlinear_arith);
    assert((below + 1) * den == below * den + den) by (nonlinear_arith);
}

/// `m` with a point before its last `precision` digits.
pub open spec fn with_point(m: nat, precision: nat) -> Seq<char> {
    if precision == 0 {
        decimal(m)
    } else {
        decimal(m / pow10(precision)) + "."@ + last_digits(m, precision)
    }
}

/// The size of `x`, whatever its sign.
pub open spec fn size(x: int) -> nat {
    if x < 0 {
        (-x) as nat
    } else {
        x as nat
    }
}

/// The number, rounded to `precision` digits behind the point.
#[verifier::opaque]
pub open spec fn figure(n: Number, precision: nat) -> Seq<char> {
    let m = nearest(size(n.scaled()) * pow10(precision), n.den as nat);
    if n.scaled() < 0 {
        "-"@ + with_point(m, precision)
    } else {
        with_point(m, precision)
    }
}

/// Ten to the power of `p`.
fn power_of_ten(p: usize) -> (r: u64)
    requires
        p <= 15,
    ensures
        r == pow10(p as nat),
        1 <= r <= 1_000_000_000_000_000,
{
    let mut r: u64 = 1;
    assert(pow10(15) == 1_000_000_000_000_000) by {
        reveal_with_fuel(pow10, 16);
    }
    for i in 0..p
        invariant
            p <= 15,
            r == pow10(i as nat),
            1 <= r,
            r * pow10((15 - i) as nat) == 1_000_000_000_000_000,
    {
        assert(pow10((15 - i) as nat) == 10 * pow10((15 - i - 1) as nat));
        proof {
            lemma_pow10_positive((15 - i - 1) as nat);
            let rest = pow10((15 - i - 1) as nat) as int;
            let now = r as int;
            assert((10 * now) * rest == now * (10 * rest)) by (nonlinear_arith);
            assert(10 * now <= (10 * now) * rest) by (nonlinear_arith)
                requires
                    now >= 1,
                    rest >= 1,
            ;
        }
        r = 10 * r;
    }
    proof {
        lemma_pow10_positive((15 - p) as nat);
        let rest = pow10((15 - p) as nat) as int;
        let now = r as int;
        assert(now <= now * rest) by (nonlinear_arith)
            requires
                now >= 1,
                rest >= 1,
        ;
    }
    r
}

/// `k * rest / den`, rounded down, and what is left over.
fn scale_down(k: u64, rest: u128, den: u128) -> (r: (u128, u128))
    requires
        rest < den <= i128::MAX,
    ensures
        k * rest == r.0 * den + r.1,
        r.0 <= k,
        r.1 < den,
    decreases k,
{
    if k == 0 {
        return (0, 0);
    }
    let (q, left) = scale_down(k / 2, rest, den);
    let ghost half = k as int / 2;
    assert(2 * (half * rest) == (2 * half) * rest) by (nonlinear_arith);
    assert(2 * (q * den) == (2 * q) * den) by (nonlinear_arith);
    let mut q: u128 = 2 * q;
    let mut left: u128 = 2 * left;
    assert((2 * half) * rest == q * den + left);
    if left >= den {
        assert((q + 1) * den == q * den + den) by (nonlinear_arith);
        left = left - den;
        q = q + 1;
    }
    if k % 2 == 1 {
        assert(k * rest == (2 * half) * rest + rest) by (nonlinear_arith)
            requires
                k == 2 * half + 1,
        ;
        left = left + rest;
        if left >= den {
            assert((q + 1) * den == q * den + den) by (nonlinear_arith);
            left = left - den;
            q = q + 1;
        }
    }
    assert(q <= k) by (nonlinear_arith)
        requires
            k * rest == q * den + left,
            rest < den,
            0 <= left,
            k > 0,
    ;
    (q, left)
}

/// A number as a whole number and what is left over, in units of `1 / den`.
fn split_number(n: &Number) -> (r: (i128, u128))
    requires
        n.wf(),
    ensures
        n.scaled() == r.0 * n.den + r.1,
        r.1 < n.den,
        -0x1000_0000_0000_0000_0000 <= r.0 <= 0x1000_0000_0000_0000_0000,
{
    let den: u128 = n.den;
    let num: u128 = if n.num < 0 { (-(n.num + 1)) as u128 + 1 } else { n.num as u128 };
    let gain: u64 = if n.gain < 0 { (-n.gain) as u64 } else { n.gain as u64 };
    let minus: bool = (n.num < 0) != (n.gain < 0);
    let whole: u128 = num / den;
    let rest: u128 = num % den;
    proof {
        vstd::arithmetic::div_mod::lemma_fundamental_div_mod(num as int, den as int);
        let w = whole as int;
        let d = den as int;
        assert(w <= 0x1_0000_0000_0000_0000) by (nonlinear_arith)
            requires
                d > 0,
                d * w <= 0x1_0000_0000_0000_0000 * d,
        ;
    }
    let (q, left) = scale_down(gain, rest, den);
    assert(gain * whole <= 2048 * 0x1_0000_0000_0000_0000) by (nonlinear_arith)
        requires
            0 <= gain <= 2048,
            0 <= whole <= 0x1_0000_0000_0000_0000,
    ;
    let up: u128 = gain as u128 * whole + q;
    proof {
        let g = gain as int;
        let w = whole as int;
        let d = den as int;
        let u = up as int;
        assert(g * num == u * d + left) by (nonlinear_arith)
            requires
                num == d * w + rest,
                g * rest == q * d + left,
                u == g * w + q,
        ;
        let a = n.gain as int;
        let b = n.num as int;
        assert(a * b == (if minus {
            -(g * num)
        } else {
            g * num
        })) by (nonlinear_arith)
            requires
                g == (if a < 0 {
                    -a
                } else {
                    a
                }),
                num == (if b < 0 {
                    -b
                } else {
                    b
                }),
                minus == ((b < 0) != (a < 0)),
        ;
        let o = n.offset as int;
        assert((o + u) * d == o * d + u * d) by (nonlinear_arith);
        assert((o - u) * d == o * d - u * d) by (nonlinear_arith);
        assert((o - u - 1) * d == o * d - u * d - d) by (nonlinear_arith);
    }
    if !minus {
        (n.offset as i128 + up as i128, left)
    } else if left == 0 {
        (n.offset as i128 - up as i128, 0)
    } else {
        (n.offset as i128 - up as i128 - 1, den - left)
    }
}

/// The size of a number, as a whole number and what is left over.
fn split_size(n: &Number) -> (r: (bool, u128, u128))
    requires
        n.wf(),
    ensures
        r.0 == (n.scaled() < 0),
        size(n.scaled()) == r.1 * n.den + r.2,
        r.1 <= 0x1000_0000_0000_0000_0000,
        r.2 < n.den,
{
    let (whole, left) = split_number(n);
    let den: u128 = n.den;
    proof {
        let w = whole as int;
        let d = den as int;
        assert(w < 0 ==> w * d <= -d) by (nonlinear_arith)
            requires
                d > 0,
        ;
        assert(w >= 0 ==> w * d >= 0) by (nonlinear_arith)
            requires
                d > 0,
        ;
        assert((-w) * d == -(w * d)) by (nonlinear_arith);
        assert((-w - 1) * d == -(w * d) - d) by (nonlinear_arith);
    }
    if whole >= 0 {
        (false, whole as u128, left)
    } else if left == 0 {
        (true, (-whole) as u128, 0)
    } else {
        (true, (-whole - 1) as u128, den - left)
    }
}

/// The number, rounded to `precision` digits behind the point.
pub fn write_number(n: &Number, precision: usize) -> (s: String)
    requires
        n.wf(),
        precision <= 15,
    ensures
        s@ == figure(*n, precision as nat),
{
    reveal(figure);
    let (minus, whole, left) = split_size(n);
    let den: u128 = n.den;
    let unit: u64 = power_of_ten(precision);
    let (tail, rest) = scale_down(unit, left, den);
    assert(whole * unit <= 0x1000_0000_0000_0000_0000 * 1_000_000_000_000_000) by (nonlinear_arith)
        requires
            0 <= whole <= 0x1000_0000_0000_0000_0000,
            0 <= unit <= 1_000_000_000_000_000,
    ;
    let below: u128 = whole * unit as u128 + tail;
    let ghost all = size(n.scaled()) * pow10(precision as nat);
    proof {
        let w = whole as int;
        let d = den as int;
        let u = unit as int;
        let m = below as int;
        let sz = size(n.scaled()) as int;
        assert(sz * u == m * d + rest) by (nonlinear_arith)
            requires
                sz == w * d + left,
                u * left == tail * d + rest,
                m == w * u + tail,
        ;
        lemma_fundamental_div_mod_converse(all as int, d, m, rest as int);
    }
    let m: u128 = if 2 * rest > den || (2 * rest == den && below % 2 == 1) {
        below + 1
    } else {
        below
    };
    assert(m == nearest(all, den as nat));
    let mut s = if minus { "-".to_owned() } else { String::new() };
    let ghost sign = s@;
    if precision == 0 {
        push_wide_decimal(&mut s, m);
    } else {
        push_wide_decimal(&mut s, m / unit as u128);
        s.append(".");
        push_last_digits(&mut s, m, precision);
    }
    assert(s@ =~= sign + with_point(m as nat, precision as nat));
    assert(!minus ==> sign + with_point(m as nat, precision as nat) =~= with_point(
        m as nat,
        precision as nat,
    ));
    s
}

// ---------------------------------------------------------------------------
// Texts
// ---------------------------------------------------------------------------

/// The parts one behind the other.
pub open spec fn joined(parts: Seq<Seq<char>>) -> Seq<char>
    decreases parts.len(),
{
    if parts.len() == 0 {
        Seq::empty()
    } else {
        joined(parts.drop_last()) + parts.last()
    }
}

/// A text in parts.
#[derive(Debug, PartialEq, Eq)]
pub struct Doc {
    pub parts: Vec<String>,
}

impl View for Doc {
    type V = Seq<Seq<char>>;

    open spec fn view(&self) -> Seq<Seq<char>> {
        texts(self.parts@)
    }
}

impl Doc {
    /// The empty text.
    pub fn new() -> (d: Doc)
        ensures
            d@ == Seq::<Seq<char>>::empty(),
    {
        let d = Doc { parts: Vec::new() };
        assert(d@ =~= Seq::<Seq<char>>::empty());
        d
    }

    /// Adds plain characters at the end.
    pub fn text(&mut self, s: &str)
        ensures
            final(self)@ == old(self)@.push(s@),
    {
        self.parts.push(s.to_owned());
        assert(self@ =~= old(self)@.push(s@));
    }

    /// Adds a number with `precision` digits behind the point at the end.
    pub fn figure(&mut self, value: Number, precision: usize)
        requires
            value.wf(),
            precision <= 15,
        ensures
            final(self)@ == old(self)@.push(figure(value, precision as nat)),
    {
        self.parts.push(write_number(&value, precision));
        assert(self@ =~= old(self)@.push(figure(value, precision as nat)));
    }

    /// Adds another text at the end.
    pub fn append(&mut self, other: Doc)
        ensures
            final(self)@ == old(self)@ + other@,
    {
        let mut rest = other.parts;
        self.parts.append(&mut rest);
        assert(self@ =~= old(self)@ + other@);
    }

    /// The whole text.
    pub fn join(&self) -> (s: String)
        ensures
            s@ == joined(self@),
    {
        let mut s = String::new();
        let n: usize = self.parts.len();
        assert(self@.take(0) =~= Seq::empty());
        for i in 0..n
            invariant
                n == self.parts@.len(),
                s@ == joined(self@.take(i as int)),
        {
            assert(self@.take(i + 1).drop_last() =~= self@.take(i as int));
            s.append(self.parts[i].as_str());
        }
        assert(self@.take(n as int) =~= self@);
        s
    }
}

/// A power of ten is positive.
proof fn lemma_pow10_positive(p: nat)
    ensures
        pow10(p) >= 1,
    decreases p,
{
    if p > 0 {
        lemma_pow10_positive((p - 1) as nat);
    }
}

} // verus!
