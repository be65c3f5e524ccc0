//! Exact numbers.

use vstd::arithmetic::div_mod::{lemma_fundamental_div_mod, lemma_mod_bound};
use vstd::prelude::*;

verus! {

/// Nanoseconds in a millisecond.
pub const NANOS_PER_MS: u64 = 1_000_000;

/// Nanoseconds in a second.
pub const NANOS_PER_S: u64 = 1_000_000_000;

/// A quotient of two whole numbers.
#[derive(Clone, Copy, Debug, PartialEq, Eq)]
pub struct Fraction {
    pub num: u128,
    pub den: u128,
}

impl Fraction {
    /// Whether the quotient exists.
    pub open spec fn wf(self) -> bool {
        self.den > 0
    }

    /// Whether `self` is smaller than `other`, by cross multiplication.
    pub open spec fn lt(self, other: Fraction) -> bool {
        self.num * other.den < other.num * self.den
    }

    /// Whether `self` is smaller than `other`.
    pub fn less(&self, other: &Fraction) -> (r: bool)
        requires
            0 < self.den <= u64::MAX,
            0 < other.den <= u64::MAX,
        ensures
            r == self.lt(*other),
    {
        let q1: u128 = self.num / self.den;
        let q2: u128 = other.num / other.den;
        let r1: u128 = self.num % self.den;
        let r2: u128 = other.num % other.den;
        proof {
            lemma_less_by_parts(
                self.num as int,
                self.den as int,
                other.num as int,
                other.den as int,
            );
        }
        if q1 != q2 {
            q1 < q2
        } else {
            proof {
                lemma_product_fits(r1 as int, other.den as int);
                lemma_product_fits(r2 as int, self.den as int);
            }
            r1 * other.den < r2 * self.den
        }
    }
}

/// A product of two numbers of 64 bits fits in 128.
proof fn lemma_product_fits(a: int, b: int)
    requires
        0 <= a <= u64::MAX,
        0 <= b <= u64::MAX,
    ensures
        0 <= a * b <= u64::MAX * u64::MAX,
{
    assert(0 <= a * b <= u64::MAX * u64::MAX) by (nonlinear_arith)
        requires
            0 <= a <= u64::MAX,
            0 <= b <= u64::MAX,
    ;
}

/// Two quotients compare as their whole parts do, and where those are equal as
/// what is left over.
proof fn lemma_less_by_parts(a: int, b: int, c: int, d: int)
    requires
        0 <= a,
        0 < b,
        0 <= c,
        0 < d,
    ensures
        a / b < c / d ==> a * d < c * b,
        a / b > c / d ==> !(a * d < c * b),
        a / b == c / d ==> (a * d < c * b <==> (a % b) * d < (c % d) * b),
        0 <= a % b < b,
        0 <= c % d < d,
{
    lemma_fundamental_div_mod(a, b);
    lemma_fundamental_div_mod(c, d);
    lemma_mod_bound(a, b);
    lemma_mod_bound(c, d);
    let q1 = a / b;
    let q2 = c / d;
    let r1 = a % b;
    let r2 = c % d;
    assert(a * d == q1 * (b * d) + r1 * d) by (nonlinear_arith)
        requires
            a == b * q1 + r1,
    ;
    assert(c * b == q2 * (b * d) + r2 * b) by (nonlinear_arith)
        requires
            c == d * q2 + r2,
    ;
    assert(0 <= r1 * d < b * d) by (nonlinear_arith)
        requires
            0 <= r1 < b,
            0 < d,
    ;
    assert(0 <= r2 * b < b * d) by (nonlinear_arith)
        requires
            0 <= r2 < d,
            0 < b,
    ;
    if q1 < q2 {
        assert(q1 * (b * d) + b * d <= q2 * (b * d)) by (nonlinear_arith)
            requires
                q1 + 1 <= q2,
                0 < b,
                0 < d,
        ;
    }
    if q1 > q2 {
        assert(q2 * (b * d) + b * d <= q1 * (b * d)) by (nonlinear_arith)
            requires
                q2 + 1 <= q1,
                0 < b,
                0 < d,
        ;
    }
}

/// Of three quotients, where the second is no smaller than the first and the
/// third no smaller than the second, the third is no smaller than the first,
/// and larger where one of the steps is.
pub proof fn lemma_fractions_transitive(x: Fraction, y: Fraction, z: Fraction)
    requires
        x.wf(),
        y.wf(),
        z.wf(),
        !y.lt(x),
        !z.lt(y),
    ensures
        !z.lt(x),
        x.lt(y) || y.lt(z) ==> x.lt(z),
{
    let a = x.num as int;
    let b = x.den as int;
    let c = y.num as int;
    let d = y.den as int;
    let e = z.num as int;
    let f = z.den as int;
    assert((a * d) * f == (a * f) * d && (c * b) * f == (c * f) * b && (e * d) * b == (e * b) * d)
        by (nonlinear_arith);
    assert((a * d) * f <= (c * b) * f && (c * f) * b <= (e * d) * b) by (nonlinear_arith)
        requires
            a * d <= c * b,
            c * f <= e * d,
            0 < b,
            0 < f,
    ;
    assert(a * f <= e * b) by (nonlinear_arith)
        requires
            (a * f) * d <= (e * b) * d,
            0 < d,
    ;
    if x.lt(y) {
        assert((a * d) * f < (c * b) * f) by (nonlinear_arith)
            requires
                a * d < c * b,
                0 < f,
        ;
    }
    if y.lt(z) {
        assert((c * f) * b < (e * d) * b) by (nonlinear_arith)
            requires
                c * f < e * d,
                0 < b,
        ;
    }
    if x.lt(y) || y.lt(z) {
        assert(a * f < e * b) by (nonlinear_arith)
            requires
                (a * f) * d < (e * b) * d,
                0 < d,
        ;
    }
}

/// The number `offset + gain * num / den`.
#[derive(Clone, Copy, Debug, PartialEq, Eq)]
pub struct Number {
    pub offset: i64,
    pub gain: i64,
    pub num: i128,
    pub den: u128,
}

impl Number {
    /// The number exists, and its parts are small enough to be written out.
    pub open spec fn wf(self) -> bool {
        &&& 0 < self.den <= i128::MAX
        &&& -0x1_0000_0000_0000_0000 * self.den <= self.num <= 0x1_0000_0000_0000_0000 * self.den
        &&& -2048 <= self.gain <= 2048
    }

    /// The number times its denominator.
    pub open spec fn scaled(self) -> int {
        self.offset * self.den + self.gain * self.num
    }
}

/// The number `offset + gain * num / den`.
pub open spec fn number(offset: int, gain: int, num: int, den: int) -> Number {
    Number { offset: offset as i64, gain: gain as i64, num: num as i128, den: den as u128 }
}

/// `nanos` nanoseconds in milliseconds.
pub open spec fn ms_number(nanos: int) -> Number {
    number(0, 1, nanos, NANOS_PER_MS as int)
}

/// `nanos` nanoseconds in milliseconds.
pub fn ms(nanos: u64) -> (n: Number)
    ensures
        n == ms_number(nanos as int),
        n.wf(),
{
    Number { offset: 0, gain: 1, num: nanos as i128, den: NANOS_PER_MS as u128 }
}

} // verus!
