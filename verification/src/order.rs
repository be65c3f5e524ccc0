//! Sorting.

use vstd::prelude::*;
use vstd::seq_lib::lemma_multiset_commutative;

verus! {

/// A type whose values can be put in order.
pub trait Ranked: Sized + Copy {
    /// Whether the value can be compared at all.
    spec fn comparable(self) -> bool;

    /// Whether `self` may stand before `other`.
    spec fn ranks(self, other: Self) -> bool;

    /// Of two values one may stand before the other.
    proof fn lemma_total(a: Self, b: Self)
        requires
            a.comparable(),
            b.comparable(),
        ensures
            a.ranks(b) || b.ranks(a),
    ;

    /// The order is transitive.
    proof fn lemma_transitive(a: Self, b: Self, c: Self)
        requires
            a.comparable(),
            b.comparable(),
            c.comparable(),
            a.ranks(b),
            b.ranks(c),
        ensures
            a.ranks(c),
    ;

    /// Whether `self` may stand before `other`.
    fn before(&self, other: &Self) -> (r: bool)
        requires
            self.comparable(),
            other.comparable(),
        ensures
            r == self.ranks(*other),
    ;
}

impl Ranked for u64 {
    open spec fn comparable(self) -> bool {
        true
    }

    open spec fn ranks(self, other: u64) -> bool {
        self <= other
    }

    proof fn lemma_total(a: u64, b: u64) {
    }

    proof fn lemma_transitive(a: u64, b: u64, c: u64) {
    }

    fn before(&self, other: &u64) -> (r: bool) {
        *self <= *other
    }
}

/// Whether all values can be compared.
pub open spec fn all_comparable<T: Ranked>(s: Seq<T>) -> bool {
    forall|i: int| 0 <= i < s.len() ==> (#[trigger] s[i]).comparable()
}

/// Whether every value may stand before all values behind it.
pub open spec fn ordered<T: Ranked>(s: Seq<T>) -> bool {
    forall|i: int, j: int| 0 <= i < j < s.len() ==> (#[trigger] s[i]).ranks(#[trigger] s[j])
}

/// The values of two ordered runs, in order.
fn merge<T: Ranked>(a: &Vec<T>, b: &Vec<T>) -> (out: Vec<T>)
    requires
        all_comparable(a@),
        all_comparable(b@),
        ordered(a@),
        ordered(b@),
    ensures
        all_comparable(out@),
        ordered(out@),
        out@.to_multiset() == a@.to_multiset().add(b@.to_multiset()),
{
    broadcast use vstd::seq_lib::group_to_multiset_ensures;

    let mut out: Vec<T> = Vec::new();
    let mut i: usize = 0;
    let mut j: usize = 0;
    assert(a@.take(0) =~= Seq::empty());
    assert(b@.take(0) =~= Seq::empty());
    assert(out@.to_multiset() =~= a@.take(0).to_multiset().add(b@.take(0).to_multiset()));
    while i < a.len() || j < b.len()
        invariant
            all_comparable(a@),
            all_comparable(b@),
            ordered(a@),
            ordered(b@),
            i <= a@.len(),
            j <= b@.len(),
            all_comparable(out@),
            ordered(out@),
            forall|k: int, m: int|
                0 <= k < out@.len() && i <= m < a@.len() ==> (#[trigger] out@[k]).ranks(
                    #[trigger] a@[m],
                ),
            forall|k: int, m: int|
                0 <= k < out@.len() && j <= m < b@.len() ==> (#[trigger] out@[k]).ranks(
                    #[trigger] b@[m],
                ),
            out@.to_multiset() == a@.take(i as int).to_multiset().add(
                b@.take(j as int).to_multiset(),
            ),
        decreases a@.len() - i + b@.len() - j,
    {
        let from_a: bool = if i == a.len() {
            false
        } else if j == b.len() {
            true
        } else {
            a[i].before(&b[j])
        };
        if from_a {
            let x = a[i];
            proof {
                broadcast use vstd::seq_lib::group_to_multiset_ensures;

                if j < b@.len() {
                    assert forall|m: int| j <= m < b@.len() implies x.ranks(#[trigger] b@[m]) by {
                        if m > j {
                            T::lemma_transitive(x, b@[j as int], b@[m]);
                        }
                    }
                }
                assert(a@.take(i + 1) =~= a@.take(i as int).push(x));
            }
            out.push(x);
            i = i + 1;
            assert(out@.to_multiset() =~= a@.take(i as int).to_multiset().add(
                b@.take(j as int).to_multiset(),
            ));
        } else {
            let x = b[j];
            proof {
                broadcast use vstd::seq_lib::group_to_multiset_ensures;

                if i < a@.len() {
                    T::lemma_total(a@[i as int], x);
                    assert forall|m: int| i <= m < a@.len() implies x.ranks(#[trigger] a@[m]) by {
                        if m > i {
                            T::lemma_transitive(x, a@[i as int], a@[m]);
                        }
                    }
                }
                assert(b@.take(j + 1) =~= b@.take(j as int).push(x));
            }
            out.push(x);
            j = j + 1;
            assert(out@.to_multiset() =~= a@.take(i as int).to_multiset().add(
                b@.take(j as int).to_multiset(),
            ));
        }
    }
    assert(a@.take(i as int) =~= a@);
    assert(b@.take(j as int) =~= b@);
    out
}

/// The same values in order.
pub fn sort<T: Ranked>(v: Vec<T>) -> (out: Vec<T>)
    requires
        all_comparable(v@),
    ensures
        ordered(out@),
        out@.to_multiset() == v@.to_multiset(),
    decreases v@.len(),
{
    let mut left = v;
    let n: usize = left.len();
    if n < 2 {
        return left;
    }
    let right = left.split_off(n / 2);
    proof {
        assert(v@ =~= left@ + right@);
        lemma_multiset_commutative(left@, right@);
    }
    let a = sort(left);
    let b = sort(right);
    proof {
        lemma_same_comparable(left@, a@);
        lemma_same_comparable(right@, b@);
    }
    merge(&a, &b)
}

/// Values that can be compared can be so in any arrangement.
proof fn lemma_same_comparable<T: Ranked>(s: Seq<T>, t: Seq<T>)
    requires
        all_comparable(s),
        s.to_multiset() == t.to_multiset(),
    ensures
        all_comparable(t),
{
    broadcast use vstd::seq_lib::group_to_multiset_ensures;

    assert forall|i: int| 0 <= i < t.len() implies (#[trigger] t[i]).comparable() by {
        assert(t.contains(t[i]));
        assert(t.to_multiset().count(t[i]) > 0);
        assert(s.contains(t[i]));
    }
}

} // verus!
