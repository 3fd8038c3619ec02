//! A verified merge sort.

use vstd::multiset::*;
use vstd::prelude::*;
use vstd::seq_lib::*;
use vstd::slice::slice_subrange;

verus! {

/// Values with a total preorder.
pub trait Ranked: Sized {
    /// The order.
    spec fn rank_le(self, other: Self) -> bool;

    /// The order is total.
    proof fn rank_total(a: Self, b: Self)
        ensures
            a.rank_le(b) || b.rank_le(a),
    ;

    /// The order is transitive.
    proof fn rank_transitive(a: Self, b: Self, c: Self)
        requires
            a.rank_le(b),
            b.rank_le(c),
        ensures
            a.rank_le(c),
    ;

    /// Compares two values.
    fn le(&self, other: &Self) -> (r: bool)
        ensures
            r == (*self).rank_le(*other),
    ;

    /// Copies a value.
    fn dup(&self) -> (r: Self)
        ensures
            r == *self,
    ;
}

impl Ranked for u64 {
    open spec fn rank_le(self, other: Self) -> bool {
        self <= other
    }

    proof fn rank_total(a: Self, b: Self) {
    }

    proof fn rank_transitive(a: Self, b: Self, c: Self) {
    }

    fn le(&self, other: &Self) -> (r: bool) {
        *self <= *other
    }

    fn dup(&self) -> (r: Self) {
        *self
    }
}

impl Ranked for (u64, usize) {
    open spec fn rank_le(self, other: Self) -> bool {
        self.0 < other.0 || (self.0 == other.0 && self.1 <= other.1)
    }

    proof fn rank_total(a: Self, b: Self) {
    }

    proof fn rank_transitive(a: Self, b: Self, c: Self) {
    }

    fn le(&self, other: &Self) -> (r: bool) {
        self.0 < other.0 || (self.0 == other.0 && self.1 <= other.1)
    }

    fn dup(&self) -> (r: Self) {
        (self.0, self.1)
    }
}

/// Whether a sequence is in ascending order.
pub open spec fn ascending<T: Ranked>(s: Seq<T>) -> bool {
    forall|i: int, j: int| 0 <= i <= j < s.len() ==> (#[trigger] s[i]).rank_le(#[trigger] s[j])
}

/// Taking one more element adds it to the multiset.
proof fn lemma_take_one<T>(s: Seq<T>, i: int)
    requires
        0 <= i < s.len(),
    ensures
        s.take(i + 1).to_multiset() == s.take(i).to_multiset().insert(s[i]),
{
    assert(s.take(i + 1) =~= s.take(i).push(s[i]));
    to_multiset_build(s.take(i), s[i]);
}

/// The multiset of a concatenation.
pub proof fn lemma_concat_multiset<T>(a: Seq<T>, b: Seq<T>)
    ensures
        (a + b).to_multiset() == a.to_multiset().add(b.to_multiset()),
{
    lemma_multiset_commutative(a, b);
}

fn merge<T: Ranked>(a: &Vec<T>, b: &Vec<T>) -> (r: Vec<T>)
    requires
        ascending(a@),
        ascending(b@),
    ensures
        ascending(r@),
        r@.to_multiset() == a@.to_multiset().add(b@.to_multiset()),
{
    let mut out: Vec<T> = Vec::new();
    let mut i: usize = 0;
    let mut j: usize = 0;
    proof {
        assert(a@.take(0) =~= Seq::<T>::empty());
        assert(b@.take(0) =~= Seq::<T>::empty());
        to_multiset_len(Seq::<T>::empty());
        lemma_multiset_empty_len(Seq::<T>::empty().to_multiset());
        assert(out@.to_multiset() =~= a@.take(0).to_multiset().add(b@.take(0).to_multiset()));
    }
    while i < a.len() || j < b.len()
        invariant
            i <= a@.len(),
            j <= b@.len(),
            ascending(a@),
            ascending(b@),
            ascending(out@),
            out@.to_multiset() == a@.take(i as int).to_multiset().add(
                b@.take(j as int).to_multiset(),
            ),
            forall|k: int, m: int|
                0 <= k < out@.len() && i <= m < a@.len() ==> (#[trigger] out@[k]).rank_le(
                    #[trigger] a@[m],
                ),
            forall|k: int, m: int|
                0 <= k < out@.len() && j <= m < b@.len() ==> (#[trigger] out@[k]).rank_le(
                    #[trigger] b@[m],
                ),
        decreases a@.len() - i + b@.len() - j,
    {
        let ghost was = out@;
        let first = if i == a.len() {
            false
        } else if j == b.len() {
            true
        } else {
            a[i].le(&b[j])
        };
        if first {
            proof {
                lemma_take_one(a@, i as int);
                to_multiset_build(out@, a@[i as int]);
                if j < b@.len() {
                    T::rank_total(a@[i as int], b@[j as int]);
                }
            }
            out.push(a[i].dup());
            proof {
                assert(out@.to_multiset() =~= a@.take(i + 1).to_multiset().add(
                    b@.take(j as int).to_multiset(),
                ));
                T::rank_total(a@[i as int], a@[i as int]);
                assert forall|k: int, m: int|
                    0 <= k < out@.len() && j <= m < b@.len() implies (#[trigger] out@[k]).rank_le(
                    #[trigger] b@[m],
                ) by {
                    if k == was.len() {
                        T::rank_transitive(a@[i as int], b@[j as int], b@[m]);
                    }
                }
            }
            i += 1;
        } else {
            proof {
                lemma_take_one(b@, j as int);
                to_multiset_build(out@, b@[j as int]);
                if i < a@.len() {
                    T::rank_total(a@[i as int], b@[j as int]);
                }
            }
            out.push(b[j].dup());
            proof {
                assert(out@.to_multiset() =~= a@.take(i as int).to_multiset().add(
                    b@.take(j + 1).to_multiset(),
                ));
                T::rank_total(b@[j as int], b@[j as int]);
                assert forall|k: int, m: int|
                    0 <= k < out@.len() && i <= m < a@.len() implies (#[trigger] out@[k]).rank_le(
                    #[trigger] a@[m],
                ) by {
                    if k == was.len() {
                        T::rank_transitive(b@[j as int], a@[i as int], a@[m]);
                    }
                }
            }
            j += 1;
        }
    }
    assert(a@.take(i as int) =~= a@);
    assert(b@.take(j as int) =~= b@);
    out
}

/// The same values in ascending order.
pub fn sorted<T: Ranked>(v: &[T]) -> (r: Vec<T>)
    ensures
        ascending(r@),
        r@.to_multiset() == v@.to_multiset(),
        r@.len() == v@.len(),
    decreases v@.len(),
{
    if v.len() <= 1 {
        let mut out: Vec<T> = Vec::new();
        if v.len() == 1 {
            out.push(v[0].dup());
            proof {
                T::rank_total(v@[0], v@[0]);
            }
        }
        assert(out@ =~= v@);
        return out;
    }
    let mid: usize = v.len() / 2;
    let left = slice_subrange(v, 0, mid);
    let right = slice_subrange(v, mid, v.len());
    let a = sorted(left);
    let b = sorted(right);
    let r = merge(&a, &b);
    proof {
        assert(v@ =~= left@ + right@);
        lemma_concat_multiset(left@, right@);
        to_multiset_len(r@);
        to_multiset_len(v@);
    }
    r
}

/// Numbers are ranked by size, and pairs by the first number and then by the
/// second.
pub proof fn law_ranks(a: u64, b: u64, i: usize, j: usize)
    ensures
        a.rank_le(b) <==> a <= b,
        (a, i).rank_le((b, j)) <==> a < b || a == b && i <= j,
{
}

/// In ascending order nothing stands behind something larger.
pub proof fn law_ascending(s: Seq<u64>, i: int, j: int)
    requires
        ascending(s),
        0 <= i <= j < s.len(),
    ensures
        s[i] <= s[j],
{
    assert(s[i].rank_le(s[j]));
}

}
