//! Putting values in order.

use vstd::prelude::*;

use crate::text::base;

verus! {

broadcast use base::group_views;

/// A value that has a rank in an order.
pub trait Ranked: View + Sized {
    /// The rank of a value: values are ordered by the first number, and by the second
    /// where the first is equal.
    spec fn rank(v: Self::V) -> (int, int);

    /// The rank of this value.
    fn rank_of(&self) -> (r: (i128, i128))
        ensures
            (r.0 as int, r.1 as int) == Self::rank(self@),
    ;
}

/// Whether a rank is no greater than another.
pub open spec fn at_most(a: (int, int), b: (int, int)) -> bool {
    a.0 < b.0 || a.0 == b.0 && a.1 <= b.1
}

/// The first place at or behind `k` with a greater rank; the length if there is
/// none.
pub open spec fn above<T: Ranked>(s: Seq<T::V>, x: T::V, k: int) -> int
    decreases s.len() - k,
{
    if k < 0 || k >= s.len() || !at_most(T::rank(s[k]), T::rank(x)) {
        k
    } else {
        above::<T>(s, x, k + 1)
    }
}

/// The first `k` values in ascending order of rank; those of equal rank stay in the
/// order in which they came.
pub open spec fn sorted<T: Ranked>(s: Seq<T::V>, k: int) -> Seq<T::V>
    decreases k,
{
    if k <= 0 || k > s.len() {
        Seq::empty()
    } else {
        let rest = sorted::<T>(s, k - 1);
        rest.insert(above::<T>(rest, s[k - 1], 0), s[k - 1])
    }
}

/// All of the values in ascending order of rank.
pub open spec fn in_order<T: Ranked>(s: Seq<T::V>) -> Seq<T::V> {
    sorted::<T>(s, s.len() as int)
}

fn place<T: Ranked>(v: &Vec<T>, x: &T) -> (r: usize)
    ensures
        r <= v@.len(),
        r == above::<T>(base::views(v@), x@, 0),
{
    let n: (i128, i128) = x.rank_of();
    let ghost all = base::views(v@);
    let mut k: usize = 0;
    while k < v.len()
        invariant
            k <= v@.len(),
            (n.0 as int, n.1 as int) == T::rank(x@),
            all == base::views(v@),
            above::<T>(all, x@, 0) == above::<T>(all, x@, k as int),
        decreases v@.len() - k,
    {
        assert(all[k as int] == v@[k as int]@);
        let m: (i128, i128) = v[k].rank_of();
        if m.0 > n.0 || m.0 == n.0 && m.1 > n.1 {
            return k;
        }
        k = k + 1;
    }
    k
}

/// Puts values in ascending order of rank; those of equal rank stay in the order in
/// which they came.
pub fn sort<T: Ranked>(v: Vec<T>) -> (r: Vec<T>)
    ensures
        base::views(r@) == in_order::<T>(base::views(v@)),
{
    let ghost all = base::views(v@);
    let mut rest = v;
    let mut out: Vec<T> = Vec::new();
    let ghost mut k: int = 0;
    while rest.len() > 0
        invariant
            0 <= k <= all.len(),
            all == base::views(v@),
            base::views(rest@) == all.skip(k),
            base::views(out@) == sorted::<T>(all, k),
        decreases rest@.len(),
    {
        let ghost before = rest@;
        proof {
            assert(base::views(before).len() == before.len());
            assert(all.skip(k).len() == all.len() - k);
            assert(base::views(before)[0] == all.skip(k)[0]);
        }
        let x = rest.remove(0);
        proof {
            assert forall|j: int| 0 <= j < rest@.len() implies (#[trigger] rest@[j])@ == all.skip(
                k + 1,
            )[j] by {
                assert(rest@[j] == before[j + 1]);
                assert(base::views(before)[j + 1] == all.skip(k)[j + 1]);
            }
            assert(base::views(rest@) =~= all.skip(k + 1));
        }
        let at = place(&out, &x);
        let ghost sorted_before = base::views(out@);
        let ghost new = x@;
        out.insert(at, x);
        proof {
            assert(base::views(out@) =~= sorted_before.insert(at as int, new));
            k = k + 1;
        }
    }
    out
}

/// Whether the ranks ascend.
pub open spec fn ascends<T: Ranked>(s: Seq<T::V>) -> bool {
    forall|i: int, j: int|
        0 <= i <= j < s.len() ==> at_most(T::rank(#[trigger] s[i]), T::rank(#[trigger] s[j]))
}

proof fn lemma_above<T: Ranked>(s: Seq<T::V>, x: T::V, k: int)
    requires
        0 <= k <= s.len(),
    ensures
        k <= above::<T>(s, x, k) <= s.len(),
        forall|i: int|
            k <= i < above::<T>(s, x, k) ==> at_most(T::rank(#[trigger] s[i]), T::rank(x)),
        above::<T>(s, x, k) < s.len() ==> !at_most(T::rank(s[above::<T>(s, x, k)]), T::rank(x)),
    decreases s.len() - k,
{
    if k < s.len() && at_most(T::rank(s[k]), T::rank(x)) {
        lemma_above::<T>(s, x, k + 1);
    }
}

proof fn lemma_sorted<T: Ranked>(s: Seq<T::V>, k: int)
    requires
        0 <= k <= s.len(),
    ensures
        ascends::<T>(sorted::<T>(s, k)),
        sorted::<T>(s, k).to_multiset() == s.take(k).to_multiset(),
    decreases k,
{
    broadcast use vstd::seq_lib::group_to_multiset_ensures;

    if k == 0 {
        assert(s.take(0) =~= Seq::<T::V>::empty());
    } else {
        lemma_sorted::<T>(s, k - 1);
        let rest = sorted::<T>(s, k - 1);
        let x = s[k - 1];
        let at = above::<T>(rest, x, 0);
        lemma_above::<T>(rest, x, 0);
        let all = rest.insert(at, x);
        assert forall|i: int, j: int| 0 <= i <= j < all.len() implies at_most(
            T::rank(#[trigger] all[i]),
            T::rank(#[trigger] all[j]),
        ) by {
            let before_i = if i < at {
                i
            } else {
                i - 1
            };
            let before_j = if j < at {
                j
            } else {
                j - 1
            };
            if i == at && j > at {
                assert(at_most(T::rank(rest[at]), T::rank(rest[before_j])));
            } else if j == at && i < at {
                assert(all[i] == rest[i]);
            } else if i != at && j != at {
                assert(all[i] == rest[before_i] && all[j] == rest[before_j]);
            }
        }
        assert(s.take(k) =~= s.take(k - 1).push(x));
    }
}

/// Putting values in order loses none, adds none, and leaves the ranks ascending.
pub proof fn order_keeps_the_values<T: Ranked>(s: Seq<T::V>)
    ensures
        ascends::<T>(in_order::<T>(s)),
        in_order::<T>(s).to_multiset() == s.to_multiset(),
{
    lemma_sorted::<T>(s, s.len() as int);
    assert(s.take(s.len() as int) =~= s);
}

} // verus!
