//! What it means to sort a sequence by one of the two comparators, and why
//! sorting a sorted sequence changes nothing.
//!
//! The library does not sort: its comparators are handed to a sort.  A
//! stable sort moves an element in front of another only when the
//! comparator puts it strictly before.  This module states that as a
//! relation between the sequence before and after, and proves that a
//! sequence that is already in order is the only outcome of sorting it.

use std::cmp::Ordering;
use vstd::prelude::*;
use crate::point::Coords;
use crate::point::models;
use crate::point::Point;
use crate::polar::polar_order;
use crate::quadrant::precedes;

verus! {

/// No element of `s` comes strictly before an earlier one.
pub open spec fn sorted_by<T>(before: spec_fn(T, T) -> bool, s: Seq<T>) -> bool {
    forall|i: int, j: int| 0 <= i < j < s.len() ==> !before(#[trigger] s[j], #[trigger] s[i])
}

/// The sequence `s` cut in two at `cut`, the second part put first.
pub open spec fn second_part_first<T>(s: Seq<T>, cut: int) -> Seq<T> {
    s.subrange(cut, s.len() as int) + s.subrange(0, cut)
}

/// `p` lists each index below its length exactly once.
pub open spec fn is_permutation(p: Seq<int>) -> bool {
    &&& forall|k: int| 0 <= k < p.len() ==> 0 <= #[trigger] p[k] < p.len()
    &&& forall|k: int, l: int| 0 <= k < l < p.len() ==> #[trigger] p[k] != #[trigger] p[l]
}

/// `t` is what a stable sort by `before` makes of `s`, and `p` tells where
/// each element came from: `t[k]` is `s[p[k]]`.  The result is in order, and
/// two elements neither of which comes strictly before the other stay in
/// the order they had.
pub open spec fn is_stable_sort<T>(
    before: spec_fn(T, T) -> bool,
    s: Seq<T>,
    t: Seq<T>,
    p: Seq<int>,
) -> bool {
    &&& p.len() == s.len()
    &&& t.len() == s.len()
    &&& is_permutation(p)
    &&& forall|k: int| 0 <= k < t.len() ==> #[trigger] t[k] == s[p[k]]
    &&& sorted_by(before, t)
    &&& forall|k: int, l: int|
        0 <= k < l < t.len() && !before(t[k], t[l]) && !before(t[l], t[k]) ==> #[trigger] p[k]
            < #[trigger] p[l]
}

/// A strictly increasing list of indices below its length is `0, 1, 2, ...`.
proof fn lemma_increasing_is_identity(p: Seq<int>, k: int)
    requires
        forall|i: int| 0 <= i < p.len() ==> 0 <= #[trigger] p[i] < p.len(),
        forall|i: int, j: int| 0 <= i < j < p.len() ==> #[trigger] p[i] < #[trigger] p[j],
        0 <= k < p.len(),
    ensures
        p[k] == k,
{
    lemma_increasing_from_below(p, k);
    lemma_increasing_from_above(p, k);
}

proof fn lemma_increasing_from_below(p: Seq<int>, k: int)
    requires
        forall|i: int| 0 <= i < p.len() ==> 0 <= #[trigger] p[i] < p.len(),
        forall|i: int, j: int| 0 <= i < j < p.len() ==> #[trigger] p[i] < #[trigger] p[j],
        0 <= k < p.len(),
    ensures
        p[k] >= k,
    decreases k,
{
    if k > 0 {
        lemma_increasing_from_below(p, k - 1);
        assert(p[k - 1] < p[k]);
    }
}

proof fn lemma_increasing_from_above(p: Seq<int>, k: int)
    requires
        forall|i: int| 0 <= i < p.len() ==> 0 <= #[trigger] p[i] < p.len(),
        forall|i: int, j: int| 0 <= i < j < p.len() ==> #[trigger] p[i] < #[trigger] p[j],
        0 <= k < p.len(),
    ensures
        p[k] <= k,
    decreases p.len() - k,
{
    if k < p.len() - 1 {
        lemma_increasing_from_above(p, k + 1);
        assert(p[k] < p[k + 1]);
    }
}

/// Sorting a sequence that is in order leaves every element in its place.
pub proof fn lemma_sorting_sorted<T>(
    before: spec_fn(T, T) -> bool,
    s: Seq<T>,
    t: Seq<T>,
    p: Seq<int>,
)
    requires
        sorted_by(before, s),
        is_stable_sort(before, s, t, p),
    ensures
        t == s,
        forall|k: int| 0 <= k < p.len() ==> #[trigger] p[k] == k,
{
    assert forall|k: int, l: int| 0 <= k < l < p.len() implies #[trigger] p[k] < #[trigger] p[l]
    by {
        if p[k] > p[l] {
            assert(!before(s[p[k]], s[p[l]]));
            assert(!before(t[l], t[k]));
        }
    }
    assert forall|k: int| 0 <= k < p.len() implies #[trigger] p[k] == k by {
        lemma_increasing_is_identity(p, k);
    }
    assert(t =~= s);
}

/// The points of `s` are in the order of the sweep around `center`: none
/// comes before an earlier one.
pub open spec fn sweep_sorted(center: Coords, s: Seq<Coords>) -> bool {
    sorted_by(|a: Coords, b: Coords| precedes(center, a, b), s)
}

/// The points of `s` are in the order of their polar angles around
/// `center`, largest first: none has a larger angle than an earlier one.
pub open spec fn polar_sorted(center: Coords, s: Seq<Coords>) -> bool {
    sorted_by(|a: Coords, b: Coords| polar_order(center, a, b) == Ordering::Less, s)
}

/// Sorting by the sweep around one centre twice gives what sorting once
/// gives: a sequence in sweep order is left as it is.
pub proof fn lemma_sweep_sort_is_idempotent(
    center: Point,
    s: Seq<Point>,
    t: Seq<Point>,
    p: Seq<int>,
)
    requires
        sweep_sorted(center@, models(s)),
        is_stable_sort(|a: Point, b: Point| precedes(center@, a@, b@), s, t, p),
    ensures
        t == s,
{
    let before = |a: Point, b: Point| precedes(center@, a@, b@);
    assert forall|i: int, j: int| 0 <= i < j < s.len() implies !before(
        #[trigger] s[j],
        #[trigger] s[i],
    ) by {
        assert(models(s)[j] == s[j]@ && models(s)[i] == s[i]@);
    }
    lemma_sorting_sorted(before, s, t, p);
}

/// Sorting by polar angle around one centre twice gives what sorting once
/// gives: a sequence in polar order is left as it is.
pub proof fn lemma_polar_sort_is_idempotent(
    center: Point,
    s: Seq<Point>,
    t: Seq<Point>,
    p: Seq<int>,
)
    requires
        polar_sorted(center@, models(s)),
        is_stable_sort(
            |a: Point, b: Point| polar_order(center@, a@, b@) == Ordering::Less,
            s,
            t,
            p,
        ),
    ensures
        t == s,
{
    let before = |a: Point, b: Point| polar_order(center@, a@, b@) == Ordering::Less;
    assert forall|i: int, j: int| 0 <= i < j < s.len() implies !before(
        #[trigger] s[j],
        #[trigger] s[i],
    ) by {
        assert(models(s)[j] == s[j]@ && models(s)[i] == s[i]@);
    }
    lemma_sorting_sorted(before, s, t, p);
}

} // verus!
