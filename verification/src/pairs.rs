//! Pair windows over slices, taken from `itertools`.
use itertools::Itertools;
use vstd::prelude::*;

verus! {

/// Each item with its successor: `(s[0], s[1]), (s[1], s[2]), ...`; nothing
/// for fewer than two items.
pub open spec fn adjacent<T>(s: Seq<T>) -> Seq<(T, T)> {
    Seq::new(
        if s.len() == 0 {
            0
        } else {
            (s.len() - 1) as nat
        },
        |i: int| (s[i], s[i + 1]),
    )
}

/// Each item with its successor, the last one with the first:
/// `(s[0], s[1]), ..., (s[n - 1], s[0])`. A single item is paired with
/// itself.
pub open spec fn cyclic<T>(s: Seq<T>) -> Seq<(T, T)> {
    Seq::new(s.len(), |i: int| (s[i], s[(i + 1) % (s.len() as int)]))
}

/// `Itertools::tuple_windows` on a slice of counts, collected as pairs.
/// Trusted: the adaptor yields every contiguous window of two items, in
/// order, and nothing when the slice has fewer than two.
#[verifier::external_body]
pub(crate) fn adjacent_pairs(counts: &[usize]) -> (pairs: Vec<(usize, usize)>)
    ensures
        pairs@ == adjacent(counts@),
{
    counts.iter().copied().tuple_windows().collect()
}

/// `Itertools::circular_tuple_windows` on a slice of points, collected as
/// pairs. Trusted: the adaptor yields as many windows as the slice has
/// items, the i-th holding item i and the item after it, wrapping to the
/// first at the end.
#[verifier::external_body]
pub(crate) fn cyclic_pairs(points: &[(i64, i64)]) -> (pairs: Vec<((i64, i64), (i64, i64))>)
    ensures
        pairs@ == cyclic(points@),
{
    points.iter().copied().circular_tuple_windows().collect()
}

} // verus!
