use vstd::prelude::*;
use vstd::std_specs::iter::IteratorSpec;

verus! {

/// The first item of a sequence, if it has one.
pub open spec fn front<A>(s: Seq<A>) -> Option<A> {
    if s.len() > 0 {
        Some(s[0])
    } else {
        None
    }
}

/// What is left of a sequence once its first item, if any, is taken.
pub open spec fn rest<A>(s: Seq<A>) -> Seq<A> {
    if s.len() > 0 {
        s.drop_first()
    } else {
        s
    }
}

/// How the termination measure of a source fares over one draw: a source
/// that has one keeps one, and a draw that gives an item lowers it.
pub open spec fn measure_kept<I: Iterator>(before: I, after: I, gave: bool) -> bool {
    &&& after.decrease() is Some <==> before.decrease() is Some
    &&& gave && after.decrease() is Some ==> after.decrease()->0 < before.decrease()->0
}

/// `Iterator::size_hint` of a source. The standard library leaves the bounds
/// to each iterator's own implementation and warns that they may be wrong, so
/// nothing is claimed of them here.
#[verifier::external_body]
pub(crate) fn source_size_hint<I: Iterator>(source: &I) -> (hint: (usize, Option<usize>)) {
    source.size_hint()
}

/// The estimate for two sources together: the lower bounds add up, and stay at
/// the largest `usize` where the sum is beyond it; the upper bounds add up
/// where both are known and the sum is a `usize`, and are unknown otherwise.
pub open spec fn hint_sum(p: (usize, Option<usize>), s: (usize, Option<usize>)) -> (
    usize,
    Option<usize>,
) {
    (
        if p.0 + s.0 <= usize::MAX {
            (p.0 + s.0) as usize
        } else {
            usize::MAX
        },
        match (p.1, s.1) {
            (Some(x), Some(y)) => if x + y <= usize::MAX {
                Some((x + y) as usize)
            } else {
                None
            },
            _ => None,
        },
    )
}

/// Combines the estimates of two sources into the estimate of an alternator
/// over them.
pub fn sum_of_hints(p: (usize, Option<usize>), s: (usize, Option<usize>)) -> (hint: (
    usize,
    Option<usize>,
))
    ensures
        hint == hint_sum(p, s),
{
    let low = if p.0 <= usize::MAX - s.0 {
        p.0 + s.0
    } else {
        usize::MAX
    };
    let high = match (p.1, s.1) {
        (Some(x), Some(y)) => if x <= usize::MAX - y {
            Some(x + y)
        } else {
            None
        },
        _ => None,
    };
    (low, high)
}

} // verus!
