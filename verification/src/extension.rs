use vstd::prelude::*;
use vstd::std_specs::iter::IteratorSpec;
use crate::either::Either;
use crate::linear::LinearCorIter;
use crate::predicate::CorIter;
use crate::schedule::Schedule;
use crate::source::{front, measure_kept, rest};

verus! {

/// Gives every iterator the two ways of alternating with another one.
pub trait Correlate: Iterator + Sized {
    /// A linear alternator over `self` as the primary source and `other` as the
    /// secondary, with coefficients `a` and `b`. Neither source is touched.
    fn linear_correlate<J>(self, other: J, a: isize, b: isize) -> (it: LinearCorIter<
        Self,
        J,
    >) where J: Iterator
        ensures
            it.schedule() == Schedule::start(a as int, b as int),
            it.primary() == self,
            it.secondary() == other,
    {
        LinearCorIter::new(self, other, a, b)
    }

    /// A predicate alternator over `self` as the primary source and `other` as
    /// the secondary, directed by `function`, which must accept every item.
    /// The first item of `self` is drawn and held ready.
    fn correlate_with<J, F>(self, other: J, function: F) -> (it: CorIter<F, Self, J>) where
        J: Iterator,
        F: FnMut(Either<&Self::Item, &J::Item>) -> bool,

        requires
            forall|e: Either<&Self::Item, &J::Item>| call_requires(function, (e,)),
        ensures
            it.wf(),
            it.formula() == function,
            it.secondary() == other,
            !(it.pending() matches Some(Either::Secondary(_))),
            self.obeys_prophetic_iter_laws() ==> {
                &&& it.primary().obeys_prophetic_iter_laws()
                &&& it.primary().remaining() == rest(self.remaining())
                &&& it.pending() == Either::<Self::Item, J::Item>::primary_from(
                    front(self.remaining()),
                )
                &&& measure_kept(self, it.primary(), it.pending() is Some)
            },
    {
        CorIter::new(function, self, other)
    }
}

impl<T> Correlate for T where T: Iterator {
}

} // verus!
