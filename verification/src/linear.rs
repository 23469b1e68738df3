use vstd::prelude::*;
use vstd::std_specs::iter::IteratorSpec;
use crate::either::Either;
use crate::schedule::{Draw, Schedule, linear_output};
use crate::source::{front, measure_kept, rest, source_size_hint, sum_of_hints};

verus! {

/// `num_traits::identities::zero` at `isize`: the additive identity, which the
/// crate defines for every primitive integer as the literal `0`.
#[verifier::external_body]
fn zero() -> (r: isize)
    ensures
        r == 0,
{
    num_traits::identities::zero()
}

/// `num_traits::identities::one` at `isize`: the multiplicative identity, which
/// the crate defines for every primitive integer as the literal `1`.
#[verifier::external_body]
fn one() -> (r: isize)
    ensures
        r == 1,
{
    num_traits::identities::one()
}

/// Alternates between two sources on a fixed periodic schedule.
///
/// The sign of a coefficient names a source, positive for the primary and
/// negative for the secondary, and its magnitude is a run length. The first
/// `|b|` items come from the source that `b` names. After that the source that
/// `a` names gives `|a|` items, the other source gives one, and so on. With
/// `a == 0` nothing follows the leading run.
///
/// Nothing is drawn from either source before the first call of `next`, and
/// each call draws at most one item. A call that finds the source it asks
/// exhausted yields `None`, and so ends the sequence, though the other source
/// may hold more.
#[derive(Debug)]
pub struct LinearCorIter<I: Iterator, J: Iterator> {
    a: isize,
    b: isize,
    c: isize,
    primary: I,
    secondary: J,
}

impl<I: Iterator, J: Iterator> LinearCorIter<I, J> {
    /// The counters that decide which source the next step draws from.
    pub closed spec fn schedule(&self) -> Schedule {
        Schedule { a: self.a as int, b: self.b as int, c: self.c as int }
    }

    /// The primary source in its present state.
    pub closed spec fn primary(&self) -> I {
        self.primary
    }

    /// The secondary source in its present state.
    pub closed spec fn secondary(&self) -> J {
        self.secondary
    }

    /// Takes both sources untouched and starts the schedule of `a` and `b`.
    pub fn new(primary: I, secondary: J, a: isize, b: isize) -> (it: Self)
        ensures
            it.schedule() == Schedule::start(a as int, b as int),
            it.primary() == primary,
            it.secondary() == secondary,
    {
        let c = if b == zero() { a } else { b };
        LinearCorIter { a, b, c, primary, secondary }
    }

    /// Advances the schedule by one step and draws from the source it names.
    ///
    /// The result is `None` when the schedule names no source, or when the
    /// source it names is exhausted; the schedule has advanced all the same.
    pub fn next(&mut self) -> (item: Option<Either<I::Item, J::Item>>)
        ensures
            final(self).schedule() == old(self).schedule().advance(),
            old(self).schedule().draw() != Draw::Primary ==> final(self).primary() == old(
                self,
            ).primary(),
            old(self).schedule().draw() != Draw::Secondary ==> final(self).secondary() == old(
                self,
            ).secondary(),
            item matches Some(Either::Primary(_)) ==> old(self).schedule().draw() == Draw::Primary,
            item matches Some(Either::Secondary(_)) ==> old(self).schedule().draw()
                == Draw::Secondary,
            old(self).schedule().draw() == Draw::Primary && old(
                self,
            ).primary().obeys_prophetic_iter_laws() ==> {
                &&& final(self).primary().obeys_prophetic_iter_laws()
                &&& final(self).primary().remaining() == rest(old(self).primary().remaining())
                &&& item == Either::<I::Item, J::Item>::primary_from(
                    front(old(self).primary().remaining()),
                )
                &&& measure_kept(old(self).primary(), final(self).primary(), item is Some)
            },
            old(self).schedule().draw() == Draw::Secondary && old(
                self,
            ).secondary().obeys_prophetic_iter_laws() ==> {
                &&& final(self).secondary().obeys_prophetic_iter_laws()
                &&& final(self).secondary().remaining() == rest(old(self).secondary().remaining())
                &&& item == Either::<I::Item, J::Item>::secondary_from(
                    front(old(self).secondary().remaining()),
                )
                &&& measure_kept(old(self).secondary(), final(self).secondary(), item is Some)
            },
        decreases (if old(self).schedule().b == 0 { 0nat } else { 1nat }),
    {
        if self.c > zero() {
            self.c = self.c - one();
            self.pull_primary()
        } else if self.c < zero() {
            self.c = self.c + one();
            self.pull_secondary()
        } else {
            self.c = self.a;
            if self.b == zero() {
                if self.a > zero() {
                    self.pull_secondary()
                } else if self.a < zero() {
                    self.pull_primary()
                } else {
                    None
                }
            } else {
                self.b = zero();
                self.next()
            }
        }
    }

    /// Runs the alternator to the first step that yields nothing and returns
    /// what it handed out, in order. Both sources must end.
    pub fn collect(self) -> (items: Vec<Either<I::Item, J::Item>>)
        requires
            self.primary().obeys_prophetic_iter_laws(),
            self.secondary().obeys_prophetic_iter_laws(),
            self.primary().decrease() is Some,
            self.secondary().decrease() is Some,
        ensures
            items@ == linear_output(
                self.schedule(),
                self.primary().remaining(),
                self.secondary().remaining(),
            ),
    {
        let mut it = self;
        let ghost whole = linear_output(
            self.schedule(),
            self.primary().remaining(),
            self.secondary().remaining(),
        );
        let mut items: Vec<Either<I::Item, J::Item>> = Vec::new();
        loop
            invariant_except_break
                it.primary().obeys_prophetic_iter_laws(),
                it.secondary().obeys_prophetic_iter_laws(),
                it.primary().decrease() is Some,
                it.secondary().decrease() is Some,
                whole == items@ + linear_output(
                    it.schedule(),
                    it.primary().remaining(),
                    it.secondary().remaining(),
                ),
            ensures
                whole == items@,
            decreases it.primary().decrease()->0 + it.secondary().decrease()->0,
        {
            let ghost before = items@;
            let ghost tail = linear_output(
                it.schedule(),
                it.primary().remaining(),
                it.secondary().remaining(),
            );
            match it.next() {
                Some(item) => {
                    items.push(item);
                    assert(before + tail =~= items@ + tail.drop_first());
                },
                None => {
                    break ;
                },
            }
        }
        items
    }

    /// An estimate of how many items are left: the sum of the two sources'
    /// own estimates, as `sum_of_hints` forms it. It is no better than theirs,
    /// and takes no account of the order in which the sources are drawn from.
    pub fn size_hint(&self) -> (hint: (usize, Option<usize>)) {
        sum_of_hints(source_size_hint(&self.primary), source_size_hint(&self.secondary))
    }

    fn pull_primary(&mut self) -> (item: Option<Either<I::Item, J::Item>>)
        ensures
            !(item matches Some(Either::Secondary(_))),
            final(self).schedule() == old(self).schedule(),
            final(self).secondary() == old(self).secondary(),
            old(self).primary().obeys_prophetic_iter_laws() ==> {
                &&& final(self).primary().obeys_prophetic_iter_laws()
                &&& final(self).primary().remaining() == rest(old(self).primary().remaining())
                &&& item == Either::<I::Item, J::Item>::primary_from(
                    front(old(self).primary().remaining()),
                )
                &&& measure_kept(old(self).primary(), final(self).primary(), item is Some)
            },
    {
        match self.primary.next() {
            Some(i) => Some(Either::Primary(i)),
            None => None,
        }
    }

    fn pull_secondary(&mut self) -> (item: Option<Either<I::Item, J::Item>>)
        ensures
            !(item matches Some(Either::Primary(_))),
            final(self).schedule() == old(self).schedule(),
            final(self).primary() == old(self).primary(),
            old(self).secondary().obeys_prophetic_iter_laws() ==> {
                &&& final(self).secondary().obeys_prophetic_iter_laws()
                &&& final(self).secondary().remaining() == rest(old(self).secondary().remaining())
                &&& item == Either::<I::Item, J::Item>::secondary_from(
                    front(old(self).secondary().remaining()),
                )
                &&& measure_kept(old(self).secondary(), final(self).secondary(), item is Some)
            },
    {
        match self.secondary.next() {
            Some(j) => Some(Either::Secondary(j)),
            None => None,
        }
    }
}

} // verus!
