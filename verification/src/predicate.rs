use vstd::prelude::*;
use vstd::std_specs::iter::IteratorSpec;
use crate::either::{Either, lemma_payloads_of_cons, primaries, secondaries};
use crate::source::{front, measure_kept, rest, source_size_hint, sum_of_hints};

verus! {

/// Alternates between two sources as a decision function directs.
///
/// The function is asked about each item as it is handed out: `true` makes the
/// next item come from the primary source, `false` from the secondary. Its
/// answer never changes the item it was asked about. The first item always
/// comes from the primary source, which is why one item is drawn from it when
/// the alternator is made. From then on one item is held ready at any time, and
/// the sequence ends at the first step that finds none.
#[derive(Debug)]
pub struct CorIter<F, I, J> where
    F: FnMut(Either<&I::Item, &J::Item>) -> bool,
    I: Iterator,
    J: Iterator,
 {
    formula: F,
    primary: I,
    secondary: J,
    cur_i: Option<I::Item>,
    cur_j: Option<J::Item>,
}

impl<F, I, J> CorIter<F, I, J> where
    F: FnMut(Either<&I::Item, &J::Item>) -> bool,
    I: Iterator,
    J: Iterator,
 {
    /// At most one item is held ready, and the decision function accepts every
    /// item.
    pub closed spec fn wf(&self) -> bool {
        &&& !(self.cur_i is Some && self.cur_j is Some)
        &&& forall|e: Either<&I::Item, &J::Item>| call_requires(self.formula, (e,))
    }

    /// The decision function.
    pub closed spec fn formula(&self) -> F {
        self.formula
    }

    /// The primary source in its present state.
    pub closed spec fn primary(&self) -> I {
        self.primary
    }

    /// The secondary source in its present state.
    pub closed spec fn secondary(&self) -> J {
        self.secondary
    }

    /// The item held ready for the next step, if any.
    pub closed spec fn pending(&self) -> Option<Either<I::Item, J::Item>> {
        match (self.cur_i, self.cur_j) {
            (Some(i), _) => Some(Either::Primary(i)),
            (None, Some(j)) => Some(Either::Secondary(j)),
            (None, None) => None,
        }
    }

    /// Draws the first item from `primary` and holds it ready; `secondary` is
    /// left untouched.
    pub fn new(formula: F, mut primary: I, secondary: J) -> (it: Self)
        requires
            forall|e: Either<&I::Item, &J::Item>| call_requires(formula, (e,)),
        ensures
            it.wf(),
            it.formula() == formula,
            it.secondary() == secondary,
            !(it.pending() matches Some(Either::Secondary(_))),
            primary.obeys_prophetic_iter_laws() ==> {
                &&& it.primary().obeys_prophetic_iter_laws()
                &&& it.primary().remaining() == rest(primary.remaining())
                &&& it.pending() == Either::<I::Item, J::Item>::primary_from(
                    front(primary.remaining()),
                )
                &&& measure_kept(primary, it.primary(), it.pending() is Some)
            },
    {
        let cur_i = primary.next();
        let cur_j = None;
        CorIter { formula, primary, secondary, cur_i, cur_j }
    }

    /// Hands out the item held ready, after asking the decision function about
    /// it and drawing the item for the step after from the source it chose.
    ///
    /// With no item held ready the result is `None` and nothing changes.
    pub fn next(&mut self) -> (item: Option<Either<I::Item, J::Item>>)
        requires
            old(self).wf(),
        ensures
            final(self).wf(),
            item == old(self).pending(),
            final(self).formula() == old(self).formula(),
            item is None ==> {
                &&& final(self).pending() is None
                &&& final(self).primary() == old(self).primary()
                &&& final(self).secondary() == old(self).secondary()
            },
            item matches Some(e) ==> {
                ||| {
                    &&& call_ensures(old(self).formula(), (e.borrowed(),), true)
                    &&& final(self).secondary() == old(self).secondary()
                    &&& !(final(self).pending() matches Some(Either::Secondary(_)))
                    &&& old(self).primary().obeys_prophetic_iter_laws() ==> {
                        &&& final(self).primary().obeys_prophetic_iter_laws()
                        &&& final(self).primary().remaining() == rest(
                            old(self).primary().remaining(),
                        )
                        &&& final(self).pending() == Either::<I::Item, J::Item>::primary_from(
                            front(old(self).primary().remaining()),
                        )
                        &&& measure_kept(
                            old(self).primary(),
                            final(self).primary(),
                            final(self).pending() is Some,
                        )
                    }
                }
                ||| {
                    &&& call_ensures(old(self).formula(), (e.borrowed(),), false)
                    &&& final(self).primary() == old(self).primary()
                    &&& !(final(self).pending() matches Some(Either::Primary(_)))
                    &&& old(self).secondary().obeys_prophetic_iter_laws() ==> {
                        &&& final(self).secondary().obeys_prophetic_iter_laws()
                        &&& final(self).secondary().remaining() == rest(
                            old(self).secondary().remaining(),
                        )
                        &&& final(self).pending() == Either::<I::Item, J::Item>::secondary_from(
                            front(old(self).secondary().remaining()),
                        )
                        &&& measure_kept(
                            old(self).secondary(),
                            final(self).secondary(),
                            final(self).pending() is Some,
                        )
                    }
                }
            },
    {
        if let Some(i) = self.cur_i.take() {
            if (self.formula)(Either::Primary(&i)) {
                self.cur_i = self.primary.next();
            } else {
                self.cur_j = self.secondary.next();
            }
            Some(Either::Primary(i))
        } else if let Some(j) = self.cur_j.take() {
            if (self.formula)(Either::Secondary(&j)) {
                self.cur_i = self.primary.next();
            } else {
                self.cur_j = self.secondary.next();
            }
            Some(Either::Secondary(j))
        } else {
            None
        }
    }

    /// Runs the alternator to the end and returns what it handed out, in
    /// order. Both sources must end. Whatever function gives the answers of
    /// the decision function, the result is the output under it.
    pub fn collect(self) -> (items: Vec<Either<I::Item, J::Item>>)
        requires
            self.wf(),
            self.primary().obeys_prophetic_iter_laws(),
            self.secondary().obeys_prophetic_iter_laws(),
            self.primary().decrease() is Some,
            self.secondary().decrease() is Some,
        ensures
            forall|decide: spec_fn(Either<I::Item, J::Item>) -> bool|
                answers_as(self.formula(), decide) ==> items@ == #[trigger] predicate_output(
                    decide,
                    self.pending(),
                    self.primary().remaining(),
                    self.secondary().remaining(),
                ),
    {
        let mut it = self;
        let mut items: Vec<Either<I::Item, J::Item>> = Vec::new();
        loop
            invariant
                it.wf(),
                it.formula() == self.formula(),
                it.primary().obeys_prophetic_iter_laws(),
                it.secondary().obeys_prophetic_iter_laws(),
                it.primary().decrease() is Some,
                it.secondary().decrease() is Some,
                forall|decide: spec_fn(Either<I::Item, J::Item>) -> bool|
                    answers_as(self.formula(), decide) ==> #[trigger] predicate_output(
                        decide,
                        self.pending(),
                        self.primary().remaining(),
                        self.secondary().remaining(),
                    ) == items@ + predicate_output(
                        decide,
                        it.pending(),
                        it.primary().remaining(),
                        it.secondary().remaining(),
                    ),
            ensures
                it.pending() is None,
            decreases
                    if it.pending() is Some {
                        1 + it.primary().decrease()->0 + it.secondary().decrease()->0
                    } else {
                        0
                    },
        {
            let ghost before = items@;
            let ghost held = it;
            match it.next() {
                Some(item) => {
                    items.push(item);
                    assert forall|decide: spec_fn(Either<I::Item, J::Item>) -> bool|
                        answers_as(self.formula(), decide) implies #[trigger] predicate_output(
                        decide,
                        self.pending(),
                        self.primary().remaining(),
                        self.secondary().remaining(),
                    ) == items@ + predicate_output(
                        decide,
                        it.pending(),
                        it.primary().remaining(),
                        it.secondary().remaining(),
                    ) by {
                        let tail = predicate_output(
                            decide,
                            held.pending(),
                            held.primary().remaining(),
                            held.secondary().remaining(),
                        );
                        let next_tail = predicate_output(
                            decide,
                            it.pending(),
                            it.primary().remaining(),
                            it.secondary().remaining(),
                        );
                        assert(tail == seq![item] + next_tail);
                        assert(before + tail =~= items@ + next_tail);
                    }
                },
                None => {
                    break ;
                },
            }
        }
        proof {
            assert forall|decide: spec_fn(Either<I::Item, J::Item>) -> bool|
                answers_as(self.formula(), decide) implies items@ == #[trigger] predicate_output(
                decide,
                self.pending(),
                self.primary().remaining(),
                self.secondary().remaining(),
            ) by {
                assert(items@ + Seq::<Either<I::Item, J::Item>>::empty() =~= items@);
            }
        }
        items
    }

    /// An estimate of how many items are left: the sum of the two sources'
    /// own estimates, as `sum_of_hints` forms it. It is no better than theirs,
    /// and takes no account of the order in which the sources are drawn from.
    pub fn size_hint(&self) -> (hint: (usize, Option<usize>)) {
        sum_of_hints(source_size_hint(&self.primary), source_size_hint(&self.secondary))
    }
}

/// Whether `decide` gives the answer of the decision function `f` on every
/// item.
pub open spec fn answers_as<F, A, B>(f: F, decide: spec_fn(Either<A, B>) -> bool) -> bool where
    F: FnMut(Either<&A, &B>) -> bool,
 {
    forall|e: Either<A, B>, d: bool| #[trigger]
        call_ensures(f, (e.borrowed(),), d) ==> d == decide(e)
}

/// Everything a predicate alternator hands out, from the item it holds ready
/// and what its two sources still hold, under decisions `decide`.
pub open spec fn predicate_output<A, B>(
    decide: spec_fn(Either<A, B>) -> bool,
    pending: Option<Either<A, B>>,
    p: Seq<A>,
    s: Seq<B>,
) -> Seq<Either<A, B>>
    decreases
            p.len() + s.len() + if pending is Some {
                1nat
            } else {
                0nat
            },
{
    match pending {
        None => Seq::empty(),
        Some(e) => seq![e] + if decide(e) {
            predicate_output(decide, Either::primary_from(front(p)), rest(p), s)
        } else {
            predicate_output(decide, Either::secondary_from(front(s)), p, rest(s))
        },
    }
}

/// Everything a fresh predicate alternator hands out: it holds the first item
/// of the primary source ready.
pub open spec fn correlated<A, B>(decide: spec_fn(Either<A, B>) -> bool, p: Seq<A>, s: Seq<B>) -> Seq<
    Either<A, B>,
> {
    predicate_output(decide, Either::primary_from(front(p)), rest(p), s)
}

/// The items of a primary source, each tagged as such.
pub open spec fn all_primary<A, B>(p: Seq<A>) -> Seq<Either<A, B>> {
    Seq::new(p.len(), |i: int| Either::Primary(p[i]))
}

/// The items of a secondary source, each tagged as such.
pub open spec fn all_secondary<A, B>(s: Seq<B>) -> Seq<Either<A, B>> {
    Seq::new(s.len(), |i: int| Either::Secondary(s[i]))
}

/// Whatever the decisions and however short the primary source is against the
/// secondary, a primary source that is not empty gives the first item handed
/// out.
pub proof fn lemma_first_is_primary<A, B>(
    decide: spec_fn(Either<A, B>) -> bool,
    p: Seq<A>,
    s: Seq<B>,
)
    requires
        p.len() > 0,
    ensures
        correlated(decide, p, s).len() > 0,
        correlated(decide, p, s)[0] == Either::<A, B>::Primary(p[0]),
{
}

/// With an empty primary source nothing is handed out, whatever the secondary
/// source holds.
pub proof fn lemma_empty_primary_gives_nothing<A, B>(
    decide: spec_fn(Either<A, B>) -> bool,
    p: Seq<A>,
    s: Seq<B>,
)
    requires
        p.len() == 0,
    ensures
        correlated(decide, p, s) == Seq::<Either<A, B>>::empty(),
{
}

/// Under decisions that are always `true`, the primary source is handed out
/// whole and in order, and nothing of the secondary.
pub proof fn lemma_always_true_gives_primary<A, B>(
    decide: spec_fn(Either<A, B>) -> bool,
    p: Seq<A>,
    s: Seq<B>,
)
    requires
        forall|e: Either<A, B>| #[trigger] decide(e),
    ensures
        correlated(decide, p, s) == all_primary::<A, B>(p),
    decreases p.len(),
{
    if p.len() > 0 {
        lemma_always_true_gives_primary(decide, p.drop_first(), s);
        assert(correlated(decide, p, s) =~= all_primary::<A, B>(p));
    }
}

/// Under decisions that are always `false`, the first item of the primary
/// source is handed out, then the secondary source whole and in order, and no
/// second item of the primary.
pub proof fn lemma_always_false_gives_secondary<A, B>(
    decide: spec_fn(Either<A, B>) -> bool,
    p: Seq<A>,
    s: Seq<B>,
)
    requires
        forall|e: Either<A, B>| !#[trigger] decide(e),
        p.len() > 0,
    ensures
        correlated(decide, p, s) == seq![Either::<A, B>::Primary(p[0])] + all_secondary::<A, B>(s),
{
    lemma_false_from_secondary(decide, p.drop_first(), s);
    assert(correlated(decide, p, s) =~= seq![Either::<A, B>::Primary(p[0])] + all_secondary::<
        A,
        B,
    >(s));
}

/// Under decisions that are always `false`, once the secondary source is
/// being drawn from it is handed out whole, and nothing else.
proof fn lemma_false_from_secondary<A, B>(
    decide: spec_fn(Either<A, B>) -> bool,
    p: Seq<A>,
    s: Seq<B>,
)
    requires
        forall|e: Either<A, B>| !#[trigger] decide(e),
    ensures
        predicate_output(decide, Either::secondary_from(front(s)), p, rest(s)) == all_secondary::<
            A,
            B,
        >(s),
    decreases s.len(),
{
    if s.len() > 0 {
        lemma_false_from_secondary(decide, p, s.drop_first());
        assert(predicate_output(decide, Either::secondary_from(front(s)), p, rest(s))
            =~= all_secondary::<A, B>(s));
    }
}

/// The items that a source has yet to give to the output: those it still
/// holds, behind the item held ready where that one came from it.
pub open spec fn primary_to_come<A, B>(pending: Option<Either<A, B>>, p: Seq<A>) -> Seq<A> {
    match pending {
        Some(Either::Primary(x)) => seq![x] + p,
        _ => p,
    }
}

/// As `primary_to_come`, for the secondary source.
pub open spec fn secondary_to_come<A, B>(pending: Option<Either<A, B>>, s: Seq<B>) -> Seq<B> {
    match pending {
        Some(Either::Secondary(y)) => seq![y] + s,
        _ => s,
    }
}

/// Whatever the decisions, a predicate alternator hands out the items of each
/// source in that source's own order, from the first that is to come and
/// without a gap.
pub proof fn lemma_predicate_output_keeps_order<A, B>(
    decide: spec_fn(Either<A, B>) -> bool,
    pending: Option<Either<A, B>>,
    p: Seq<A>,
    s: Seq<B>,
)
    ensures
        primaries(predicate_output(decide, pending, p, s)).is_prefix_of(
            primary_to_come(pending, p),
        ),
        secondaries(predicate_output(decide, pending, p, s)).is_prefix_of(
            secondary_to_come(pending, s),
        ),
    decreases
            p.len() + s.len() + if pending is Some {
                1nat
            } else {
                0nat
            },
{
    if let Some(e) = pending {
        let (then_pending, then_p, then_s) = if decide(e) {
            (Either::<A, B>::primary_from(front(p)), rest(p), s)
        } else {
            (Either::<A, B>::secondary_from(front(s)), p, rest(s))
        };
        let tail = predicate_output(decide, then_pending, then_p, then_s);
        lemma_predicate_output_keeps_order(decide, then_pending, then_p, then_s);
        lemma_payloads_of_cons(e, tail);
        assert(primary_to_come(then_pending, then_p) =~= p);
        assert(secondary_to_come(then_pending, then_s) =~= s);
        match e {
            Either::Primary(x) => {
                assert((seq![x] + primaries(tail)).is_prefix_of(seq![x] + p)) by {
                    assert forall|i: int| 0 < i <= primaries(tail).len() implies (seq![x]
                        + primaries(tail))[i] == (seq![x] + p)[i] by {
                        assert(primaries(tail)[i - 1] == p.subrange(
                            0,
                            primaries(tail).len() as int,
                        )[i - 1]);
                    }
                }
            },
            Either::Secondary(y) => {
                assert((seq![y] + secondaries(tail)).is_prefix_of(seq![y] + s)) by {
                    assert forall|i: int| 0 < i <= secondaries(tail).len() implies (seq![y]
                        + secondaries(tail))[i] == (seq![y] + s)[i] by {
                        assert(secondaries(tail)[i - 1] == s.subrange(
                            0,
                            secondaries(tail).len() as int,
                        )[i - 1]);
                    }
                }
            },
        }
    }
}

/// Whatever the decisions, a fresh predicate alternator hands out the items
/// of each source in that source's own order, from its first item on and
/// without a gap.
pub proof fn lemma_correlated_keeps_order<A, B>(
    decide: spec_fn(Either<A, B>) -> bool,
    p: Seq<A>,
    s: Seq<B>,
)
    ensures
        primaries(correlated(decide, p, s)).is_prefix_of(p),
        secondaries(correlated(decide, p, s)).is_prefix_of(s),
{
    lemma_predicate_output_keeps_order(decide, Either::<A, B>::primary_from(front(p)), rest(p), s);
    assert(primary_to_come(Either::<A, B>::primary_from(front(p)), rest(p)) =~= p);
}

} // verus!
