use vstd::prelude::*;

verus! {

/// An item drawn from one of two sources, tagged by the source it came from.
#[derive(Debug)]
pub enum Either<T, U> {
    /// An item of the primary source.
    Primary(T),
    /// An item of the secondary source.
    Secondary(U),
}

impl<T, U> Either<T, U> {
    /// The same item with its payload borrowed, as a decision function sees it.
    pub open spec fn borrowed(&self) -> Either<&T, &U> {
        match self {
            Either::Primary(t) => Either::Primary(t),
            Either::Secondary(u) => Either::Secondary(u),
        }
    }

    /// The same payload with the roles of the two sources exchanged.
    pub open spec fn swapped(self) -> Either<U, T> {
        match self {
            Either::Primary(t) => Either::Secondary(t),
            Either::Secondary(u) => Either::Primary(u),
        }
    }

    /// An item of the primary source as an alternator hands it out.
    pub open spec fn primary_from(item: Option<T>) -> Option<Either<T, U>> {
        match item {
            Some(t) => Some(Either::Primary(t)),
            None => None,
        }
    }

    /// An item of the secondary source as an alternator hands it out.
    pub open spec fn secondary_from(item: Option<U>) -> Option<Either<T, U>> {
        match item {
            Some(u) => Some(Either::Secondary(u)),
            None => None,
        }
    }

    /// Whether this item came from the primary source.
    pub fn is_primary(&self) -> (r: bool)
        ensures
            r == (self is Primary),
    {
        match self {
            Either::Primary(_) => true,
            _ => false,
        }
    }

    /// Whether this item came from the secondary source.
    pub fn is_secondary(&self) -> (r: bool)
        ensures
            r == (self is Secondary),
    {
        match self {
            Either::Secondary(_) => true,
            _ => false,
        }
    }
}

impl<T> core::ops::Deref for Either<T, T> {
    type Target = T;

    fn deref(&self) -> (r: &T)
        ensures
            *r == (match *self {
                Either::Primary(v) => v,
                Either::Secondary(v) => v,
            }),
    {
        match self {
            Either::Primary(v) => v,
            Either::Secondary(v) => v,
        }
    }
}

/// The payloads of the primary items of a sequence, in their order.
pub open spec fn primaries<T, U>(items: Seq<Either<T, U>>) -> Seq<T>
    decreases items.len(),
{
    if items.len() == 0 {
        Seq::empty()
    } else {
        match items[0] {
            Either::Primary(t) => seq![t] + primaries(items.drop_first()),
            Either::Secondary(_) => primaries(items.drop_first()),
        }
    }
}

/// The payloads of the secondary items of a sequence, in their order.
pub open spec fn secondaries<T, U>(items: Seq<Either<T, U>>) -> Seq<U>
    decreases items.len(),
{
    if items.len() == 0 {
        Seq::empty()
    } else {
        match items[0] {
            Either::Primary(_) => secondaries(items.drop_first()),
            Either::Secondary(u) => seq![u] + secondaries(items.drop_first()),
        }
    }
}

/// Putting an item in front of a sequence puts its payload in front of the
/// payloads of its own source, and leaves those of the other source as they
/// are.
pub proof fn lemma_payloads_of_cons<T, U>(first: Either<T, U>, tail: Seq<Either<T, U>>)
    ensures
        primaries(seq![first] + tail) == match first {
            Either::Primary(t) => seq![t] + primaries(tail),
            Either::Secondary(_) => primaries(tail),
        },
        secondaries(seq![first] + tail) == match first {
            Either::Primary(_) => secondaries(tail),
            Either::Secondary(u) => seq![u] + secondaries(tail),
        },
{
    assert((seq![first] + tail).drop_first() =~= tail);
}

} // verus!
