use vstd::prelude::*;
use crate::either::Either;

verus! {

/// What one step of an alternator draws from.
pub enum Draw {
    /// One item of the primary source.
    Primary,
    /// One item of the secondary source.
    Secondary,
    /// No source: the sequence has ended.
    Nothing,
}

impl Draw {
    /// The other source; no source has no opposite.
    pub open spec fn opposite(self) -> Draw {
        match self {
            Draw::Primary => Draw::Secondary,
            Draw::Secondary => Draw::Primary,
            Draw::Nothing => Draw::Nothing,
        }
    }
}

/// The source that a coefficient names by its sign.
pub open spec fn source_of(x: int) -> Draw {
    if x > 0 {
        Draw::Primary
    } else if x < 0 {
        Draw::Secondary
    } else {
        Draw::Nothing
    }
}

/// The run length that a coefficient gives.
pub open spec fn magnitude(x: int) -> int {
    if x < 0 {
        -x
    } else {
        x
    }
}

/// The counters of a linear alternator: the period `a`, the leading run `b`
/// that is spent at the first period boundary, and the live counter `c`.
pub struct Schedule {
    pub a: int,
    pub b: int,
    pub c: int,
}

impl Schedule {
    /// The schedule of a fresh alternator: the counter starts at the leading
    /// run, or at the period where there is no leading run.
    pub open spec fn start(a: int, b: int) -> Schedule {
        Schedule { a, b, c: if b == 0 { a } else { b } }
    }

    /// The schedule with every counter negated: the same run lengths, with the
    /// roles of the two sources exchanged.
    pub open spec fn mirrored(self) -> Schedule {
        Schedule { a: -self.a, b: -self.b, c: -self.c }
    }

    /// The source that the next step draws from.
    ///
    /// A counter away from zero is inside a run: its sign names the source. At
    /// zero a period ends. With the leading run already spent, the source
    /// opposite to the period's gives one item. With the leading run just
    /// ended, the first run of the period begins at once.
    pub open spec fn draw(self) -> Draw {
        if self.c != 0 {
            source_of(self.c)
        } else if self.b == 0 {
            source_of(self.a).opposite()
        } else {
            source_of(self.a)
        }
    }

    /// The schedule after the next step: inside a run the counter moves one
    /// towards zero; at a boundary it is loaded with the period, the leading
    /// run is marked as spent, and where it had not been spent before, the
    /// first step of the period's run is taken at once.
    pub open spec fn advance(self) -> Schedule {
        if self.c != 0 {
            Schedule { c: towards_zero(self.c), ..self }
        } else if self.b == 0 {
            Schedule { c: self.a, ..self }
        } else {
            Schedule { a: self.a, b: 0, c: towards_zero(self.a) }
        }
    }
}

/// The counter one step nearer to zero.
pub open spec fn towards_zero(c: int) -> int {
    if c > 0 {
        c - 1
    } else if c < 0 {
        c + 1
    } else {
        0
    }
}

/// Everything a linear alternator hands out, from a given schedule and what
/// its two sources still hold, up to the first step that yields nothing.
pub open spec fn linear_output<A, B>(sch: Schedule, p: Seq<A>, s: Seq<B>) -> Seq<Either<A, B>>
    decreases p.len() + s.len(),
{
    match sch.draw() {
        Draw::Primary => if p.len() > 0 {
            seq![Either::Primary(p[0])] + linear_output(sch.advance(), p.drop_first(), s)
        } else {
            Seq::empty()
        },
        Draw::Secondary => if s.len() > 0 {
            seq![Either::Secondary(s[0])] + linear_output(sch.advance(), p, s.drop_first())
        } else {
            Seq::empty()
        },
        Draw::Nothing => Seq::empty(),
    }
}

} // verus!
