use vstd::prelude::*;
use vstd::arithmetic::div_mod::{
    lemma_fundamental_div_mod, lemma_fundamental_div_mod_converse, lemma_mod_pos_bound,
    lemma_small_mod,
};
use crate::either::{Either, lemma_payloads_of_cons, primaries, secondaries};
use crate::schedule::{Draw, Schedule, linear_output, magnitude, source_of};
use crate::source::hint_sum;

verus! {

/// Two sequences woven into one by a plan that names the source of each
/// position, from position `k` on. Each source gives its items in their own
/// order, and the result ends where the plan names no source, or a source that
/// has run out.
pub open spec fn weave<A, B>(plan: spec_fn(int) -> Draw, k: int, p: Seq<A>, s: Seq<B>) -> Seq<
    Either<A, B>,
>
    decreases p.len() + s.len(),
{
    match plan(k) {
        Draw::Primary => if p.len() > 0 {
            seq![Either::Primary(p[0])] + weave(plan, k + 1, p.drop_first(), s)
        } else {
            Seq::empty()
        },
        Draw::Secondary => if s.len() > 0 {
            seq![Either::Secondary(s[0])] + weave(plan, k + 1, p, s.drop_first())
        } else {
            Seq::empty()
        },
        Draw::Nothing => Seq::empty(),
    }
}

/// The source of position `k` under coefficients `a` and `b`: a leading run
/// of `|b|` items from the source that `b` names, then periods of `|a|` items
/// from the source that `a` names and one item from the other. With `a == 0`
/// nothing follows the leading run.
pub open spec fn pattern(a: int, b: int, k: int) -> Draw {
    if k < magnitude(b) {
        source_of(b)
    } else if (k - magnitude(b)) % (magnitude(a) + 1) < magnitude(a) {
        source_of(a)
    } else {
        source_of(a).opposite()
    }
}

/// The plan that `pattern` gives for coefficients `a` and `b`.
pub open spec fn plan(a: int, b: int) -> spec_fn(int) -> Draw {
    |k: int| pattern(a, b, k)
}

/// Whether `sch` is the schedule that coefficients `a` and `b` reach after `k`
/// steps.
pub open spec fn reached(a: int, b: int, sch: Schedule, k: int) -> bool {
    &&& sch.a == a
    &&& k >= 0
    &&& if b != 0 && k <= magnitude(b) {
        &&& sch.b == b
        &&& sch.c == if b > 0 {
            b - k
        } else {
            b + k
        }
    } else {
        &&& sch.b == 0
        &&& k >= magnitude(b)
        &&& sch.c == if a > 0 {
            a - (k - magnitude(b)) % (magnitude(a) + 1)
        } else {
            a + (k - magnitude(b)) % (magnitude(a) + 1)
        }
    }
}

/// The remainder of the successor: one more, or back to zero at the end of a
/// period.
proof fn lemma_mod_succ(x: int, d: int)
    requires
        0 <= x,
        0 < d,
    ensures
        0 <= x % d < d,
        (x + 1) % d == if x % d == d - 1 {
            0
        } else {
            x % d + 1
        },
{
    lemma_fundamental_div_mod(x, d);
    lemma_mod_pos_bound(x, d);
    let q = x / d;
    let r = x % d;
    if r == d - 1 {
        assert(x + 1 == (q + 1) * d + 0) by (nonlinear_arith)
            requires
                x == d * q + r,
                r == d - 1,
        ;
        lemma_fundamental_div_mod_converse(x + 1, d, q + 1, 0);
    } else {
        assert(x + 1 == q * d + (r + 1)) by (nonlinear_arith)
            requires
                x == d * q + r,
        ;
        lemma_fundamental_div_mod_converse(x + 1, d, q, r + 1);
    }
}

/// A schedule in step with its coefficients draws what the pattern names, and
/// stays in step.
pub proof fn lemma_step_follows_pattern(a: int, b: int, sch: Schedule, k: int)
    requires
        reached(a, b, sch, k),
    ensures
        sch.draw() == pattern(a, b, k),
        reached(a, b, sch.advance(), k + 1),
{
    let lead = magnitude(b);
    let period = magnitude(a) + 1;
    if b != 0 && k <= lead {
        if k == lead {
            lemma_small_mod(0, period as nat);
            lemma_mod_succ(0, period);
        }
    } else {
        lemma_mod_succ(k - lead, period);
    }
}

/// The schedule that a fresh alternator starts with is in step at position 0.
pub proof fn lemma_start_reached(a: int, b: int)
    ensures
        reached(a, b, Schedule::start(a, b), 0),
{
    lemma_small_mod(0, (magnitude(a) + 1) as nat);
}

/// From a schedule in step at position `k`, the alternator hands out the
/// weave of its sources by the pattern from `k` on.
pub proof fn lemma_output_from<A, B>(a: int, b: int, sch: Schedule, k: int, p: Seq<A>, s: Seq<B>)
    requires
        reached(a, b, sch, k),
    ensures
        linear_output(sch, p, s) == weave(plan(a, b), k, p, s),
    decreases p.len() + s.len(),
{
    lemma_step_follows_pattern(a, b, sch, k);
    match sch.draw() {
        Draw::Primary => {
            if p.len() > 0 {
                lemma_output_from(a, b, sch.advance(), k + 1, p.drop_first(), s);
            }
        },
        Draw::Secondary => {
            if s.len() > 0 {
                lemma_output_from(a, b, sch.advance(), k + 1, p, s.drop_first());
            }
        },
        Draw::Nothing => {},
    }
}

/// For any coefficients, a fresh linear alternator hands out the weave of its
/// sources by the pattern of those coefficients.
pub proof fn lemma_output_is_weave<A, B>(a: int, b: int, p: Seq<A>, s: Seq<B>)
    ensures
        linear_output(Schedule::start(a, b), p, s) == weave(plan(a, b), 0, p, s),
{
    lemma_start_reached(a, b);
    lemma_output_from(a, b, Schedule::start(a, b), 0, p, s);
}

/// With both coefficients positive, the first `b` items come from the primary
/// source; after them runs of `a` items from the primary source alternate with
/// single items from the secondary, until a source that is asked has run out.
pub proof fn lemma_positive_period_after_primary_lead<A, B>(a: int, b: int, p: Seq<A>, s: Seq<B>)
    requires
        a > 0,
        b > 0,
    ensures
        linear_output(Schedule::start(a, b), p, s) == weave(
            |k: int|
                if k < b || (k - b) % (a + 1) < a {
                    Draw::Primary
                } else {
                    Draw::Secondary
                },
            0,
            p,
            s,
        ),
{
    lemma_output_is_weave(a, b, p, s);
    assert(plan(a, b) =~= (|k: int|
        if k < b || (k - b) % (a + 1) < a {
            Draw::Primary
        } else {
            Draw::Secondary
        }));
}

/// With a negative period and a positive leading run, the first `b` items
/// come from the primary source; after them runs of `|a|` items from the
/// secondary source alternate with single items from the primary, until a
/// source that is asked has run out.
pub proof fn lemma_negative_period_after_primary_lead<A, B>(a: int, b: int, p: Seq<A>, s: Seq<B>)
    requires
        a < 0,
        b > 0,
    ensures
        linear_output(Schedule::start(a, b), p, s) == weave(
            |k: int|
                if k < b || (k - b) % (-a + 1) == -a {
                    Draw::Primary
                } else {
                    Draw::Secondary
                },
            0,
            p,
            s,
        ),
{
    lemma_output_is_weave(a, b, p, s);
    assert forall|k: int|
        #[trigger] plan(a, b)(k) == if k < b || (k - b) % (-a + 1) == -a {
            Draw::Primary
        } else {
            Draw::Secondary
        } by {
        if k >= b {
            lemma_mod_pos_bound(k - b, -a + 1);
        }
    }
    assert(plan(a, b) =~= (|k: int|
        if k < b || (k - b) % (-a + 1) == -a {
            Draw::Primary
        } else {
            Draw::Secondary
        }));
}

/// With both coefficients zero nothing is handed out, whatever the sources
/// hold.
pub proof fn lemma_zero_coefficients_give_nothing<A, B>(p: Seq<A>, s: Seq<B>)
    ensures
        linear_output(Schedule::start(0, 0), p, s) == Seq::<Either<A, B>>::empty(),
{
}

/// With a period of zero, only the leading run is handed out: the weave ends
/// at position `|b|` at the latest.
pub proof fn lemma_zero_period_ends_after_lead<A, B>(b: int, p: Seq<A>, s: Seq<B>)
    ensures
        linear_output(Schedule::start(0, b), p, s).len() <= magnitude(b),
{
    lemma_output_is_weave(0, b, p, s);
    lemma_weave_follows_plan(plan(0, b), 0, p, s);
    let out = weave(plan(0, b), 0, p, s);
    if out.len() > magnitude(b) {
        assert(plan(0, b)(magnitude(b)) == Draw::Nothing);
        assert(out[magnitude(b)] is Primary || out[magnitude(b)] is Secondary);
    }
}

/// Each item of a weave carries the tag that the plan gives its position, and
/// the weave is no longer than the two sources together.
pub proof fn lemma_weave_follows_plan<A, B>(
    plan: spec_fn(int) -> Draw,
    k: int,
    p: Seq<A>,
    s: Seq<B>,
)
    ensures
        weave(plan, k, p, s).len() <= p.len() + s.len(),
        forall|i: int|
            0 <= i < weave(plan, k, p, s).len() ==> (#[trigger] weave(plan, k, p, s)[i] is Primary
                <==> plan(k + i) == Draw::Primary),
        forall|i: int|
            0 <= i < weave(plan, k, p, s).len() ==> (#[trigger] weave(
                plan,
                k,
                p,
                s,
            )[i] is Secondary <==> plan(k + i) == Draw::Secondary),
    decreases p.len() + s.len(),
{
    let out = weave(plan, k, p, s);
    match plan(k) {
        Draw::Primary => {
            if p.len() > 0 {
                let tail = weave(plan, k + 1, p.drop_first(), s);
                lemma_weave_follows_plan(plan, k + 1, p.drop_first(), s);
                assert forall|i: int| 0 <= i < out.len() implies (#[trigger] out[i] is Primary
                    <==> plan(k + i) == Draw::Primary) && (out[i] is Secondary <==> plan(k + i)
                    == Draw::Secondary) by {
                    if i > 0 {
                        assert(out[i] == tail[i - 1]);
                        assert(k + i == (k + 1) + (i - 1));
                    }
                }
            }
        },
        Draw::Secondary => {
            if s.len() > 0 {
                let tail = weave(plan, k + 1, p, s.drop_first());
                lemma_weave_follows_plan(plan, k + 1, p, s.drop_first());
                assert forall|i: int| 0 <= i < out.len() implies (#[trigger] out[i] is Primary
                    <==> plan(k + i) == Draw::Primary) && (out[i] is Secondary <==> plan(k + i)
                    == Draw::Secondary) by {
                    if i > 0 {
                        assert(out[i] == tail[i - 1]);
                        assert(k + i == (k + 1) + (i - 1));
                    }
                }
            }
        },
        Draw::Nothing => {},
    }
}

/// A linear alternator hands out no more items than its two sources hold
/// together.
pub proof fn lemma_output_bounded<A, B>(a: int, b: int, p: Seq<A>, s: Seq<B>)
    ensures
        linear_output(Schedule::start(a, b), p, s).len() <= p.len() + s.len(),
{
    lemma_output_is_weave(a, b, p, s);
    lemma_weave_follows_plan(plan(a, b), 0, p, s);
}

/// In the steady state of period 1, with a primary item due, the sources take
/// strict turns, primary first, until the one whose turn it is has run out.
pub proof fn lemma_unit_period_takes_turns<A, B>(p: Seq<A>, s: Seq<B>)
    ensures
        ({
            let out = linear_output(Schedule { a: 1, b: 0, c: 1 }, p, s);
            &&& out.len() == if p.len() <= s.len() {
                2 * p.len()
            } else {
                2 * s.len() + 1
            }
            &&& forall|i: int| 0 <= i && 2 * i < out.len() ==> out[2 * i] == Either::<A, B>::Primary(p[i])
            &&& forall|i: int|
                0 <= i && 2 * i + 1 < out.len() ==> out[2 * i + 1] == Either::<A, B>::Secondary(
                    s[i],
                )
        }),
    decreases p.len(),
{
    let turn = Schedule { a: 1, b: 0, c: 1 };
    let out = linear_output(turn, p, s);
    if p.len() > 0 {
        let after_primary = linear_output(turn.advance(), p.drop_first(), s);
        assert(out == seq![Either::<A, B>::Primary(p[0])] + after_primary);
        if s.len() > 0 {
            let tail = linear_output(turn, p.drop_first(), s.drop_first());
            assert(turn.advance().advance() == turn);
            assert(after_primary == seq![Either::<A, B>::Secondary(s[0])] + tail);
            lemma_unit_period_takes_turns(p.drop_first(), s.drop_first());
            assert(out.len() == 2 + tail.len());
            assert forall|i: int| 0 <= i && 2 * i < out.len() implies out[2 * i] == Either::<
                A,
                B,
            >::Primary(p[i]) by {
                if i > 0 {
                    assert(out[2 * i] == tail[2 * (i - 1)]);
                    assert(tail[2 * (i - 1)] == Either::<A, B>::Primary(p.drop_first()[i - 1]));
                }
            }
            assert forall|i: int| 0 <= i && 2 * i + 1 < out.len() implies out[2 * i + 1]
                == Either::<A, B>::Secondary(s[i]) by {
                if i > 0 {
                    assert(out[2 * i + 1] == tail[2 * (i - 1) + 1]);
                    assert(tail[2 * (i - 1) + 1] == Either::<A, B>::Secondary(
                        s.drop_first()[i - 1],
                    ));
                }
            }
        } else {
            assert(after_primary.len() == 0);
        }
    }
}

/// With a period of 1 and no leading run, two sources of one length `n` are
/// handed out whole, in strict turns and primary first: `2 * n` items, and the
/// counts of the two sources never more than one apart.
pub proof fn lemma_unit_period_interleaves<A, B>(p: Seq<A>, s: Seq<B>)
    requires
        p.len() == s.len(),
    ensures
        ({
            let out = linear_output(Schedule::start(1, 0), p, s);
            &&& out.len() == 2 * p.len()
            &&& forall|i: int|
                0 <= i < p.len() ==> out[2 * i] == Either::<A, B>::Primary(p[i]) && out[2 * i + 1]
                    == Either::<A, B>::Secondary(s[i])
        }),
{
    lemma_unit_period_takes_turns(p, s);
}

/// With both coefficients 1, two sources of one length `n` do not take strict
/// turns: the leading run and the first run of the period give two primary
/// items in a row. The turns that follow end when the primary source has run
/// out, one item of the secondary short: `2 * n - 1` items for `n > 0`, and
/// none for `n == 0`.
pub proof fn lemma_unit_coefficients_lead_twice<A, B>(p: Seq<A>, s: Seq<B>)
    requires
        p.len() == s.len(),
    ensures
        ({
            let out = linear_output(Schedule::start(1, 1), p, s);
            &&& out.len() == if p.len() == 0 {
                0
            } else {
                2 * p.len() - 1
            }
            &&& p.len() > 0 ==> out[0] == Either::<A, B>::Primary(p[0])
            &&& forall|i: int| 1 <= i < p.len() ==> out[2 * i - 1] == Either::<A, B>::Primary(p[i])
            &&& forall|i: int|
                0 <= i < s.len() - 1 ==> out[2 * i + 2] == Either::<A, B>::Secondary(s[i])
        }),
{
    let out = linear_output(Schedule::start(1, 1), p, s);
    let lead = Schedule::start(1, 1);
    if p.len() > 0 {
        let p_tail = p.drop_first();
        let after_lead = linear_output(lead.advance(), p_tail, s);
        assert(out == seq![Either::<A, B>::Primary(p[0])] + after_lead);
        if p_tail.len() > 0 {
            let p_rest = p_tail.drop_first();
            let s_tail = s.drop_first();
            let turn = Schedule { a: 1, b: 0, c: 1 };
            let after_run = linear_output(lead.advance().advance(), p_rest, s);
            let tail = linear_output(turn, p_rest, s_tail);
            assert(lead.advance().advance().advance() == turn);
            assert(after_lead == seq![Either::<A, B>::Primary(p_tail[0])] + after_run);
            assert(after_run == seq![Either::<A, B>::Secondary(s[0])] + tail);
            lemma_unit_period_takes_turns(p_rest, s_tail);
            assert(out.len() == 3 + tail.len());
            assert forall|i: int| 1 <= i < p.len() implies out[2 * i - 1] == Either::<
                A,
                B,
            >::Primary(p[i]) by {
                if i > 1 {
                    assert(out[2 * i - 1] == tail[2 * (i - 2)]);
                    assert(tail[2 * (i - 2)] == Either::<A, B>::Primary(p_rest[i - 2]));
                }
            }
            assert forall|i: int| 0 <= i < s.len() - 1 implies out[2 * i + 2] == Either::<
                A,
                B,
            >::Secondary(s[i]) by {
                if i > 0 {
                    assert(out[2 * i + 2] == tail[2 * (i - 1) + 1]);
                    assert(tail[2 * (i - 1) + 1] == Either::<A, B>::Secondary(s_tail[i - 1]));
                }
            }
        } else {
            assert(after_lead.len() == 0);
        }
    }
}

/// Negating every counter of a schedule exchanges the roles of the two
/// sources and changes nothing else: the output over the sources exchanged is
/// the output over the sources as they were, item by item, with each tag
/// exchanged.
pub proof fn lemma_mirrored_output<A, B>(sch: Schedule, p: Seq<A>, s: Seq<B>)
    ensures
        linear_output(sch.mirrored(), s, p) == linear_output(sch, p, s).map_values(
            |e: Either<A, B>| e.swapped(),
        ),
    decreases p.len() + s.len(),
{
    let swap = |e: Either<A, B>| e.swapped();
    let out = linear_output(sch, p, s);
    let mirrored = linear_output(sch.mirrored(), s, p);
    assert(sch.mirrored().draw() == sch.draw().opposite());
    assert(sch.mirrored().advance() == sch.advance().mirrored());
    match sch.draw() {
        Draw::Primary => {
            if p.len() > 0 {
                lemma_mirrored_output(sch.advance(), p.drop_first(), s);
                let tail = linear_output(sch.advance(), p.drop_first(), s);
                assert(mirrored =~= (seq![Either::<A, B>::Primary(p[0])] + tail).map_values(swap));
            } else {
                assert(mirrored =~= out.map_values(swap));
            }
        },
        Draw::Secondary => {
            if s.len() > 0 {
                lemma_mirrored_output(sch.advance(), p, s.drop_first());
                let tail = linear_output(sch.advance(), p, s.drop_first());
                assert(mirrored =~= (seq![Either::<A, B>::Secondary(s[0])] + tail).map_values(
                    swap,
                ));
            } else {
                assert(mirrored =~= out.map_values(swap));
            }
        },
        Draw::Nothing => {
            assert(mirrored =~= out.map_values(swap));
        },
    }
}

/// Negating both coefficients of a fresh alternator exchanges the roles of
/// its two sources.
pub proof fn lemma_negated_coefficients_mirror<A, B>(a: int, b: int, p: Seq<A>, s: Seq<B>)
    ensures
        linear_output(Schedule::start(-a, -b), s, p) == linear_output(
            Schedule::start(a, b),
            p,
            s,
        ).map_values(|e: Either<A, B>| e.swapped()),
{
    assert(Schedule::start(-a, -b) == Schedule::start(a, b).mirrored());
    lemma_mirrored_output(Schedule::start(a, b), p, s);
}

/// With a period of -1 and no leading run, two sources of one length `n` are
/// handed out whole, in strict turns and secondary first.
pub proof fn lemma_negative_unit_period_interleaves<A, B>(p: Seq<A>, s: Seq<B>)
    requires
        p.len() == s.len(),
    ensures
        ({
            let out = linear_output(Schedule::start(-1, 0), p, s);
            &&& out.len() == 2 * p.len()
            &&& forall|i: int|
                0 <= i < p.len() ==> out[2 * i] == Either::<A, B>::Secondary(s[i]) && out[2 * i
                    + 1] == Either::<A, B>::Primary(p[i])
        }),
{
    lemma_unit_period_interleaves(s, p);
    lemma_negated_coefficients_mirror(1, 0, s, p);
}

/// With both coefficients -1, two sources of one length `n` behave as with
/// both coefficients 1 and the roles exchanged: two secondary items lead, the
/// turns that follow end when the secondary source has run out, and `2 * n - 1`
/// items are handed out for `n > 0`.
pub proof fn lemma_negative_unit_coefficients_lead_twice<A, B>(p: Seq<A>, s: Seq<B>)
    requires
        p.len() == s.len(),
    ensures
        ({
            let out = linear_output(Schedule::start(-1, -1), p, s);
            &&& out.len() == if s.len() == 0 {
                0
            } else {
                2 * s.len() - 1
            }
            &&& s.len() > 0 ==> out[0] == Either::<A, B>::Secondary(s[0])
            &&& forall|i: int|
                1 <= i < s.len() ==> out[2 * i - 1] == Either::<A, B>::Secondary(s[i])
            &&& forall|i: int| 0 <= i < p.len() - 1 ==> out[2 * i + 2] == Either::<A, B>::Primary(p[i])
        }),
{
    lemma_unit_coefficients_lead_twice(s, p);
    lemma_negated_coefficients_mirror(1, 1, s, p);
}

/// A weave hands out the items of each source in that source's own order,
/// from its first item on and without a gap.
pub proof fn lemma_weave_keeps_order<A, B>(
    plan: spec_fn(int) -> Draw,
    k: int,
    p: Seq<A>,
    s: Seq<B>,
)
    ensures
        primaries(weave(plan, k, p, s)).is_prefix_of(p),
        secondaries(weave(plan, k, p, s)).is_prefix_of(s),
    decreases p.len() + s.len(),
{
    match plan(k) {
        Draw::Primary => {
            if p.len() > 0 {
                let tail = weave(plan, k + 1, p.drop_first(), s);
                lemma_weave_keeps_order(plan, k + 1, p.drop_first(), s);
                lemma_payloads_of_cons(Either::<A, B>::Primary(p[0]), tail);
                assert((seq![p[0]] + primaries(tail)).is_prefix_of(p)) by {
                    assert forall|i: int| 0 < i <= primaries(tail).len() implies (seq![p[0]]
                        + primaries(tail))[i] == p[i] by {
                        assert(primaries(tail)[i - 1] == p.drop_first().subrange(
                            0,
                            primaries(tail).len() as int,
                        )[i - 1]);
                    }
                }
            }
        },
        Draw::Secondary => {
            if s.len() > 0 {
                let tail = weave(plan, k + 1, p, s.drop_first());
                lemma_weave_keeps_order(plan, k + 1, p, s.drop_first());
                lemma_payloads_of_cons(Either::<A, B>::Secondary(s[0]), tail);
                assert((seq![s[0]] + secondaries(tail)).is_prefix_of(s)) by {
                    assert forall|i: int| 0 < i <= secondaries(tail).len() implies (seq![s[0]]
                        + secondaries(tail))[i] == s[i] by {
                        assert(secondaries(tail)[i - 1] == s.drop_first().subrange(
                            0,
                            secondaries(tail).len() as int,
                        )[i - 1]);
                    }
                }
            }
        },
        Draw::Nothing => {},
    }
}

/// A linear alternator hands out the items of each source in that source's
/// own order, from its first item on and without a gap.
pub proof fn lemma_output_keeps_order<A, B>(a: int, b: int, p: Seq<A>, s: Seq<B>)
    ensures
        primaries(linear_output(Schedule::start(a, b), p, s)).is_prefix_of(p),
        secondaries(linear_output(Schedule::start(a, b), p, s)).is_prefix_of(s),
{
    lemma_output_is_weave(a, b, p, s);
    lemma_weave_keeps_order(plan(a, b), 0, p, s);
}

/// Where neither source holds more items than the upper bound of its own
/// estimate, a linear alternator hands out no more items than the upper bound
/// of the combined estimate.
pub proof fn lemma_upper_hint_holds<A, B>(
    a: int,
    b: int,
    p: Seq<A>,
    s: Seq<B>,
    p_hint: (usize, Option<usize>),
    s_hint: (usize, Option<usize>),
)
    requires
        p_hint.1 matches Some(x) ==> p.len() <= x,
        s_hint.1 matches Some(y) ==> s.len() <= y,
    ensures
        hint_sum(p_hint, s_hint).1 matches Some(u) ==> linear_output(
            Schedule::start(a, b),
            p,
            s,
        ).len() <= u,
{
    lemma_output_bounded(a, b, p, s);
}

} // verus!
