//! What holds of every walker and every engine, proved from the model.

use vstd::prelude::*;
use crate::engine::EngineView;
use crate::config::length_ok;
use crate::geometry::{lemma_path_sum_skip, path_sum, Point, SegmentView, Vec3};
use crate::tag::ColorTag;
use crate::model::{
    lemma_run_monotone, lemma_step_wf, lemma_steps_taken, lemma_steps_taken_exit, stays_inside,
    steps_taken, WalkerView,
};

verus! {

/// One call of `advance` as a walker sees it: the batch sizes and the
/// walker's own stream.
pub struct Batch {
    pub macro_steps: nat,
    pub micro: nat,
    pub draws: Seq<Vec3>,
}

/// The walker after the calls of `calls`, in order.
pub open spec fn after_calls(w: WalkerView, calls: Seq<Batch>) -> WalkerView
    decreases calls.len(),
{
    if calls.len() == 0 {
        w
    } else {
        after_calls(w, calls.drop_last()).run(
            calls.last().macro_steps,
            calls.last().micro,
            calls.last().draws,
        )
    }
}

/// Whether each call of `calls` is one that the walker accepts when its
/// turn comes: both batch sizes at least one, and the stream fit to feed
/// the batch.
pub open spec fn calls_accepted(w: WalkerView, calls: Seq<Batch>) -> bool
    decreases calls.len(),
{
    calls.len() == 0 || {
        &&& calls_accepted(w, calls.drop_last())
        &&& calls.last().macro_steps >= 1
        &&& calls.last().micro >= 1
        &&& after_calls(w, calls.drop_last()).accepts(
            calls.last().macro_steps * calls.last().micro,
            calls.last().draws,
        )
    }
}

/// A walker that has not moved yet satisfies the invariant.
pub proof fn lemma_fresh_wf(step_length: int, escape_radius: int, tag: ColorTag)
    requires
        length_ok(step_length),
        length_ok(escape_radius),
    ensures
        WalkerView::fresh(step_length, escape_radius, tag).wf(),
{
    assert(!Point::origin().beyond(escape_radius)) by (nonlinear_arith)
        requires
            escape_radius >= 0,
    ;
}

/// One call keeps the invariant.
pub proof fn lemma_run_wf(w: WalkerView, macro_steps: nat, micro: nat, draws: Seq<Vec3>)
    requires
        w.wf(),
        micro >= 1,
        w.accepts(macro_steps * micro, draws),
    ensures
        w.run(macro_steps, micro, draws).wf(),
    decreases macro_steps,
{
    if macro_steps > 0 && !w.escaped {
        let rest = (macro_steps - 1) as nat;
        assert(macro_steps * micro == rest * micro + micro) by (nonlinear_arith)
            requires
                rest == macro_steps - 1,
        ;
        lemma_step_wf(w, micro, draws);
        let next = w.step(micro, draws);
        assert(next.accepts(rest * micro, draws.skip(micro as int))) by {
            if !next.escaped {
                assert forall|j: int| 0 <= j < rest * micro implies !(#[trigger] draws.skip(
                    micro as int,
                )[j])@.beyond(next.step_length) by {
                    assert(draws.skip(micro as int)[j] == draws[j + micro]);
                }
            }
        }
        lemma_run_wf(next, rest, micro, draws.skip(micro as int));
    }
}

/// The invariant holds in every state: a walker that satisfies it does so
/// after any sequence of accepted calls.
pub proof fn lemma_every_state_wf(w: WalkerView, calls: Seq<Batch>)
    requires
        w.wf(),
        calls_accepted(w, calls),
    ensures
        after_calls(w, calls).wf(),
    decreases calls.len(),
{
    if calls.len() > 0 {
        lemma_every_state_wf(w, calls.drop_last());
        lemma_run_wf(
            after_calls(w, calls.drop_last()),
            calls.last().macro_steps,
            calls.last().micro,
            calls.last().draws,
        );
    }
}

/// Monotonicity: over any sequence of calls the step count never goes
/// down, and from the call after which the walker has escaped on, its
/// whole state stays as it is.
pub proof fn lemma_step_count_monotone(w: WalkerView, calls: Seq<Batch>, i: int, j: int)
    requires
        0 <= i <= j <= calls.len(),
    ensures
        after_calls(w, calls.take(i)).step_count <= after_calls(w, calls.take(j)).step_count,
        after_calls(w, calls.take(i)).escaped ==> after_calls(w, calls.take(j)) == after_calls(
            w,
            calls.take(i),
        ),
    decreases j - i,
{
    if i < j {
        lemma_step_count_monotone(w, calls, i, j - 1);
        let last = calls[j - 1];
        assert(calls.take(j).drop_last() =~= calls.take(j - 1));
        assert(calls.take(j).last() == last);
        lemma_run_monotone(
            after_calls(w, calls.take(j - 1)),
            last.macro_steps,
            last.micro,
            last.draws,
        );
    }
}

/// Escape correctness, over a walker's whole life: it has escaped if and
/// only if some prefix of the displacements it has applied sums to a point
/// beyond the escape radius. That prefix is then the whole path: the step
/// that took the walker out was its last.
pub proof fn lemma_escaped_iff_path_left(w: WalkerView)
    requires
        w.wf(),
    ensures
        w.escaped <==> exists|k: int|
            0 <= k <= w.path.len() && (#[trigger] path_sum(w.path, k)).beyond(w.escape_radius),
        forall|k: int|
            0 <= k <= w.path.len() && (#[trigger] path_sum(w.path, k)).beyond(w.escape_radius)
                ==> k == w.step_count,
{
    if w.escaped {
        assert(path_sum(w.path, w.path.len() as int).beyond(w.escape_radius));
    }
}

/// Splitting a walk: a walker that stays inside through the first `m`
/// displacements goes on from where they took it, on the displacements
/// that follow.
pub proof fn lemma_steps_taken_split(start: Point, radius: int, draws: Seq<Vec3>, m: nat, n: nat)
    requires
        stays_inside(start, radius, draws, m as int),
        m + n <= draws.len(),
    ensures
        steps_taken(start, radius, draws, m + n) == m + steps_taken(
            start.plus(path_sum(draws, m as int)),
            radius,
            draws.skip(m as int),
            n,
        ),
        stays_inside(start, radius, draws, (m + n) as int) <==> stays_inside(
            start.plus(path_sum(draws, m as int)),
            radius,
            draws.skip(m as int),
            n as int,
        ),
    decreases n,
{
    let mid = start.plus(path_sum(draws, m as int));
    let rest = draws.skip(m as int);
    assert forall|k: int| 0 <= k <= n implies start.plus(#[trigger] path_sum(draws, m + k))
        == mid.plus(path_sum(rest, k)) by {
        lemma_path_sum_skip(draws, m as int, k);
    }
    assert forall|l: int| 0 <= l <= n implies (stays_inside(start, radius, draws, m + l)
        <==> stays_inside(mid, radius, rest, l)) by {
        if stays_inside(start, radius, draws, m + l) {
            assert forall|k: int| 1 <= k <= l implies !mid.plus(
                #[trigger] path_sum(rest, k),
            ).beyond(radius) by {
                assert(!start.plus(path_sum(draws, m + k)).beyond(radius));
            }
        }
        if stays_inside(mid, radius, rest, l) {
            assert forall|k: int| 1 <= k <= m + l implies !start.plus(
                #[trigger] path_sum(draws, k),
            ).beyond(radius) by {
                if k > m {
                    assert(!mid.plus(path_sum(rest, k - m)).beyond(radius));
                    assert(start.plus(path_sum(draws, m + (k - m))) == mid.plus(
                        path_sum(rest, k - m),
                    ));
                }
            }
        }
    }
    if n == 0 {
        lemma_steps_taken(start, radius, draws, m);
    } else {
        lemma_steps_taken_split(start, radius, draws, m, (n - 1) as nat);
        assert(stays_inside(start, radius, draws, m + (n - 1)) <==> stays_inside(
            mid,
            radius,
            rest,
            n - 1,
        ));
    }
}

/// Escape correctness, call by call: where a run of macro-steps leaves a
/// walker depends on its stream alone, not on how the stream is cut into
/// macro-steps. The walker applies the displacements up to and including
/// the first that takes it beyond the radius, and has escaped if and only
/// if there is one among those the batch covers.
pub proof fn lemma_run_follows_stream(w: WalkerView, macro_steps: nat, micro: nat, draws: Seq<Vec3>)
    requires
        w.wf(),
        !w.escaped,
        micro >= 1,
        w.accepts(macro_steps * micro, draws),
    ensures
        ({
            let taken = steps_taken(w.position, w.escape_radius, draws, macro_steps * micro);
            let after = w.run(macro_steps, micro, draws);
            &&& after.step_count == w.step_count + taken
            &&& after.position == w.position.plus(path_sum(draws, taken as int))
            &&& after.path == w.path + draws.take(taken as int)
            &&& after.escaped <==> !stays_inside(
                w.position,
                w.escape_radius,
                draws,
                (macro_steps * micro) as int,
            )
        }),
    decreases macro_steps,
{
    let radius = w.escape_radius;
    if macro_steps == 0 {
        assert(macro_steps * micro == 0) by (nonlinear_arith)
            requires
                macro_steps == 0,
        ;
        assert(w.path + draws.take(0) =~= w.path);
    } else {
        let rest = (macro_steps - 1) as nat;
        assert(macro_steps * micro == micro + rest * micro && rest * micro >= 0)
            by (nonlinear_arith)
            requires
                rest == macro_steps - 1,
        ;
        let first = w.step(micro, draws);
        let taken = steps_taken(w.position, radius, draws, micro);
        lemma_steps_taken(w.position, radius, draws, micro);
        lemma_step_wf(w, micro, draws);
        if first.escaped {
            lemma_steps_taken_exit(w.position, radius, draws, taken, macro_steps * micro);
            assert(first.run(rest, micro, draws.skip(micro as int)) == first);
        } else {
            let ahead = draws.skip(micro as int);
            assert forall|j: int| 0 <= j < rest * micro implies !(#[trigger] ahead[j])@.beyond(
                first.step_length,
            ) by {
                assert(ahead[j] == draws[j + micro]);
            }
            lemma_run_follows_stream(first, rest, micro, ahead);
            lemma_steps_taken_split(w.position, radius, draws, micro, rest * micro);
            let more = steps_taken(first.position, radius, ahead, rest * micro);
            lemma_steps_taken(first.position, radius, ahead, rest * micro);
            lemma_path_sum_skip(draws, micro as int, more as int);
            assert(draws.take(micro as int) + ahead.take(more as int) =~= draws.take(
                (micro + more) as int,
            ));
        }
    }
}

/// After escape, `advance` does nothing: on an engine whose walkers have
/// all escaped, and so on an engine without walkers, a call leaves the
/// whole state as it was, whatever the batch sizes and the streams.
pub proof fn lemma_advance_after_escape(
    e: EngineView,
    macro_steps: nat,
    micro: nat,
    draws: Seq<Seq<Vec3>>,
)
    requires
        forall|i: int| 0 <= i < e.walkers.len() ==> (#[trigger] e.walkers[i]).escaped,
    ensures
        e.advanced(macro_steps, micro, draws) == e,
{
    assert(e.advanced(macro_steps, micro, draws).walkers =~= e.walkers);
}

/// Segment continuity: each segment starts where the one before it ended,
/// the first at the origin; the last ends at the marker; and while the
/// walker has not escaped, that is where it stands.
pub proof fn lemma_segments_continuous(w: WalkerView)
    requires
        w.wf(),
    ensures
        forall|i: int|
            0 <= i < w.segments.len() - 1 ==> (#[trigger] w.segments[i + 1]).start
                == w.segments[i].end,
        w.segments.len() > 0 ==> w.segments[0].start == Point::origin(),
        w.segments.len() > 0 ==> w.segments.last().end == w.marker_position,
        w.segments.len() > 0 && !w.escaped ==> w.segments.last().end == w.position,
{
}

/// A macro-step that ends inside the sphere adds exactly one segment, from
/// where the walker stood to where it stands now; one that ends beyond the
/// radius adds none.
pub proof fn lemma_step_segment(w: WalkerView, micro: nat, draws: Seq<Vec3>)
    requires
        !w.escaped,
    ensures
        !w.step(micro, draws).escaped ==> w.step(micro, draws).segments == w.segments.push(
            SegmentView { start: w.position, end: w.step(micro, draws).position },
        ),
        w.step(micro, draws).escaped ==> w.step(micro, draws).segments == w.segments,
{
}

/// With one micro-step to the macro-step, every step taken inside the
/// sphere leaves a segment: a walker that has a segment for each step so
/// far still has one after the call, but for the step that took it beyond
/// the radius, if there was one.
pub proof fn lemma_single_steps_leave_segments(w: WalkerView, macro_steps: nat, draws: Seq<Vec3>)
    requires
        w.wf(),
        !w.escaped,
        w.segments.len() == w.step_count,
        w.accepts(macro_steps, draws),
    ensures
        ({
            let after = w.run(macro_steps, 1, draws);
            after.segments.len() + if after.escaped { 1int } else { 0int } == after.step_count
        }),
    decreases macro_steps,
{
    if macro_steps > 0 {
        let first = w.step(1, draws);
        lemma_steps_taken(w.position, w.escape_radius, draws, 1);
        lemma_step_wf(w, 1, draws);
        if !first.escaped {
            let ahead = draws.skip(1);
            assert forall|j: int| 0 <= j < macro_steps - 1 implies !(#[trigger] ahead[j])@.beyond(
                first.step_length,
            ) by {
                assert(ahead[j] == draws[j + 1]);
            }
            lemma_single_steps_leave_segments(first, (macro_steps - 1) as nat, ahead);
        } else {
            assert(first.run((macro_steps - 1) as nat, 1, draws.skip(1)) == first);
        }
    }
}

/// Independence: what an accepted call makes of a walker depends on that
/// walker and its own stream alone. Put the same walker with the same stream into any
/// two engines, at any place, among any other walkers: it comes out the
/// same.
pub proof fn lemma_walkers_independent(
    a: EngineView,
    b: EngineView,
    i: int,
    j: int,
    macro_steps: nat,
    micro: nat,
    draws_a: Seq<Seq<Vec3>>,
    draws_b: Seq<Seq<Vec3>>,
)
    requires
        0 <= i < a.walkers.len(),
        0 <= j < b.walkers.len(),
        a.walkers[i] == b.walkers[j],
        draws_a[i] == draws_b[j],
    ensures
        a.advanced(macro_steps, micro, draws_a).walkers[i] == b.advanced(
            macro_steps,
            micro,
            draws_b,
        ).walkers[j],
        a.advanced(macro_steps, micro, draws_a).walkers[i] == a.walkers[i].run(
            macro_steps,
            micro,
            draws_a[i],
        ),
{
}

/// Spawning leaves the walkers that are there as they are, and the new
/// walker starts fresh at the origin whatever the others have done.
pub proof fn lemma_spawn_is_fresh(e: EngineView, tag: ColorTag)
    ensures
        e.spawned(tag).walkers.len() == e.walkers.len() + 1,
        forall|i: int| 0 <= i < e.walkers.len() ==> e.spawned(tag).walkers[i] == e.walkers[i],
        e.spawned(tag).walkers.last() == WalkerView::fresh(
            e.config.step_length as int,
            e.config.escape_radius as int,
            tag,
        ),
        e.spawned(tag).walkers.last().step_count == 0,
        e.spawned(tag).walkers.last().position == Point::origin(),
{
}

} // verus!
