//! The mathematical model of a walker: what a macro-step and a run of
//! macro-steps do to it, as functions of its state and its displacements.

use vstd::prelude::*;
use crate::config::length_ok;
use crate::geometry::{
    lemma_path_sum_concat, lemma_path_sum_take, path_sum, Point, SegmentView, Vec3,
};
use crate::tag::ColorTag;

verus! {

/// Whether a walker that starts at `start` is still within `radius` after
/// each of the first `n` displacements of `draws`.
pub open spec fn stays_inside(start: Point, radius: int, draws: Seq<Vec3>, n: int) -> bool {
    forall|k: int| 1 <= k <= n ==> !start.plus(#[trigger] path_sum(draws, k)).beyond(radius)
}

/// How many of the first `limit` displacements of `draws` a walker at
/// `start` applies: all of them while it stays inside, and none after the
/// one that first takes it beyond `radius`.
pub open spec fn steps_taken(start: Point, radius: int, draws: Seq<Vec3>, limit: nat) -> nat
    decreases limit,
{
    if limit == 0 {
        0
    } else if stays_inside(start, radius, draws, limit - 1) {
        limit
    } else {
        steps_taken(start, radius, draws, (limit - 1) as nat)
    }
}

/// The state of one walker.
pub struct WalkerView {
    pub step_length: int,
    pub escape_radius: int,
    pub tag: ColorTag,
    pub position: Point,
    pub escaped: bool,
    pub step_count: nat,
    pub segments: Seq<SegmentView>,
    pub marker_position: Point,
    /// Every displacement applied since the walker was made, in order.
    pub path: Seq<Vec3>,
}

impl WalkerView {
    /// A walker that has not moved yet.
    pub open spec fn fresh(step_length: int, escape_radius: int, tag: ColorTag) -> WalkerView {
        WalkerView {
            step_length,
            escape_radius,
            tag,
            position: Point::origin(),
            escaped: false,
            step_count: 0,
            segments: Seq::empty(),
            marker_position: Point::origin(),
            path: Seq::empty(),
        }
    }

    /// Each segment starts where the one before it ended, the first at the
    /// origin, and the marker stands at the end of the last.
    pub open spec fn segments_chained(self) -> bool {
        &&& self.segments.len() > 0 ==> self.segments[0].start == Point::origin()
        &&& forall|i: int|
            0 <= i < self.segments.len() - 1 ==> (#[trigger] self.segments[i + 1]).start
                == self.segments[i].end
        &&& self.marker_position == if self.segments.len() == 0 {
            Point::origin()
        } else {
            self.segments.last().end
        }
    }

    /// The walker is the outcome of its path: it stands at the sum of the
    /// displacements, has counted each of them, none is longer than the
    /// step length, and it was inside the sphere before each of them.
    pub open spec fn follows_path(self) -> bool {
        &&& self.step_count == self.path.len()
        &&& self.position == path_sum(self.path, self.path.len() as int)
        &&& forall|k: int|
            0 <= k < self.path.len() ==> !(#[trigger] self.path[k])@.beyond(self.step_length)
        &&& forall|k: int|
            0 <= k < self.path.len() ==> !(#[trigger] path_sum(self.path, k)).beyond(
                self.escape_radius,
            )
    }

    /// The invariant of every walker.
    pub open spec fn wf(self) -> bool {
        &&& length_ok(self.step_length)
        &&& length_ok(self.escape_radius)
        &&& self.follows_path()
        &&& self.escaped == self.position.beyond(self.escape_radius)
        &&& self.segments_chained()
        &&& !self.escaped ==> self.position == self.marker_position
        &&& self.segments.len() <= self.step_count
    }

    /// Whether the step counter, which holds 64 bits, has room for `count`
    /// more micro-steps. An escaped walker takes none.
    pub open spec fn has_room(self, count: nat) -> bool {
        self.escaped || self.step_count + count <= u64::MAX
    }

    /// Whether `draws` can feed `count` micro-steps of this walker: an
    /// escaped walker asks for nothing, any other for `count` displacements
    /// within its step length.
    pub open spec fn accepts(self, count: nat, draws: Seq<Vec3>) -> bool {
        self.escaped || {
            &&& count <= draws.len()
            &&& forall|j: int| 0 <= j < count ==> !(#[trigger] draws[j])@.beyond(self.step_length)
        }
    }

    /// The walker after one macro-step of up to `micro` micro-steps fed
    /// from the front of `draws`. An escaped walker stays as it is. A
    /// macro-step that ends inside the sphere adds the segment from where
    /// it began to where it ended and moves the marker there; one that ends
    /// beyond the radius adds no segment and leaves the marker behind.
    pub open spec fn step(self, micro: nat, draws: Seq<Vec3>) -> WalkerView {
        if self.escaped {
            self
        } else {
            let taken = steps_taken(self.position, self.escape_radius, draws, micro);
            let landed = self.position.plus(path_sum(draws, taken as int));
            let out = landed.beyond(self.escape_radius);
            WalkerView {
                position: landed,
                escaped: out,
                step_count: self.step_count + taken,
                segments: if out {
                    self.segments
                } else {
                    self.segments.push(SegmentView { start: self.position, end: landed })
                },
                marker_position: if out {
                    self.marker_position
                } else {
                    landed
                },
                path: self.path + draws.take(taken as int),
                ..self
            }
        }
    }

    /// The walker after up to `macro_steps` macro-steps, each fed from
    /// where the one before it stopped reading; the run ends early once the
    /// walker has escaped.
    pub open spec fn run(self, macro_steps: nat, micro: nat, draws: Seq<Vec3>) -> WalkerView
        decreases macro_steps,
    {
        if macro_steps == 0 || self.escaped {
            self
        } else {
            self.step(micro, draws).run((macro_steps - 1) as nat, micro, draws.skip(micro as int))
        }
    }
}

/// What `steps_taken` counts: never more than the limit; the walker was
/// inside before its last step; and unless it stayed inside throughout, the
/// last step is the one that took it beyond the radius.
pub proof fn lemma_steps_taken(start: Point, radius: int, draws: Seq<Vec3>, limit: nat)
    ensures
        steps_taken(start, radius, draws, limit) <= limit,
        limit >= 1 ==> steps_taken(start, radius, draws, limit) >= 1,
        stays_inside(start, radius, draws, steps_taken(start, radius, draws, limit) - 1),
        stays_inside(start, radius, draws, limit as int) ==> steps_taken(
            start,
            radius,
            draws,
            limit,
        ) == limit,
        !stays_inside(start, radius, draws, limit as int) ==> start.plus(
            path_sum(draws, steps_taken(start, radius, draws, limit) as int),
        ).beyond(radius),
    decreases limit,
{
    if limit > 0 && !stays_inside(start, radius, draws, limit - 1) {
        lemma_steps_taken(start, radius, draws, (limit - 1) as nat);
    }
}

/// A walker that is inside through `k - 1` steps and beyond the radius
/// after the `k`-th takes exactly `k` steps, whatever the limit from `k` up.
pub proof fn lemma_steps_taken_exit(
    start: Point,
    radius: int,
    draws: Seq<Vec3>,
    k: nat,
    limit: nat,
)
    requires
        1 <= k <= limit,
        stays_inside(start, radius, draws, k - 1),
        start.plus(path_sum(draws, k as int)).beyond(radius),
    ensures
        steps_taken(start, radius, draws, limit) == k,
    decreases limit,
{
    if limit > k {
        lemma_steps_taken_exit(start, radius, draws, k, (limit - 1) as nat);
    }
}

/// A macro-step keeps the invariant.
pub proof fn lemma_step_wf(w: WalkerView, micro: nat, draws: Seq<Vec3>)
    requires
        w.wf(),
        micro >= 1,
        w.accepts(micro, draws),
    ensures
        w.step(micro, draws).wf(),
{
    if !w.escaped {
        let taken = steps_taken(w.position, w.escape_radius, draws, micro);
        let after = w.step(micro, draws);
        let len = w.path.len() as int;
        lemma_steps_taken(w.position, w.escape_radius, draws, micro);
        assert(after.path.len() == len + taken);
        assert forall|k: int| 0 <= k <= len + taken implies #[trigger] path_sum(after.path, k) == if k
            <= len {
            path_sum(w.path, k)
        } else {
            w.position.plus(path_sum(draws, k - len))
        } by {
            lemma_path_sum_concat(w.path, draws.take(taken as int), k);
            if k > len {
                lemma_path_sum_take(draws, taken as int, k - len);
            }
        }
        assert(after.position == path_sum(after.path, len + taken));
        assert forall|k: int| 0 <= k < after.path.len() implies !(#[trigger] after.path[k])@.beyond(
            after.step_length,
        ) by {
            if k >= len {
                assert(after.path[k] == draws[k - len]);
            }
        }
        assert forall|k: int| 0 <= k < after.path.len() implies !(#[trigger] path_sum(
            after.path,
            k,
        )).beyond(after.escape_radius) by {
            if k > len {
                assert(!w.position.plus(path_sum(draws, k - len)).beyond(w.escape_radius));
            }
        }
        assert(after.follows_path());
        assert(after.segments_chained());
    }
}

/// One call never lowers the step count, and changes nothing at all of a
/// walker that has escaped.
pub proof fn lemma_run_monotone(w: WalkerView, macro_steps: nat, micro: nat, draws: Seq<Vec3>)
    ensures
        w.run(macro_steps, micro, draws).step_count >= w.step_count,
        w.escaped ==> w.run(macro_steps, micro, draws) == w,
    decreases macro_steps,
{
    if macro_steps > 0 && !w.escaped {
        lemma_run_monotone(
            w.step(micro, draws),
            (macro_steps - 1) as nat,
            micro,
            draws.skip(micro as int),
        );
    }
}

/// A run of macro-steps leaves the walker's lengths and tag as they were.
pub proof fn lemma_run_keeps_constants(
    w: WalkerView,
    macro_steps: nat,
    micro: nat,
    draws: Seq<Vec3>,
)
    ensures
        w.run(macro_steps, micro, draws).step_length == w.step_length,
        w.run(macro_steps, micro, draws).escape_radius == w.escape_radius,
        w.run(macro_steps, micro, draws).tag == w.tag,
    decreases macro_steps,
{
    if macro_steps > 0 && !w.escaped {
        lemma_run_keeps_constants(
            w.step(micro, draws),
            (macro_steps - 1) as nat,
            micro,
            draws.skip(micro as int),
        );
    }
}

} // verus!
