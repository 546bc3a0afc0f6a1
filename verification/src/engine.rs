//! The engine: an append-only collection of walkers that advance
//! independently of each other.

use vstd::prelude::*;
use crate::config::{batch_fault, check_batch, SimConfig};
use crate::error::{Parameter, SimError};
use crate::geometry::{segment_views, Point, Segment, SegmentView, Vec3};
use crate::model::{lemma_run_keeps_constants, lemma_run_monotone, WalkerView};
use crate::tag::ColorTag;
use crate::walker::{batch_total, Walker};

verus! {

/// The name of a walker in its engine: its place in the order of spawning.
#[derive(Clone, Copy, Debug, PartialEq, Eq, Structural)]
pub struct WalkerId {
    pub index: usize,
}

/// The mathematical value of a [`Marker`].
pub struct MarkerView {
    pub position: Point,
    pub escaped: bool,
}

/// Where to draw a walker's marker, and whether the walker has escaped.
#[derive(Clone, Copy, Debug, PartialEq, Eq, Structural)]
pub struct Marker {
    pub position: Vec3,
    pub escaped: bool,
}

impl View for Marker {
    type V = MarkerView;

    open spec fn view(&self) -> MarkerView {
        MarkerView { position: self.position@, escaped: self.escaped }
    }
}

/// The streams of displacements handed to a call, one per walker.
pub open spec fn streams(draws: Seq<Vec<Vec3>>) -> Seq<Seq<Vec3>> {
    Seq::new(draws.len(), |i: int| draws[i]@)
}

/// The segments of `walkers`, walker by walker in order, each walker's
/// oldest first.
pub open spec fn segments_of(walkers: Seq<WalkerView>) -> Seq<SegmentView>
    decreases walkers.len(),
{
    if walkers.len() == 0 {
        Seq::empty()
    } else {
        segments_of(walkers.drop_last()) + walkers.last().segments
    }
}

/// The state of an engine.
pub struct EngineView {
    pub config: SimConfig,
    pub walkers: Seq<WalkerView>,
}

impl EngineView {
    /// The invariant of every engine: its configuration is valid, and each
    /// walker is well-formed and has the engine's lengths.
    pub open spec fn wf(self) -> bool {
        &&& self.config.valid()
        &&& forall|i: int|
            0 <= i < self.walkers.len() ==> {
                &&& (#[trigger] self.walkers[i]).wf()
                &&& self.walkers[i].step_length == self.config.step_length
                &&& self.walkers[i].escape_radius == self.config.escape_radius
            }
    }

    /// The engine with one more walker, fresh at the origin.
    pub open spec fn spawned(self, tag: ColorTag) -> EngineView {
        EngineView {
            walkers: self.walkers.push(
                WalkerView::fresh(
                    self.config.step_length as int,
                    self.config.escape_radius as int,
                    tag,
                ),
            ),
            ..self
        }
    }

    /// Whether every walker's step counter has room for `count` more
    /// micro-steps.
    pub open spec fn has_room(self, count: nat) -> bool {
        forall|i: int| 0 <= i < self.walkers.len() ==> (#[trigger] self.walkers[i]).has_room(count)
    }

    /// Whether `draws` holds one stream per walker, each fit to feed
    /// `count` micro-steps of its walker.
    pub open spec fn accepts(self, count: nat, draws: Seq<Seq<Vec3>>) -> bool {
        &&& draws.len() == self.walkers.len()
        &&& forall|i: int|
            0 <= i < self.walkers.len() ==> (#[trigger] self.walkers[i]).accepts(count, draws[i])
    }

    /// What is wrong with a call of `advance`: the batch sizes first, then
    /// the displacements.
    pub open spec fn fault(self, macro_steps: nat, micro: nat, draws: Seq<Seq<Vec3>>) -> Option<
        Parameter,
    > {
        if batch_fault(macro_steps as int, micro as int) is Some {
            batch_fault(macro_steps as int, micro as int)
        } else if !self.accepts(macro_steps * micro, draws) {
            Some(Parameter::Draws)
        } else {
            None
        }
    }

    /// The engine after each walker has run on its own stream.
    pub open spec fn advanced(self, macro_steps: nat, micro: nat, draws: Seq<Seq<Vec3>>) -> EngineView {
        EngineView {
            walkers: Seq::new(
                self.walkers.len(),
                |i: int| self.walkers[i].run(macro_steps, micro, draws[i]),
            ),
            ..self
        }
    }

    /// Every walker's segments, in the order of spawning.
    pub open spec fn all_segments(self) -> Seq<SegmentView> {
        segments_of(self.walkers)
    }

    /// Every walker's marker, in the order of spawning.
    pub open spec fn markers(self) -> Seq<MarkerView> {
        Seq::new(
            self.walkers.len(),
            |i: int|
                MarkerView {
                    position: self.walkers[i].marker_position,
                    escaped: self.walkers[i].escaped,
                },
        )
    }
}

/// The simulation manager. It owns its walkers; callers see them through
/// shared references and snapshots only.
pub struct WalkerEngine {
    config: SimConfig,
    walkers: Vec<Walker>,
}

impl View for WalkerEngine {
    type V = EngineView;

    closed spec fn view(&self) -> EngineView {
        EngineView {
            config: self.config,
            walkers: Seq::new(self.walkers@.len(), |i: int| self.walkers@[i]@),
        }
    }
}

impl WalkerEngine {
    /// The invariant of every engine: see [`EngineView::wf`].
    pub open spec fn wf(&self) -> bool {
        self@.wf()
    }

    /// An engine without walkers. The configuration is checked, and the
    /// first parameter at fault reported.
    pub fn new(config: SimConfig) -> (r: Result<WalkerEngine, SimError>)
        ensures
            match r {
                Ok(engine) => {
                    &&& config.valid()
                    &&& engine.wf()
                    &&& engine@ == (EngineView { config, walkers: Seq::empty() })
                },
                Err(SimError::InvalidParameter(p)) => config.fault() == Some(p),
            },
    {
        match config.check() {
            Err(e) => Err(e),
            Ok(()) => {
                let engine = WalkerEngine { config, walkers: Vec::new() };
                assert(engine@.walkers =~= Seq::empty());
                Ok(engine)
            },
        }
    }

    /// Adds a walker at the origin and returns its name. The walkers
    /// spawned before are left as they are.
    pub fn spawn_walker(&mut self, tag: ColorTag) -> (id: WalkerId)
        requires
            old(self).wf(),
        ensures
            final(self).wf(),
            final(self)@ == old(self)@.spawned(tag),
            id.index == old(self)@.walkers.len(),
    {
        let id = WalkerId { index: self.walkers.len() };
        let walker = Walker::fresh(self.config.step_length, self.config.escape_radius, tag);
        self.walkers.push(walker);
        assert(self@.walkers =~= old(self)@.spawned(tag).walkers);
        id
    }

    /// Advances every walker that has not escaped by up to `macro_steps`
    /// macro-steps of up to `micro` micro-steps each. The walker spawned
    /// `i`-th reads its displacements from `draws[i]`, in order, and from
    /// nowhere else. The call is refused, and nothing changed, when a batch
    /// size is zero, when `draws` does not hold one stream per walker, or
    /// when a walker that has not escaped is handed fewer than
    /// `macro_steps * micro` displacements or, among those, one longer than
    /// the step length. The step counters must have room for the batch,
    /// which `has_room` tells.
    pub fn advance(&mut self, macro_steps: u32, micro: u32, draws: &Vec<Vec<Vec3>>) -> (r: Result<
        (),
        SimError,
    >)
        requires
            old(self).wf(),
            old(self)@.has_room(macro_steps as nat * micro as nat),
        ensures
            final(self).wf(),
            final(self)@.walkers.len() == old(self)@.walkers.len(),
            forall|i: int|
                0 <= i < old(self)@.walkers.len() ==> {
                    &&& (#[trigger] final(self)@.walkers[i]).step_count
                        >= old(self)@.walkers[i].step_count
                    &&& old(self)@.walkers[i].escaped ==> final(self)@.walkers[i]
                        == old(self)@.walkers[i]
                },
            match r {
                Ok(()) => {
                    &&& old(self)@.fault(macro_steps as nat, micro as nat, streams(draws@)) is None
                    &&& final(self)@ == old(self)@.advanced(
                        macro_steps as nat,
                        micro as nat,
                        streams(draws@),
                    )
                },
                Err(SimError::InvalidParameter(p)) => {
                    &&& final(self)@ == old(self)@
                    &&& old(self)@.fault(macro_steps as nat, micro as nat, streams(draws@))
                        == Some(p)
                },
            },
    {
        match check_batch(macro_steps, micro) {
            Err(e) => {
                return Err(e);
            },
            Ok(()) => {},
        }
        let total: u64 = batch_total(macro_steps, micro);
        if !self.accepts(total, draws) {
            return Err(SimError::InvalidParameter(Parameter::Draws));
        }
        let ghost before = self@;
        let count = self.walkers.len();
        let mut i: usize = 0;
        while i < count
            invariant
                i <= count,
                count == self.walkers@.len(),
                count == before.walkers.len(),
                count == draws@.len(),
                micro >= 1,
                total == macro_steps as nat * micro as nat,
                before.wf(),
                before.has_room(total as nat),
                before.accepts(total as nat, streams(draws@)),
                self.config == before.config,
                forall|k: int|
                    0 <= k < i ==> (#[trigger] self.walkers@[k])@ == before.walkers[k].run(
                        macro_steps as nat,
                        micro as nat,
                        draws@[k]@,
                    ) && self.walkers@[k].wf(),
                forall|k: int| i <= k < count ==> (#[trigger] self.walkers@[k])@ == before.walkers[k],
            decreases count - i,
        {
            proof {
                assert(before.walkers[i as int].wf());
                assert(before.walkers[i as int].has_room(total as nat));
                assert(before.walkers[i as int].accepts(total as nat, streams(draws@)[i as int]));
            }
            self.walkers[i].advance_checked(macro_steps, micro, draws[i].as_slice());
            i = i + 1;
        }
        proof {
            assert(self@.walkers =~= before.advanced(
                macro_steps as nat,
                micro as nat,
                streams(draws@),
            ).walkers);
            assert forall|k: int| 0 <= k < count implies {
                &&& (#[trigger] self@.walkers[k]).wf()
                &&& self@.walkers[k].step_length == self@.config.step_length
                &&& self@.walkers[k].escape_radius == self@.config.escape_radius
            } by {
                assert(self.walkers@[k].wf());
                assert(before.walkers[k].wf());
                lemma_run_keeps_constants(
                    before.walkers[k],
                    macro_steps as nat,
                    micro as nat,
                    draws@[k]@,
                );
            }
            assert forall|k: int| 0 <= k < count implies {
                &&& (#[trigger] self@.walkers[k]).step_count >= before.walkers[k].step_count
                &&& before.walkers[k].escaped ==> self@.walkers[k] == before.walkers[k]
            } by {
                lemma_run_monotone(before.walkers[k], macro_steps as nat, micro as nat, draws@[k]@);
            }
        }
        Ok(())
    }

    /// Whether every walker's step counter has room for `count` more
    /// micro-steps.
    pub fn has_room(&self, count: u64) -> (r: bool)
        ensures
            r == self@.has_room(count as nat),
    {
        let mut i: usize = 0;
        while i < self.walkers.len()
            invariant
                i <= self.walkers@.len(),
                forall|k: int| 0 <= k < i ==> (#[trigger] self@.walkers[k]).has_room(count as nat),
            decreases self.walkers@.len() - i,
        {
            if !self.walkers[i].has_room(count) {
                assert(!self@.walkers[i as int].has_room(count as nat));
                return false;
            }
            i = i + 1;
        }
        true
    }

    /// Whether `draws` holds one stream per walker, each fit to feed
    /// `count` micro-steps of its walker.
    pub fn accepts(&self, count: u64, draws: &Vec<Vec<Vec3>>) -> (r: bool)
        ensures
            r == self@.accepts(count as nat, streams(draws@)),
    {
        if draws.len() != self.walkers.len() {
            return false;
        }
        let mut i: usize = 0;
        while i < self.walkers.len()
            invariant
                i <= self.walkers@.len(),
                draws@.len() == self.walkers@.len(),
                forall|k: int|
                    0 <= k < i ==> (#[trigger] self@.walkers[k]).accepts(
                        count as nat,
                        streams(draws@)[k],
                    ),
            decreases self.walkers@.len() - i,
        {
            if !self.walkers[i].accepts(count, draws[i].as_slice()) {
                assert(!self@.walkers[i as int].accepts(count as nat, streams(draws@)[i as int]));
                return false;
            }
            i = i + 1;
        }
        true
    }

    /// The configuration the engine was made with.
    pub fn config(&self) -> (r: SimConfig)
        ensures
            r == self@.config,
    {
        self.config
    }

    /// How many walkers have been spawned.
    pub fn walker_count(&self) -> (r: usize)
        ensures
            r == self@.walkers.len(),
    {
        self.walkers.len()
    }

    /// The walker that `id` names, if the engine has spawned it.
    pub fn walker(&self, id: WalkerId) -> (r: Option<&Walker>)
        ensures
            match r {
                Some(w) => id.index < self@.walkers.len() && w@ == self@.walkers[id.index as int],
                None => id.index >= self@.walkers.len(),
            },
    {
        if id.index < self.walkers.len() {
            Some(&self.walkers[id.index])
        } else {
            None
        }
    }

    /// How many micro-steps the walker that `id` names has taken; `None`
    /// when the engine has no such walker.
    pub fn step_count(&self, id: WalkerId) -> (r: Option<u64>)
        ensures
            match r {
                Some(n) => id.index < self@.walkers.len() && n
                    == self@.walkers[id.index as int].step_count,
                None => id.index >= self@.walkers.len(),
            },
    {
        match self.walker(id) {
            Some(w) => Some(w.step_count()),
            None => None,
        }
    }

    /// Whether the walker that `id` names has escaped; `None` when the
    /// engine has no such walker.
    pub fn is_escaped(&self, id: WalkerId) -> (r: Option<bool>)
        ensures
            match r {
                Some(b) => id.index < self@.walkers.len() && b
                    == self@.walkers[id.index as int].escaped,
                None => id.index >= self@.walkers.len(),
            },
    {
        match self.walker(id) {
            Some(w) => Some(w.is_escaped()),
            None => None,
        }
    }

    /// Every walker's segments: walker by walker in the order of spawning,
    /// each walker's oldest first.
    pub fn segments_snapshot(&self) -> (r: Vec<Segment>)
        ensures
            segment_views(r@) == self@.all_segments(),
    {
        let mut out: Vec<Segment> = Vec::new();
        let mut i: usize = 0;
        proof {
            assert(self@.walkers.take(0) =~= Seq::empty());
            assert(segment_views(out@) =~= Seq::empty());
        }
        while i < self.walkers.len()
            invariant
                i <= self.walkers@.len(),
                segment_views(out@) == segments_of(self@.walkers.take(i as int)),
            decreases self.walkers@.len() - i,
        {
            let segments = self.walkers[i].segments();
            let ghost done = segment_views(out@);
            let mut j: usize = 0;
            while j < segments.len()
                invariant
                    j <= segments@.len(),
                    segment_views(out@) == done + segment_views(segments@).take(j as int),
                decreases segments@.len() - j,
            {
                let ghost earlier = out@;
                out.push(segments[j]);
                proof {
                    let views = segment_views(segments@);
                    assert(segment_views(earlier).len() == done.len() + j);
                    assert forall|k: int| 0 <= k < out@.len() implies segment_views(out@)[k] == (
                    done + views.take(j + 1))[k] by {
                        if k < earlier.len() {
                            assert(segment_views(earlier)[k] == (done + views.take(j as int))[k]);
                        }
                    }
                    assert(segment_views(out@) =~= done + views.take(j + 1));
                }
                j = j + 1;
            }
            proof {
                let upto = self@.walkers.take(i + 1);
                assert(upto.drop_last() =~= self@.walkers.take(i as int));
                assert(upto.last() == self@.walkers[i as int]);
                assert(segment_views(segments@).take(j as int) =~= segment_views(segments@));
            }
            i = i + 1;
        }
        proof {
            assert(self@.walkers.take(i as int) =~= self@.walkers);
        }
        out
    }

    /// Every walker's marker position and escape flag, in the order of
    /// spawning.
    pub fn markers_snapshot(&self) -> (r: Vec<Marker>)
        ensures
            r@.len() == self@.walkers.len(),
            forall|i: int| 0 <= i < r@.len() ==> (#[trigger] r@[i])@ == self@.markers()[i],
    {
        let mut out: Vec<Marker> = Vec::new();
        let mut i: usize = 0;
        while i < self.walkers.len()
            invariant
                i <= self.walkers@.len(),
                out@.len() == i,
                forall|k: int| 0 <= k < i ==> (#[trigger] out@[k])@ == self@.markers()[k],
            decreases self.walkers@.len() - i,
        {
            let walker = &self.walkers[i];
            out.push(Marker { position: walker.marker_position(), escaped: walker.is_escaped() });
            i = i + 1;
        }
        out
    }
}

} // verus!
