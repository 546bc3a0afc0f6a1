//! One walker and the macro-step that moves it.

use vstd::prelude::*;
use vstd::slice::slice_subrange;
use crate::config::{
    batch_fault, check_batch, check_lengths, length_ok, lengths_fault,
};
use crate::error::{Parameter, SimError};
use crate::geometry::{
    lemma_coordinates_within, path_sum, segment_views, Point, Segment, Vec3,
};
use crate::model::{
    lemma_step_wf, lemma_steps_taken, lemma_steps_taken_exit, stays_inside,
    steps_taken, WalkerView,
};
use crate::tag::ColorTag;

verus! {

/// What one macro-step did.
#[derive(Clone, Copy, Debug, PartialEq, Eq, Structural)]
pub enum StepOutcome {
    /// The walker took all its micro-steps and is still inside: the path
    /// from `start` to `end` is its newest segment.
    Continued { start: Vec3, end: Vec3 },
    /// The walker stepped beyond the escape radius and stopped there.
    Escaped,
    /// The walker had escaped before; nothing was done.
    AlreadyEscaped,
}

impl StepOutcome {
    /// Whether the outcome is the one that goes with a macro-step from
    /// `before` to `after`: which of the three it is, and for a walker that
    /// continued, where the macro-step began and ended.
    pub open spec fn tells(self, before: WalkerView, after: WalkerView) -> bool {
        match self {
            StepOutcome::AlreadyEscaped => before.escaped,
            StepOutcome::Escaped => !before.escaped && after.escaped,
            StepOutcome::Continued { start, end } => {
                &&& !before.escaped
                &&& !after.escaped
                &&& start@ == before.position
                &&& end@ == after.position
            },
        }
    }
}

/// One simulated particle.
pub struct Walker {
    step_length: i64,
    escape_radius: i64,
    tag: ColorTag,
    position: Vec3,
    escaped: bool,
    step_count: u64,
    segments: Vec<Segment>,
    marker_position: Vec3,
    path: Ghost<Seq<Vec3>>,
}

impl View for Walker {
    type V = WalkerView;

    closed spec fn view(&self) -> WalkerView {
        WalkerView {
            step_length: self.step_length as int,
            escape_radius: self.escape_radius as int,
            tag: self.tag,
            position: self.position@,
            escaped: self.escaped,
            step_count: self.step_count as nat,
            segments: segment_views(self.segments@),
            marker_position: self.marker_position@,
            path: self.path@,
        }
    }
}

/// What is wrong with a call that asks a walker for `macro_steps`
/// macro-steps of `micro` micro-steps fed from `draws`: the batch sizes
/// first, then the displacements.
pub open spec fn call_fault(w: WalkerView, macro_steps: nat, micro: nat, draws: Seq<Vec3>) -> Option<
    Parameter,
> {
    if batch_fault(macro_steps as int, micro as int) is Some {
        batch_fault(macro_steps as int, micro as int)
    } else if !w.accepts(macro_steps * micro, draws) {
        Some(Parameter::Draws)
    } else {
        None
    }
}

/// The number of micro-steps that a full batch takes.
pub fn batch_total(macro_steps: u32, micro: u32) -> (total: u64)
    ensures
        total == macro_steps as nat * micro as nat,
{
    assert(macro_steps as nat * micro as nat <= u64::MAX) by (nonlinear_arith)
        requires
            macro_steps <= u32::MAX,
            micro <= u32::MAX,
    ;
    macro_steps as u64 * micro as u64
}

impl Walker {
    /// The invariant of every walker: see [`WalkerView::wf`].
    pub open spec fn wf(&self) -> bool {
        self@.wf()
    }

    /// A walker at the origin, made with lengths that were checked before.
    pub(crate) fn fresh(step_length: i64, escape_radius: i64, tag: ColorTag) -> (w: Walker)
        requires
            length_ok(step_length as int),
            length_ok(escape_radius as int),
        ensures
            w.wf(),
            w@ == WalkerView::fresh(step_length as int, escape_radius as int, tag),
    {
        let w = Walker {
            step_length,
            escape_radius,
            tag,
            position: Vec3::origin(),
            escaped: false,
            step_count: 0,
            segments: Vec::new(),
            marker_position: Vec3::origin(),
            path: Ghost(Seq::empty()),
        };
        assert(w@.segments =~= Seq::empty());
        assert(!Point::origin().beyond(escape_radius as int)) by (nonlinear_arith)
            requires
                escape_radius >= 0,
        ;
        w
    }

    /// A walker at the origin that has not moved yet. The lengths are
    /// checked, the step length first.
    pub fn new(step_length: i64, escape_radius: i64, tag: ColorTag) -> (r: Result<Walker, SimError>)
        ensures
            match r {
                Ok(w) => {
                    &&& lengths_fault(step_length as int, escape_radius as int) is None
                    &&& w.wf()
                    &&& w@ == WalkerView::fresh(step_length as int, escape_radius as int, tag)
                },
                Err(SimError::InvalidParameter(p)) => lengths_fault(
                    step_length as int,
                    escape_radius as int,
                ) == Some(p),
            },
    {
        match check_lengths(step_length, escape_radius) {
            Err(e) => Err(e),
            Ok(()) => Ok(Walker::fresh(step_length, escape_radius, tag)),
        }
    }

    /// Whether `draws` can feed `count` micro-steps of this walker.
    pub fn accepts(&self, count: u64, draws: &[Vec3]) -> (r: bool)
        ensures
            r == self@.accepts(count as nat, draws@),
    {
        if self.escaped {
            return true;
        }
        if (draws.len() as u64) < count {
            return false;
        }
        let mut j: usize = 0;
        while (j as u64) < count
            invariant
                !self.escaped,
                j <= count <= draws@.len(),
                forall|i: int| 0 <= i < j ==> !(#[trigger] draws@[i])@.beyond(self.step_length as int),
            decreases count - j,
        {
            if draws[j].is_beyond(self.step_length) {
                assert(draws@[j as int]@.beyond(self.step_length as int));
                return false;
            }
            j += 1;
        }
        true
    }

    /// Whether the step counter has room for `count` more micro-steps.
    pub fn has_room(&self, count: u64) -> (r: bool)
        ensures
            r == self@.has_room(count as nat),
    {
        self.escaped || count <= u64::MAX - self.step_count
    }

    /// One macro-step on displacements that were checked before.
    pub(crate) fn step_checked(&mut self, micro: u32, draws: &[Vec3]) -> (outcome: StepOutcome)
        requires
            old(self).wf(),
            micro >= 1,
            old(self)@.accepts(micro as nat, draws@),
            old(self)@.has_room(micro as nat),
        ensures
            final(self).wf(),
            final(self)@ == old(self)@.step(micro as nat, draws@),
            outcome.tells(old(self)@, final(self)@),
    {
        if self.escaped {
            return StepOutcome::AlreadyEscaped;
        }
        let ghost before = self@;
        let ghost radius = self.escape_radius as int;
        let start = self.position;
        let mut taken: u32 = 0;
        while taken < micro && !self.escaped
            invariant
                taken <= micro <= draws@.len(),
                before == old(self)@,
                before.wf(),
                !before.escaped,
                before.accepts(micro as nat, draws@),
                before.step_count + micro <= u64::MAX,
                radius == before.escape_radius,
                start@ == before.position,
                self.step_length == before.step_length,
                self.escape_radius == before.escape_radius,
                self.tag == before.tag,
                self.segments@ == old(self).segments@,
                self.marker_position@ == before.marker_position,
                self.step_count == before.step_count + taken,
                self.position@ == before.position.plus(path_sum(draws@, taken as int)),
                self.path@ == before.path + draws@.take(taken as int),
                self.escaped == self.position@.beyond(radius),
                self.escaped ==> taken >= 1,
                stays_inside(
                    before.position,
                    radius,
                    draws@,
                    if self.escaped {
                        taken - 1
                    } else {
                        taken as int
                    },
                ),
            decreases micro - taken + if self.escaped { 0int } else { 1int },
        {
            let step = draws[taken as usize];
            proof {
                lemma_coordinates_within(self.position@, radius);
                lemma_coordinates_within(step@, self.step_length as int);
                assert(draws@.take(taken + 1) =~= draws@.take(taken as int).push(step));
            }
            self.position = self.position.moved_by(&step);
            self.step_count = self.step_count + 1;
            self.path = Ghost(self.path@.push(step));
            if self.position.is_beyond(self.escape_radius) {
                self.escaped = true;
            }
            taken = taken + 1;
        }
        proof {
            if self.escaped {
                lemma_steps_taken_exit(before.position, radius, draws@, taken as nat, micro as nat);
            } else {
                lemma_steps_taken(before.position, radius, draws@, micro as nat);
            }
            assert(steps_taken(before.position, radius, draws@, micro as nat) == taken);
            lemma_step_wf(before, micro as nat, draws@);
        }
        if self.escaped {
            StepOutcome::Escaped
        } else {
            let end = self.position;
            self.segments.push(Segment { start, end });
            self.marker_position = end;
            proof {
                assert(segment_views(self.segments@) =~= before.segments.push(
                    (Segment { start, end })@,
                ));
            }
            StepOutcome::Continued { start, end }
        }
    }

    /// A run of macro-steps on displacements that were checked before.
    pub(crate) fn advance_checked(&mut self, macro_steps: u32, micro: u32, draws: &[Vec3])
        requires
            old(self).wf(),
            micro >= 1,
            old(self)@.accepts(macro_steps as nat * micro as nat, draws@),
            old(self)@.has_room(macro_steps as nat * micro as nat),
        ensures
            final(self).wf(),
            final(self)@ == old(self)@.run(macro_steps as nat, micro as nat, draws@),
    {
        let ghost goal = self@.run(macro_steps as nat, micro as nat, draws@);
        let mut done: u32 = 0;
        let mut offset: usize = 0;
        proof {
            assert(draws@.skip(0) =~= draws@);
        }
        while done < macro_steps && !self.escaped
            invariant
                done <= macro_steps,
                micro >= 1,
                offset <= draws@.len(),
                self.wf(),
                self@.accepts((macro_steps - done) as nat * micro as nat, draws@.skip(offset as int)),
                self@.has_room((macro_steps - done) as nat * micro as nat),
                self@.run((macro_steps - done) as nat, micro as nat, draws@.skip(offset as int))
                    == goal,
            decreases macro_steps - done,
        {
            let ghost left = (macro_steps - done) as nat;
            let ghost here = self@;
            let ghost ahead = draws@.skip(offset as int);
            proof {
                assert(left * micro == (left - 1) * micro + micro && (left - 1) * micro >= 0)
                    by (nonlinear_arith)
                    requires
                        left >= 1,
                ;
                lemma_steps_taken(here.position, here.escape_radius, ahead, micro as nat);
            }
            let rest = slice_subrange(draws, offset, draws.len());
            assert(rest@ =~= ahead);
            self.step_checked(micro, rest);
            done = done + 1;
            if !self.escaped {
                offset = offset + micro as usize;
            }
            proof {
                assert(here.run(left, micro as nat, ahead) == self@.run(
                    (left - 1) as nat,
                    micro as nat,
                    ahead.skip(micro as int),
                ));
                if !self@.escaped {
                    assert(ahead.skip(micro as int) =~= draws@.skip(offset as int));
                    assert forall|j: int| 0 <= j < (left - 1) * micro implies !(
                    #[trigger] draws@.skip(offset as int)[j])@.beyond(self@.step_length) by {
                        assert(draws@.skip(offset as int)[j] == ahead[j + micro]);
                    }
                }
            }
        }
    }

    /// Takes one macro-step of up to `micro` micro-steps, fed from the
    /// front of `draws`. The call is refused, and the walker left as it is,
    /// when `micro` is zero or when a walker that has not escaped is handed
    /// fewer than `micro` displacements or one longer than its step length.
    /// The step counter must have room for `micro` steps, which `has_room`
    /// tells.
    pub fn step(&mut self, micro: u32, draws: &[Vec3]) -> (r: Result<StepOutcome, SimError>)
        requires
            old(self).wf(),
            old(self)@.has_room(micro as nat),
        ensures
            final(self).wf(),
            match r {
                Ok(outcome) => {
                    &&& call_fault(old(self)@, 1, micro as nat, draws@) is None
                    &&& final(self)@ == old(self)@.step(micro as nat, draws@)
                    &&& outcome.tells(old(self)@, final(self)@)
                },
                Err(SimError::InvalidParameter(p)) => {
                    &&& final(self)@ == old(self)@
                    &&& call_fault(old(self)@, 1, micro as nat, draws@) == Some(p)
                },
            },
    {
        if micro == 0 {
            return Err(SimError::InvalidParameter(Parameter::MicroSteps));
        }
        if !self.accepts(micro as u64, draws) {
            return Err(SimError::InvalidParameter(Parameter::Draws));
        }
        Ok(self.step_checked(micro, draws))
    }

    /// Takes up to `macro_steps` macro-steps of up to `micro` micro-steps
    /// each, fed from `draws` in order, and stops early once the walker has
    /// escaped. The call is refused, and the walker left as it is, when a
    /// batch size is zero or when a walker that has not escaped is handed
    /// fewer than `macro_steps * micro` displacements or, among those, one
    /// longer than its step length. The step counter must have room for the
    /// batch, which `has_room` tells.
    pub fn advance(&mut self, macro_steps: u32, micro: u32, draws: &[Vec3]) -> (r: Result<
        (),
        SimError,
    >)
        requires
            old(self).wf(),
            old(self)@.has_room(macro_steps as nat * micro as nat),
        ensures
            final(self).wf(),
            match r {
                Ok(()) => {
                    &&& call_fault(old(self)@, macro_steps as nat, micro as nat, draws@) is None
                    &&& final(self)@ == old(self)@.run(macro_steps as nat, micro as nat, draws@)
                },
                Err(SimError::InvalidParameter(p)) => {
                    &&& final(self)@ == old(self)@
                    &&& call_fault(old(self)@, macro_steps as nat, micro as nat, draws@) == Some(p)
                },
            },
    {
        match check_batch(macro_steps, micro) {
            Err(e) => {
                return Err(e);
            },
            Ok(()) => {},
        }
        let total: u64 = batch_total(macro_steps, micro);
        if !self.accepts(total, draws) {
            return Err(SimError::InvalidParameter(Parameter::Draws));
        }
        self.advance_checked(macro_steps, micro, draws);
        Ok(())
    }

    /// The greatest length of one micro-step.
    pub fn step_length(&self) -> (r: i64)
        ensures
            r == self@.step_length,
    {
        self.step_length
    }

    /// The radius beyond which the walker has escaped.
    pub fn escape_radius(&self) -> (r: i64)
        ensures
            r == self@.escape_radius,
    {
        self.escape_radius
    }

    /// The cosmetic tag the walker was made with.
    pub fn tag(&self) -> (r: ColorTag)
        ensures
            r == self@.tag,
    {
        self.tag
    }

    /// Where the walker stands.
    pub fn position(&self) -> (r: Vec3)
        ensures
            r@ == self@.position,
    {
        self.position
    }

    /// Whether the walker has stepped beyond the escape radius.
    pub fn is_escaped(&self) -> (r: bool)
        ensures
            r == self@.escaped,
    {
        self.escaped
    }

    /// How many micro-steps the walker has taken.
    pub fn step_count(&self) -> (r: u64)
        ensures
            r == self@.step_count,
    {
        self.step_count
    }

    /// The segments of the completed macro-steps, oldest first.
    pub fn segments(&self) -> (r: &Vec<Segment>)
        ensures
            segment_views(r@) == self@.segments,
    {
        &self.segments
    }

    /// Where the marker stands: at the end of the last completed
    /// macro-step.
    pub fn marker_position(&self) -> (r: Vec3)
        ensures
            r@ == self@.marker_position,
    {
        self.marker_position
    }
}

} // verus!
