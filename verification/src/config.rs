//! Simulation constants and their validation.

use vstd::prelude::*;
use crate::error::{Parameter, SimError};
use crate::geometry::MAX_LENGTH;

verus! {

/// Whether `length` can serve as a step length or an escape radius.
pub open spec fn length_ok(length: int) -> bool {
    0 <= length <= MAX_LENGTH
}

/// What is wrong with a pair of lengths, the step length being looked at
/// first.
pub open spec fn lengths_fault(step_length: int, escape_radius: int) -> Option<Parameter> {
    if !length_ok(step_length) {
        Some(Parameter::StepLength)
    } else if !length_ok(escape_radius) {
        Some(Parameter::EscapeRadius)
    } else {
        None
    }
}

/// What is wrong with a pair of batch sizes, the macro-step count being
/// looked at first.
pub open spec fn batch_fault(macro_steps: int, micro_steps: int) -> Option<Parameter> {
    if macro_steps == 0 {
        Some(Parameter::MacroSteps)
    } else if micro_steps == 0 {
        Some(Parameter::MicroSteps)
    } else {
        None
    }
}

/// Checks a step length and an escape radius.
pub fn check_lengths(step_length: i64, escape_radius: i64) -> (r: Result<(), SimError>)
    ensures
        match r {
            Ok(()) => lengths_fault(step_length as int, escape_radius as int) is None,
            Err(SimError::InvalidParameter(p)) => lengths_fault(
                step_length as int,
                escape_radius as int,
            ) == Some(p),
        },
{
    if step_length < 0 || step_length > MAX_LENGTH {
        Err(SimError::InvalidParameter(Parameter::StepLength))
    } else if escape_radius < 0 || escape_radius > MAX_LENGTH {
        Err(SimError::InvalidParameter(Parameter::EscapeRadius))
    } else {
        Ok(())
    }
}

/// Checks the batch sizes of one call.
pub fn check_batch(macro_steps: u32, micro_steps: u32) -> (r: Result<(), SimError>)
    ensures
        match r {
            Ok(()) => batch_fault(macro_steps as int, micro_steps as int) is None,
            Err(SimError::InvalidParameter(p)) => batch_fault(
                macro_steps as int,
                micro_steps as int,
            ) == Some(p),
        },
{
    if macro_steps == 0 {
        Err(SimError::InvalidParameter(Parameter::MacroSteps))
    } else if micro_steps == 0 {
        Err(SimError::InvalidParameter(Parameter::MicroSteps))
    } else {
        Ok(())
    }
}

/// The constants of a simulation, in lattice units, with the batch sizes
/// that a caller starts out with.
#[derive(Clone, Copy, Debug, PartialEq, Eq, Structural)]
pub struct SimConfig {
    /// The greatest length of one micro-step.
    pub step_length: i64,
    /// The radius of the sphere that a walker has to leave.
    pub escape_radius: i64,
    /// How many macro-steps a call of `advance` takes unless told otherwise.
    pub macro_steps_per_call: u32,
    /// How many micro-steps make up a macro-step unless told otherwise.
    pub micro_steps_per_macro: u32,
}

impl SimConfig {
    /// What is wrong with the configuration: the lengths first, then the
    /// batch sizes.
    pub open spec fn fault(self) -> Option<Parameter> {
        if lengths_fault(self.step_length as int, self.escape_radius as int) is Some {
            lengths_fault(self.step_length as int, self.escape_radius as int)
        } else {
            batch_fault(self.macro_steps_per_call as int, self.micro_steps_per_macro as int)
        }
    }

    pub open spec fn valid(self) -> bool {
        self.fault() is None
    }

    /// Checks the configuration, reporting the first parameter at fault.
    pub fn check(&self) -> (r: Result<(), SimError>)
        ensures
            match r {
                Ok(()) => self.fault() is None,
                Err(SimError::InvalidParameter(p)) => self.fault() == Some(p),
            },
    {
        match check_lengths(self.step_length, self.escape_radius) {
            Err(e) => Err(e),
            Ok(()) => check_batch(self.macro_steps_per_call, self.micro_steps_per_macro),
        }
    }
}

} // verus!
