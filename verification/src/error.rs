//! The one class of failure: a parameter that cannot be worked with.

use vstd::prelude::*;

verus! {

/// The parameter that a call was refused for.
#[derive(Clone, Copy, Debug, PartialEq, Eq, Structural)]
pub enum Parameter {
    /// The step length is negative or above the largest length.
    StepLength,
    /// The escape radius is negative or above the largest length.
    EscapeRadius,
    /// The number of macro-steps per call is zero.
    MacroSteps,
    /// The number of micro-steps per macro-step is zero.
    MicroSteps,
    /// The displacements handed in do not cover the call: a stream is
    /// missing or too short, or holds a displacement longer than the step
    /// length.
    Draws,
}

/// Why a call was refused. A refused call changes nothing.
#[derive(Clone, Copy, Debug, PartialEq, Eq, Structural)]
pub enum SimError {
    InvalidParameter(Parameter),
}

} // verus!
