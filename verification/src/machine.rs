//! What a machine answers.

use vstd::prelude::*;

verus! {

/// Where a step leads.
#[derive(Debug, PartialEq, Eq)]
pub enum Transition<Step, Interrupt, Output> {
    /// To another step.
    Next(Step),
    /// To an interrupt, to be resumed from.
    Interrupt(Interrupt),
    /// To the end.
    Complete(Output),
}

/// How a machine goes on after an interrupt.
#[derive(Debug, PartialEq, Eq)]
pub enum ResumeAction<Step> {
    /// With the step that was interrupted.
    ReenterInterruptedStep,
    /// With another step.
    JumpTo(Step),
}

} // verus!
