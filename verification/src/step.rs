//! The pipeline step abstraction: every node consumes batches of its input
//! type and produces batches of its output type, and two steps compose into
//! one whose input is the first's and whose output is the second's.
use vstd::prelude::*;

verus! {

/// Two steps composed: feeds the first step's output to the second.
pub struct AsyncStepConnector<FirstStep, SecondStep> {
    pub first_step: FirstStep,
    pub second_step: SecondStep,
}

/// A pipeline node: processes one batch of input items into a batch of
/// output items. Implementations choose what processing means; the runtime
/// only moves batches between them.
pub trait AsyncStep where Self: Sized {
    type Input;

    type Output;

    /// Processes a batch of input items and returns a batch of output items.
    fn process(&mut self, items: Vec<Self::Input>) -> Vec<Self::Output>;
}

/// Composes a step with the one consuming its output. Composition is
/// associative at the type level: the result is itself a step.
pub fn connect<FirstStep: AsyncStep, NextStep: AsyncStep<Input = FirstStep::Output>>(
    step: FirstStep,
    next_step: NextStep,
) -> (r: AsyncStepConnector<FirstStep, NextStep>)
    ensures
        r.first_step == step,
        r.second_step == next_step,
{
    AsyncStepConnector { first_step: step, second_step: next_step }
}

impl<FirstStep: AsyncStep, SecondStep: AsyncStep<Input = FirstStep::Output>> AsyncStep
    for AsyncStepConnector<FirstStep, SecondStep> {
    type Input = FirstStep::Input;

    type Output = SecondStep::Output;

    fn process(&mut self, items: Vec<Self::Input>) -> Vec<Self::Output> {
        let intermediate = self.first_step.process(items);
        self.second_step.process(intermediate)
    }
}

/// A step with a timer-driven side-effect path besides (or instead of)
/// input-driven processing: trackers, batchers, timers.
pub trait PollableAsyncStep where Self: AsyncStep {
    /// Returns the duration between poll attempts.
    fn poll_interval(&self) -> core::time::Duration;

    /// Polls internal state and returns a batch of output items if one is
    /// ready.
    fn poll(&mut self) -> Option<Vec<<Self as AsyncStep>::Output>>;
}

} // verus!
