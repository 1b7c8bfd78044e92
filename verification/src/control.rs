//! Accept/reject/stall control of the adaptive integrator.
//!
//! One attempt of the embedded Runge-Kutta stepper ends in a host-side
//! decision: the step is accepted (commit the new state to the
//! trajectory, stop once the end of the interval is reached) or
//! rejected (retry the same time with the shrunken step size).  The
//! floating-point work lives outside this crate; the controller owns
//! the decision structure, and in particular the defence against a
//! step size that collapses under repeated rejection: after
//! `max_rejects` consecutive rejections the run is declared stalled
//! instead of looping forever.

use vstd::prelude::*;

use crate::errors::EngineError;

verus! {

/// Tolerance-control mode of the integrator: scalar norm control, or
/// worst-component control (the default).
#[derive(Clone, Copy, Debug, PartialEq, Eq, Structural)]
pub enum ControlMode {
    Norm,
    Component,
}

/// What the driver must do after a step attempt.
#[derive(Clone, Copy, Debug, PartialEq, Eq, Structural)]
pub enum StepDecision {
    /// The step was accepted: advance time, commit `(t, X, k)` to the
    /// trajectory, reuse the last stage derivative as the next first
    /// stage, and keep stepping.
    Commit,
    /// The step was accepted and the end of the interval is reached:
    /// commit and stop.
    Finish,
    /// The step was rejected: keep `(t, X)`, commit nothing, and retry
    /// with the smaller step size.
    Retry,
}

/// Decision state of one integration run.
pub struct StepController {
    /// Consecutive rejected attempts since the last accepted step.
    pub rejects_in_a_row: usize,
    /// Bound at which a run of consecutive rejections is declared
    /// stalled.
    pub max_rejects: usize,
    /// Accepted steps so far — equals the number of samples committed
    /// to the trajectory.
    pub accepted_steps: usize,
}

impl StepController {
    /// A live controller: the rejection bound is positive and has not
    /// been reached.  A stalled controller is no longer live.
    pub open spec fn wf(self) -> bool {
        1 <= self.max_rejects && self.rejects_in_a_row < self.max_rejects
    }

    /// The decision for one attempt.  `accepted` is the host-side test
    /// `nerr < tol`; `reached_end` is the test `t >= t_end` after the
    /// accepted advance (ignored for a rejected attempt).
    pub open spec fn spec_decision(self, accepted: bool, reached_end: bool) -> Result<
        StepDecision,
        EngineError,
    > {
        if accepted {
            if reached_end {
                Ok(StepDecision::Finish)
            } else {
                Ok(StepDecision::Commit)
            }
        } else if self.rejects_in_a_row + 1 >= self.max_rejects {
            Err(EngineError::IntegrationStalled)
        } else {
            Ok(StepDecision::Retry)
        }
    }

    /// The controller state after one attempt: acceptance commits a
    /// step and clears the rejection run, rejection lengthens it.
    pub open spec fn spec_step(self, accepted: bool) -> StepController {
        if accepted {
            StepController {
                rejects_in_a_row: 0,
                accepted_steps: (self.accepted_steps + 1) as usize,
                ..self
            }
        } else {
            StepController { rejects_in_a_row: (self.rejects_in_a_row + 1) as usize, ..self }
        }
    }

    /// The controller state after `n` further consecutive rejections.
    pub open spec fn after_rejections(self, n: nat) -> StepController
        decreases n,
    {
        if n == 0 {
            self
        } else {
            self.after_rejections((n - 1) as nat).spec_step(false)
        }
    }

    /// The controller for a fresh run.
    pub fn new(max_rejects: usize) -> (c: StepController)
        requires
            1 <= max_rejects,
        ensures
            c.wf(),
            c == (StepController { rejects_in_a_row: 0, max_rejects, accepted_steps: 0 }),
    {
        StepController { rejects_in_a_row: 0, max_rejects, accepted_steps: 0 }
    }

    /// Registers the outcome of one step attempt and decides how the
    /// run goes on.  Rejections commit nothing; the attempt that
    /// reaches the rejection bound surfaces `IntegrationStalled`
    /// instead of asking for yet another retry.
    pub fn on_attempt(&mut self, accepted: bool, reached_end: bool) -> (decision: Result<
        StepDecision,
        EngineError,
    >)
        requires
            old(self).wf(),
            old(self).accepted_steps < usize::MAX,
        ensures
            decision == old(self).spec_decision(accepted, reached_end),
            *final(self) == old(self).spec_step(accepted),
            final(self).max_rejects == old(self).max_rejects,
            accepted ==> final(self).wf() && final(self).rejects_in_a_row == 0
                && final(self).accepted_steps == old(self).accepted_steps + 1,
            !accepted ==> final(self).rejects_in_a_row == old(self).rejects_in_a_row + 1
                && final(self).accepted_steps == old(self).accepted_steps,
            decision is Ok ==> final(self).wf(),
            decision is Err <==> !accepted && old(self).rejects_in_a_row + 1 >= old(
                self,
            ).max_rejects,
            decision is Err ==> decision == Err::<StepDecision, EngineError>(
                EngineError::IntegrationStalled,
            ),
    {
        if accepted {
            self.rejects_in_a_row = 0;
            self.accepted_steps = self.accepted_steps + 1;
            if reached_end {
                Ok(StepDecision::Finish)
            } else {
                Ok(StepDecision::Commit)
            }
        } else {
            self.rejects_in_a_row = self.rejects_in_a_row + 1;
            if self.rejects_in_a_row >= self.max_rejects {
                Err(EngineError::IntegrationStalled)
            } else {
                Ok(StepDecision::Retry)
            }
        }
    }
}

/// One integration run: the decision state together with the
/// accumulated trajectory.  Scalars are held as opaque 32-bit words,
/// the bit patterns of the driver's floats; the run never reads them.
pub struct IntegrationRun {
    pub controller: StepController,
    /// Time samples of the accepted steps.
    pub times: Vec<u32>,
    /// State samples of the accepted steps.
    pub states: Vec<Vec<u32>>,
    /// Derivative samples of the accepted steps.
    pub derivs: Vec<Vec<u32>>,
}

impl IntegrationRun {
    /// The trajectory holds exactly one sample per accepted step.
    pub open spec fn wf(self) -> bool {
        &&& self.times@.len() == self.controller.accepted_steps
        &&& self.states@.len() == self.controller.accepted_steps
        &&& self.derivs@.len() == self.controller.accepted_steps
    }

    /// A fresh run: no samples, a whole rejection budget.
    pub fn new(max_rejects: usize) -> (run: IntegrationRun)
        requires
            1 <= max_rejects,
        ensures
            run.wf(),
            run.controller.wf(),
            run.controller == (StepController {
                rejects_in_a_row: 0,
                max_rejects,
                accepted_steps: 0,
            }),
            run.times@.len() == 0,
    {
        IntegrationRun {
            controller: StepController::new(max_rejects),
            times: Vec::new(),
            states: Vec::new(),
            derivs: Vec::new(),
        }
    }

    /// Registers one step attempt with the sample it produced.  An
    /// accepted attempt commits exactly that sample to the trajectory;
    /// a rejected attempt — including the one that stalls the run —
    /// commits nothing, so no partial state ever reaches the caller.
    pub fn on_attempt(
        &mut self,
        accepted: bool,
        reached_end: bool,
        t: u32,
        x: Vec<u32>,
        k: Vec<u32>,
    ) -> (decision: Result<StepDecision, EngineError>)
        requires
            old(self).wf(),
            old(self).controller.wf(),
            old(self).controller.accepted_steps < usize::MAX,
        ensures
            final(self).wf(),
            decision == old(self).controller.spec_decision(accepted, reached_end),
            final(self).controller == old(self).controller.spec_step(accepted),
            accepted ==> final(self).times@ == old(self).times@.push(t) && final(self).states@
                == old(self).states@.push(x) && final(self).derivs@ == old(self).derivs@.push(k),
            !accepted ==> final(self).times@ == old(self).times@ && final(self).states@ == old(
                self,
            ).states@ && final(self).derivs@ == old(self).derivs@,
            decision is Ok ==> final(self).controller.wf(),
            decision is Err ==> decision == Err::<StepDecision, EngineError>(
                EngineError::IntegrationStalled,
            ),
    {
        if accepted {
            self.times.push(t);
            self.states.push(x);
            self.derivs.push(k);
        }
        self.controller.on_attempt(accepted, reached_end)
    }
}

/// Index of the worst-offending component, under component control:
/// the driver maps each component's `absErr - max(absTol, atol)` to an
/// order-preserving key, and the tolerance and error scalars of the
/// selected component alone decide acceptance.  Ties break to the
/// lowest index, so runs are reproducible.
pub fn worst_component(keys: &Vec<u64>) -> (idx: usize)
    requires
        keys@.len() >= 1,
    ensures
        idx < keys@.len(),
        forall|i: int| 0 <= i < keys@.len() ==> keys@[i] <= keys@[idx as int],
        forall|i: int| 0 <= i < idx ==> keys@[i] < keys@[idx as int],
{
    let mut best: usize = 0;
    for i in 1..keys.len()
        invariant
            keys@.len() >= 1,
            best < i <= keys@.len(),
            forall|j: int| 0 <= j < i ==> keys@[j] <= keys@[best as int],
            forall|j: int| 0 <= j < best ==> keys@[j] < keys@[best as int],
    {
        if keys[i] > keys[best] {
            best = i;
        }
    }
    best
}

proof fn lemma_after_rejections_state(c: StepController, n: nat)
    requires
        c.rejects_in_a_row + n <= c.max_rejects,
    ensures
        c.after_rejections(n).rejects_in_a_row == c.rejects_in_a_row + n,
        c.after_rejections(n).max_rejects == c.max_rejects,
        c.after_rejections(n).accepted_steps == c.accepted_steps,
    decreases n,
{
    if n > 0 {
        lemma_after_rejections_state(c, (n - 1) as nat);
    }
}

/// Stall law: a run in which no attempt is ever accepted ends after a
/// bounded number of attempts.  Each of the first
/// `max_rejects - rejects_in_a_row - 1` further rejections still
/// answers `Retry`, and the rejection that reaches the bound answers
/// `IntegrationStalled` — the driver can never be asked to retry
/// forever.
pub proof fn lemma_rejection_stalls(c: StepController, reached_end: bool)
    requires
        c.wf(),
    ensures
        forall|n: nat|
            c.rejects_in_a_row + n + 1 < c.max_rejects ==> #[trigger] c.after_rejections(
                n,
            ).spec_decision(false, reached_end) == Ok::<StepDecision, EngineError>(
                StepDecision::Retry,
            ),
        c.after_rejections((c.max_rejects - c.rejects_in_a_row - 1) as nat).spec_decision(
            false,
            reached_end,
        ) == Err::<StepDecision, EngineError>(EngineError::IntegrationStalled),
{
    assert forall|n: nat| c.rejects_in_a_row + n + 1 < c.max_rejects implies #[trigger] c
        .after_rejections(n).spec_decision(false, reached_end) == Ok::<StepDecision, EngineError>(
        StepDecision::Retry,
    ) by {
        lemma_after_rejections_state(c, n);
    }
    lemma_after_rejections_state(c, (c.max_rejects - c.rejects_in_a_row - 1) as nat);
}

} // verus!
