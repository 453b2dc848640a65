//! The pipeline coordinator's control logic.
//!
//! The coordinator owns the lifecycle of one run: it waits until every stage
//! thread exists and every channel is wired, sets the shared go flag so all
//! workers start in lockstep, polls the running skyline count, clears the
//! flag once the count reaches the expected size, and has every thread
//! joined. The driving loop performs the actions (it owns the flag, the
//! channels and the threads) and hands each observation back as an event.

use vstd::prelude::*;

verus! {

/// The lifecycle of one pipelined run.
#[derive(Clone, Copy, PartialEq, Eq, Structural, Debug)]
pub enum CoordinatorPhase {
    /// Channels are being wired; no worker computes yet.
    Idle,
    /// The go flag is set; workers drain their operators.
    Running,
    /// The go flag is cleared; workers may still finish a pass.
    Draining,
    /// Every worker thread has been joined.
    Stopped,
}

/// One observation handed to the coordinator.
#[derive(Clone, Copy, PartialEq, Eq, Structural, Debug)]
pub enum CoordinatorEvent {
    /// Every stage thread exists and every channel is wired.
    WorkersReady,
    /// The aggregation stage reported a running skyline count.
    CountObserved(usize),
    /// Every stage thread has been joined.
    WorkersJoined,
}

/// What the driving loop must do next.
#[derive(Clone, Copy, PartialEq, Eq, Structural, Debug)]
pub enum CoordinatorAction {
    /// Set the shared go flag: every worker leaves its startup spin at once.
    SignalStart,
    /// Clear the shared go flag and join every worker thread.
    SignalStop,
    /// Keep polling the count stream.
    KeepPolling,
    /// The run is over.
    Finished,
}

/// The transition table of the coordinator: from a phase and an event to
/// the next phase and the action owed.
pub open spec fn coordinator_transition(
    phase: CoordinatorPhase,
    event: CoordinatorEvent,
    expected: usize,
) -> (CoordinatorPhase, CoordinatorAction) {
    match (phase, event) {
        (CoordinatorPhase::Idle, CoordinatorEvent::WorkersReady) => (
            CoordinatorPhase::Running,
            CoordinatorAction::SignalStart,
        ),
        (CoordinatorPhase::Running, CoordinatorEvent::CountObserved(c)) => if c >= expected {
            (CoordinatorPhase::Draining, CoordinatorAction::SignalStop)
        } else {
            (CoordinatorPhase::Running, CoordinatorAction::KeepPolling)
        },
        (CoordinatorPhase::Draining, CoordinatorEvent::WorkersJoined) => (
            CoordinatorPhase::Stopped,
            CoordinatorAction::Finished,
        ),
        (CoordinatorPhase::Stopped, _) => (CoordinatorPhase::Stopped, CoordinatorAction::Finished),
        (p, _) => (p, CoordinatorAction::KeepPolling),
    }
}

/// The coordinator of one run: the current phase and the expected skyline
/// size it uses as its termination oracle.
pub struct PipelineCoordinator {
    pub phase: CoordinatorPhase,
    pub expected_count: usize,
}

impl PipelineCoordinator {
    /// A coordinator for a run expected to reach `expected_count` skyline
    /// placements.
    pub fn new(expected_count: usize) -> (r: Self)
        ensures
            r.phase == CoordinatorPhase::Idle,
            r.expected_count == expected_count,
    {
        PipelineCoordinator { phase: CoordinatorPhase::Idle, expected_count }
    }

    /// Takes one observation and decides the next action, moving the phase
    /// exactly as the transition table prescribes.
    pub fn step(&mut self, event: CoordinatorEvent) -> (action: CoordinatorAction)
        ensures
            final(self).expected_count == old(self).expected_count,
            (final(self).phase, action) == coordinator_transition(
                old(self).phase,
                event,
                old(self).expected_count,
            ),
    {
        match (self.phase, event) {
            (CoordinatorPhase::Idle, CoordinatorEvent::WorkersReady) => {
                self.phase = CoordinatorPhase::Running;
                CoordinatorAction::SignalStart
            },
            (CoordinatorPhase::Running, CoordinatorEvent::CountObserved(c)) => {
                if c >= self.expected_count {
                    self.phase = CoordinatorPhase::Draining;
                    CoordinatorAction::SignalStop
                } else {
                    CoordinatorAction::KeepPolling
                }
            },
            (CoordinatorPhase::Draining, CoordinatorEvent::WorkersJoined) => {
                self.phase = CoordinatorPhase::Stopped;
                CoordinatorAction::Finished
            },
            (CoordinatorPhase::Stopped, _) => CoordinatorAction::Finished,
            _ => CoordinatorAction::KeepPolling,
        }
    }
}

/// The implementation selector of the benchmark driver: the closed
/// enumeration of the three dataflow arrangements a run may use.
#[derive(Clone, Copy, PartialEq, Eq, Structural, Debug)]
pub enum ImplementationKind {
    Monolith,
    MonolithEnumeration,
    Pipelined,
}

impl ImplementationKind {
    /// The label a result record carries for this implementation.
    pub fn label(&self) -> (r: &'static str)
        ensures
            *self == ImplementationKind::Monolith ==> r@ == "Monolith"@,
            *self == ImplementationKind::MonolithEnumeration ==> r@ == "MonolithEnumeration"@,
            *self == ImplementationKind::Pipelined ==> r@ == "Pipelined"@,
    {
        match self {
            ImplementationKind::Monolith => "Monolith",
            ImplementationKind::MonolithEnumeration => "MonolithEnumeration",
            ImplementationKind::Pipelined => "Pipelined",
        }
    }
}

} // verus!
