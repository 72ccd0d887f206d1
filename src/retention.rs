//! The decisions of the retention scheduler: sweep at start, then once per
//! interval, until asked to stop. The caller performs each action it hands out
//! and reports back what happened.

use vstd::prelude::*;

verus! {

/// The time between two sweeps: one day.
pub const SWEEP_INTERVAL_MILLIS: u64 = 86_400_000;

#[derive(Debug, Clone, Copy, PartialEq, Eq, Structural)]
pub enum SchedulerPhase {
    /// Sleeping until the next sweep.
    Idle,
    /// A sweep is under way.
    Running,
    /// Halted for good.
    Stopped,
}

#[derive(Debug, Clone, Copy, PartialEq, Eq, Structural)]
pub enum SchedulerEvent {
    /// The store has just opened.
    Started,
    /// The sleep between sweeps has ended.
    Woke,
    /// The sweep under way has ended, whether or not it succeeded.
    SweepFinished,
    /// The owner asks the scheduler to halt.
    StopRequested,
}

#[derive(Debug, Clone, Copy, PartialEq, Eq, Structural)]
pub enum SchedulerAction {
    /// Run one sweep with the retention window read from the settings now.
    Sweep,
    /// Sleep this many milliseconds, then report `Woke`.
    Sleep(u64),
    /// Nothing to do until the next event.
    Wait,
    /// Stop the task.
    Halt,
}

#[derive(Debug, Clone, Copy, PartialEq, Eq, Structural)]
pub struct RetentionScheduler {
    pub phase: SchedulerPhase,
    pub stop_requested: bool,
}

/// The scheduler's next state and action on an event.
pub open spec fn scheduler_step(s: RetentionScheduler, e: SchedulerEvent) -> (
    RetentionScheduler,
    SchedulerAction,
) {
    let stopped = RetentionScheduler { phase: SchedulerPhase::Stopped, stop_requested: true };
    match s.phase {
        SchedulerPhase::Stopped => (s, SchedulerAction::Halt),
        SchedulerPhase::Idle => match e {
            SchedulerEvent::StopRequested => (stopped, SchedulerAction::Halt),
            SchedulerEvent::Started | SchedulerEvent::Woke => if s.stop_requested {
                (stopped, SchedulerAction::Halt)
            } else {
                (
                    RetentionScheduler { phase: SchedulerPhase::Running, stop_requested: false },
                    SchedulerAction::Sweep,
                )
            },
            SchedulerEvent::SweepFinished => (s, SchedulerAction::Wait),
        },
        SchedulerPhase::Running => match e {
            SchedulerEvent::StopRequested => (
                RetentionScheduler { phase: SchedulerPhase::Running, stop_requested: true },
                SchedulerAction::Wait,
            ),
            SchedulerEvent::SweepFinished => if s.stop_requested {
                (stopped, SchedulerAction::Halt)
            } else {
                (
                    RetentionScheduler { phase: SchedulerPhase::Idle, stop_requested: false },
                    SchedulerAction::Sleep(SWEEP_INTERVAL_MILLIS),
                )
            },
            SchedulerEvent::Started | SchedulerEvent::Woke => (s, SchedulerAction::Wait),
        },
    }
}

impl RetentionScheduler {
    /// Halted only after a stop was asked for.
    pub open spec fn wf(&self) -> bool {
        self.phase == SchedulerPhase::Stopped ==> self.stop_requested
    }

    /// A scheduler that has not run yet.
    pub fn new() -> (r: RetentionScheduler)
        ensures
            r.phase == SchedulerPhase::Idle,
            !r.stop_requested,
            r.wf(),
    {
        RetentionScheduler { phase: SchedulerPhase::Idle, stop_requested: false }
    }

    /// Takes in an event and returns the action to perform next. The scheduler
    /// never halts unless asked to, and a sweep under way is finished first.
    pub fn on_event(&mut self, event: SchedulerEvent) -> (r: SchedulerAction)
        requires
            old(self).wf(),
        ensures
            (*final(self), r) == scheduler_step(*old(self), event),
            final(self).wf(),
    {
        let stopped = RetentionScheduler { phase: SchedulerPhase::Stopped, stop_requested: true };
        match self.phase {
            SchedulerPhase::Stopped => SchedulerAction::Halt,
            SchedulerPhase::Idle => match event {
                SchedulerEvent::StopRequested => {
                    *self = stopped;
                    SchedulerAction::Halt
                },
                SchedulerEvent::Started | SchedulerEvent::Woke => {
                    if self.stop_requested {
                        *self = stopped;
                        SchedulerAction::Halt
                    } else {
                        self.phase = SchedulerPhase::Running;
                        SchedulerAction::Sweep
                    }
                },
                SchedulerEvent::SweepFinished => SchedulerAction::Wait,
            },
            SchedulerPhase::Running => match event {
                SchedulerEvent::StopRequested => {
                    self.stop_requested = true;
                    SchedulerAction::Wait
                },
                SchedulerEvent::SweepFinished => {
                    if self.stop_requested {
                        *self = stopped;
                        SchedulerAction::Halt
                    } else {
                        self.phase = SchedulerPhase::Idle;
                        SchedulerAction::Sleep(SWEEP_INTERVAL_MILLIS)
                    }
                },
                SchedulerEvent::Started | SchedulerEvent::Woke => SchedulerAction::Wait,
            },
        }
    }
}

} // verus!
