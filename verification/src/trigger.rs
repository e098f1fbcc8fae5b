//! The step trigger: what each tick of the timer is to do. The timer
//! itself belongs to the caller, which reports every tick here and acts on
//! the answer.

use vstd::prelude::*;

verus! {

/// Milliseconds between two ticks. The tick only polls whether the node
/// should seal; it is not the block period.
pub const STEP_TIME_MILLIS: u64 = 100;

/// What the timer is to do on a tick.
#[derive(Clone, Copy, Debug, PartialEq, Eq, Structural)]
pub enum StepAction {
    /// Notify the engine, then report `notified`.
    Notify,
    /// Do nothing: the notification of an earlier tick is still running.
    Skip,
    /// Do nothing, and end the timer: the trigger was stopped.
    Halt,
}

/// The state of the trigger.
#[derive(Clone, Copy, Debug, PartialEq, Eq, Structural)]
pub struct StepTrigger {
    /// Whether the trigger was stopped. A stopped trigger stays stopped.
    pub stopped: bool,
    /// Whether a notification is running.
    pub notifying: bool,
}

impl StepTrigger {
    /// A running trigger with no notification under way.
    pub fn new() -> (trigger: StepTrigger)
        ensures
            trigger == (StepTrigger { stopped: false, notifying: false }),
    {
        StepTrigger { stopped: false, notifying: false }
    }

    /// The answer to a tick. After `stop` it is always `Halt`; while a
    /// notification is running it is never `Notify`.
    pub fn tick(&mut self) -> (action: StepAction)
        ensures
            action == if old(self).stopped {
                StepAction::Halt
            } else if old(self).notifying {
                StepAction::Skip
            } else {
                StepAction::Notify
            },
            final(self).stopped == old(self).stopped,
            final(self).notifying == (old(self).notifying || !old(self).stopped),
    {
        if self.stopped {
            StepAction::Halt
        } else if self.notifying {
            StepAction::Skip
        } else {
            self.notifying = true;
            StepAction::Notify
        }
    }

    /// The notification of the last `Notify` has returned.
    pub fn notified(&mut self)
        ensures
            *final(self) == (StepTrigger { notifying: false, ..*old(self) }),
    {
        self.notifying = false;
    }

    /// Stops the trigger. A notification that is running is not cut
    /// short; no new one is started.
    pub fn stop(&mut self)
        ensures
            *final(self) == (StepTrigger { stopped: true, ..*old(self) }),
    {
        self.stopped = true;
    }
}

} // verus!
