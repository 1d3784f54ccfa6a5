use vstd::prelude::*;

use crate::wake::WakeNotification;

verus! {

/// What one call to `attempt_progress` reports: either the task finished and
/// hands over its value, or it could not finish yet and has arranged (through
/// the wake handle it was given) to be retried later.
pub enum Progress<T> {
    Completed(T),
    Suspended,
}

/// The uniform contract of a resumable unit of cooperative computation.
///
/// A task is asked to make progress with `attempt_progress`; the call must
/// return promptly, either delivering the completion value or registering the
/// given wake handle somewhere so that the driver is told when to retry.
///
/// The specification side of the trait is three predicates:
/// - `wf` is the task's internal well-formedness, preserved by every call;
/// - `done` says the completion value has already been delivered; asking a
///   done task to progress again is a contract violation, so callers must
///   prove `!done` before every call;
/// - `accepts` is the set of values the task could still complete with. One
///   call may narrow this set (a task commits to an outcome as it runs) but
///   never widen it, and a delivered value is always drawn from the set as it
///   was when the call began.
pub trait Task: Sized {
    type Output;

    spec fn wf(&self) -> bool;

    spec fn done(&self) -> bool;

    spec fn accepts(&self, v: Self::Output) -> bool;

    fn attempt_progress(&mut self, wake: &WakeNotification) -> (r: Progress<Self::Output>)
        requires
            old(self).wf(),
            !old(self).done(),
        ensures
            final(self).wf(),
            final(self).done() <==> r is Completed,
            forall|v: Self::Output| #[trigger] final(self).accepts(v) ==> old(self).accepts(v),
            r matches Progress::Completed(v) ==> old(self).accepts(v),
    ;
}

/// A self-contained leaf task: it reports `Suspended` a fixed number of times,
/// waking its driver again each time, and then completes with the stored
/// value. With a count of zero it is an immediately-ready no-op task.
pub struct CountdownTask<T> {
    remaining: u64,
    value: Option<T>,
}

impl<T> CountdownTask<T> {
    pub closed spec fn remaining_suspensions(&self) -> u64 {
        self.remaining
    }

    pub fn new(suspensions: u64, value: T) -> (t: Self)
        ensures
            t.wf(),
            !t.done(),
            t.remaining_suspensions() == suspensions,
            forall|v: T| #[trigger] t.accepts(v) <==> v == value,
    {
        CountdownTask { remaining: suspensions, value: Some(value) }
    }
}

impl<T> Task for CountdownTask<T> {
    type Output = T;

    closed spec fn wf(&self) -> bool {
        true
    }

    closed spec fn done(&self) -> bool {
        self.value is None
    }

    closed spec fn accepts(&self, v: T) -> bool {
        self.value == Some(v)
    }

    fn attempt_progress(&mut self, wake: &WakeNotification) -> (r: Progress<T>)
        ensures
            r is Suspended ==> final(self).remaining_suspensions() == old(
                self,
            ).remaining_suspensions() - 1,
            r is Completed ==> old(self).remaining_suspensions() == 0,
    {
        if self.remaining == 0 {
            match self.value.take() {
                Some(v) => Progress::Completed(v),
                None => unreached(),
            }
        } else {
            self.remaining = self.remaining - 1;
            wake.notify();
            Progress::Suspended
        }
    }
}

} // verus!
