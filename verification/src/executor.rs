use vstd::prelude::*;

use crate::task::{Progress, Task};
use crate::wake::wake_pair;

verus! {

/// How many times one `block_on` call will park and retry before giving up
/// on ever being woken again. A driver that has actually been woken this many
/// times has been running for longer than any machine lives; the bound exists
/// so that the retry loop is provably finite.
pub const RETRY_BUDGET: u64 = 0xffff_ffff_ffff_ffff;

/// Drives exactly one top-level task to completion on the calling thread.
///
/// The executor itself is stateless: each `block_on` call builds a fresh wake
/// token pair for itself, so one executor value can drive any number of tasks
/// in sequence.
pub struct Executor {}

/// Relies on std::sync::mpsc::Receiver::recv: the only sender of this fresh
/// channel is leaked without ever sending, so the call blocks the thread
/// forever and never returns. It stands at the unreachable end of the
/// driver's retry budget: a driver that has been woken `RETRY_BUDGET` times
/// parks for good, which is also how a driver behaves whose task is never
/// going to complete. Because the call never returns, its `ensures` is never
/// relied on at runtime.
#[verifier::external_body]
fn park_forever<T: Task>(task: &T) -> (r: T::Output)
    ensures
        task.accepts(r),
{
    let (keeper, silence) = std::sync::mpsc::sync_channel::<()>(1);
    std::mem::forget(keeper);
    let _ = silence.recv();
    park_forever(task)
}

impl Executor {
    pub fn new() -> (e: Self) {
        Executor {  }
    }

    /// Repeatedly asks `task` to make progress, parking the calling thread
    /// between attempts, until the task completes; the completion value is
    /// always one the task admitted when it was handed over. A wakeup only
    /// triggers a re-attempt: a spurious one is absorbed by the next
    /// `Suspended` round trip and never invents a completion.
    pub fn block_on<T: Task>(&self, task: T) -> (r: T::Output)
        requires
            task.wf(),
            !task.done(),
        ensures
            task.accepts(r),
    {
        let (note, gate) = wake_pair();
        let mut active = task;
        let mut budget: u64 = RETRY_BUDGET;
        loop
            invariant
                active.wf(),
                !active.done(),
                forall|v: T::Output| #[trigger] active.accepts(v) ==> task.accepts(v),
            decreases budget,
        {
            match active.attempt_progress(&note) {
                Progress::Completed(v) => {
                    return v;
                },
                Progress::Suspended => {
                    if budget == 0 {
                        return park_forever(&active);
                    }
                    budget = budget - 1;
                    gate.wait();
                },
            }
        }
    }
}

} // verus!
