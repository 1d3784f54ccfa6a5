use vstd::prelude::*;

use crate::task::{Progress, Task};
use crate::wake::WakeNotification;

verus! {

/// One slot of a two-way join. A slot starts out `Pending` with its inner
/// task, becomes `Ready` the moment that task completes, and is `Stolen` once
/// its value has been taken into the joint result. Each slot walks this path
/// exactly once; probing or stealing a `Stolen` slot is a fatal contract
/// violation, not a recoverable state.
enum JoinState<T: Task> {
    Pending(T),
    Ready(T::Output),
    Stolen,
}

impl<T: Task> JoinState<T> {
    /// The slot's inner task, if still pending, is itself well-formed and not
    /// yet finished.
    spec fn slot_wf(&self) -> bool {
        match self {
            JoinState::Pending(t) => t.wf() && !t.done(),
            JoinState::Ready(_) => true,
            JoinState::Stolen => true,
        }
    }

    /// Which values this slot could still contribute to the joint result.
    spec fn slot_accepts(&self, v: T::Output) -> bool {
        match self {
            JoinState::Pending(t) => t.accepts(v),
            JoinState::Ready(w) => v == w,
            JoinState::Stolen => false,
        }
    }

    /// Take the value out of a `Ready` slot, leaving `Stolen` behind. A second
    /// take on the same slot is unreachable under the contract and fails fast
    /// at run time if an unverified caller forces it.
    fn steal(&mut self) -> (r: T::Output)
        requires
            *old(self) is Ready,
        ensures
            *final(self) is Stolen,
            r == (*old(self))->Ready_0,
    {
        let mut taken = JoinState::Stolen;
        core::mem::swap(self, &mut taken);
        match taken {
            JoinState::Ready(v) => v,
            _ => unreached(),
        }
    }

    /// Fold one inner progress report into the slot: a completion is stored
    /// as the slot's settled value, a suspension leaves the slot exactly as
    /// it was.
    fn settle(&mut self, r: Progress<T::Output>)
        requires
            *old(self) is Pending,
        ensures
            r matches Progress::Completed(v) ==> *final(self) == (JoinState::<T>::Ready(v)),
            r is Suspended ==> *final(self) == *old(self),
    {
        match r {
            Progress::Completed(v) => {
                *self = JoinState::Ready(v);
            },
            Progress::Suspended => {},
        }
    }

    /// Probe the slot once: a pending inner task is asked to make progress
    /// (with the shared wake handle) and whatever it reports is settled into
    /// the slot — a completed value is stored, a suspension changes nothing;
    /// a `Ready` slot is left exactly as it is, its value untouched. Probing
    /// a `Stolen` slot is a contract violation and fails fast.
    fn probe(&mut self, wake: &WakeNotification)
        requires
            old(self).slot_wf(),
            !(*old(self) is Stolen),
        ensures
            final(self).slot_wf(),
            !(*final(self) is Stolen),
            forall|v: T::Output| #[trigger] final(self).slot_accepts(v) ==> old(
                self,
            ).slot_accepts(v),
            *old(self) is Ready ==> *final(self) == *old(self),
    {
        let report = match self {
            JoinState::Pending(t) => t.attempt_progress(wake),
            JoinState::Ready(_) => {
                return ;
            },
            JoinState::Stolen => unreached(),
        };
        self.settle(report);
    }
}

/// A task combining two independent tasks; it completes once both have, with
/// the pair of their values. See [`join2`].
pub struct Join2<A: Task, B: Task>(JoinState<A>, JoinState<B>);

/// Combines two tasks into one that completes with both values.
///
/// Both slots start out pending — nothing is settled, neither task has been
/// asked to progress — and the combined task admits exactly the pairs whose
/// first component the first task admits and whose second component the
/// second task admits, whichever of the two happens to finish first.
pub fn join2<A: Task, B: Task>(a: A, b: B) -> (j: Join2<A, B>)
    requires
        a.wf(),
        !a.done(),
        b.wf(),
        !b.done(),
    ensures
        j.wf(),
        !j.done(),
        j.first_settled() is None,
        j.second_settled() is None,
        forall|v: (A::Output, B::Output)| #[trigger] j.accepts(v) <==> a.accepts(v.0)
            && b.accepts(v.1),
{
    Join2(JoinState::Pending(a), JoinState::Pending(b))
}

impl<A: Task, B: Task> Join2<A, B> {
    /// Whether both slots currently hold a settled, not yet taken, value —
    /// the state from which the next attempt must deliver the pair.
    pub closed spec fn holds_both(&self) -> bool {
        self.0 is Ready && self.1 is Ready
    }

    /// The first slot's settled value, while it holds one.
    pub closed spec fn first_settled(&self) -> Option<A::Output> {
        match self.0 {
            JoinState::Ready(v) => Some(v),
            _ => None,
        }
    }

    /// The second slot's settled value, while it holds one.
    pub closed spec fn second_settled(&self) -> Option<B::Output> {
        match self.1 {
            JoinState::Ready(v) => Some(v),
            _ => None,
        }
    }
}

impl<A: Task, B: Task> Task for Join2<A, B> {
    type Output = (A::Output, B::Output);

    /// Both slots are well-formed, and they are stolen only ever together —
    /// exactly when the joint value has been delivered.
    closed spec fn wf(&self) -> bool {
        &&& self.0.slot_wf()
        &&& self.1.slot_wf()
        &&& (self.0 is Stolen <==> self.1 is Stolen)
    }

    closed spec fn done(&self) -> bool {
        self.0 is Stolen
    }

    closed spec fn accepts(&self, v: (A::Output, B::Output)) -> bool {
        self.0.slot_accepts(v.0) && self.1.slot_accepts(v.1)
    }

    /// Probe slot A, then slot B (always in this order, for determinism; the
    /// shared wake handle means a wakeup probes both). If both are now ready,
    /// take both values together — exactly one joint completion is ever
    /// produced, no matter which inner task finished first or whether both
    /// finished on the same attempt.
    /// Beyond the task contract, the combinator owes its callers: an attempt
    /// never ends suspended while both values are in (the pair is delivered
    /// the moment both slots are settled); a value already settled when the
    /// attempt began is still there, unchanged, if the attempt suspends; and
    /// a delivered pair is made of exactly the already-settled values.
    fn attempt_progress(&mut self, wake: &WakeNotification) -> (r: Progress<
        (A::Output, B::Output),
    >)
        ensures
            r is Suspended ==> !final(self).holds_both(),
            r is Suspended && old(self).first_settled() is Some ==> final(self).first_settled()
                == old(self).first_settled(),
            r is Suspended && old(self).second_settled() is Some ==> final(self).second_settled()
                == old(self).second_settled(),
            r matches Progress::Completed(p) ==> (old(self).first_settled() matches Some(va)
                ==> p.0 == va) && (old(self).second_settled() matches Some(vb) ==> p.1 == vb),
    {
        self.0.probe(wake);
        self.1.probe(wake);
        let both_ready = match (&self.0, &self.1) {
            (JoinState::Ready(_), JoinState::Ready(_)) => true,
            _ => false,
        };
        if both_ready {
            let ghost settled = *self;
            let va = self.0.steal();
            let vb = self.1.steal();
            proof {
                assert(settled.0.slot_accepts(va));
                assert(settled.1.slot_accepts(vb));
                assert(old(self).0.slot_accepts(va));
                assert(old(self).1.slot_accepts(vb));
            }
            Progress::Completed((va, vb))
        } else {
            Progress::Suspended
        }
    }
}

} // verus!
