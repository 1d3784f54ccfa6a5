use vstd::prelude::*;
use vstd::rwlock::RwLock;

use crate::task::{Progress, Task};
use crate::wake::WakeNotification;

verus! {

/// The state shared between one value producer and one [`JoinHandle`]: an
/// optional result value and an optional registered wake handle, each guarded
/// by its own short-held lock. The result lock carries an invariant chosen at
/// construction time, so whatever is ever read out of it is a value the
/// producer was allowed to put in.
#[verifier::reject_recursive_types(R)]
struct Inner<R> {
    result: RwLock<Option<R>, spec_fn(Option<R>) -> bool>,
    waker: RwLock<Option<WakeNotification>, spec_fn(Option<WakeNotification>) -> bool>,
}

impl<R> Inner<R> {
    spec fn wf(&self) -> bool {
        &&& self.result.inv(None)
        &&& forall|w: Option<WakeNotification>| #[trigger] self.waker.inv(w)
    }

    spec fn admits(&self, v: R) -> bool {
        self.result.inv(Some(v))
    }
}

/// The producer half of an offload cell: whoever holds it may deliver the
/// one result value, exactly once, from any thread.
#[verifier::reject_recursive_types(R)]
pub struct Completer<R> {
    inner: std::sync::Arc<Inner<R>>,
}

/// The consumer half of an offload cell: a task that completes once the
/// producer has delivered the value.
#[verifier::reject_recursive_types(R)]
pub struct JoinHandle<R> {
    inner: std::sync::Arc<Inner<R>>,
    delivered: bool,
}

/// Relies on std::sync::Arc::clone: the clone is a second owner of the very
/// same shared cell pair.
#[verifier::external_body]
fn share<R>(inner: &std::sync::Arc<Inner<R>>) -> (r: std::sync::Arc<Inner<R>>)
    ensures
        r == *inner,
{
    std::sync::Arc::clone(inner)
}

/// Build a linked producer/consumer pair around a fresh cell whose result
/// lock admits exactly the values satisfying `p`.
fn offload_pair_admitting<R>(Ghost(p): Ghost<spec_fn(R) -> bool>) -> (pair: (
    Completer<R>,
    JoinHandle<R>,
))
    ensures
        pair.0.wf(),
        pair.1.wf(),
        !pair.1.done(),
        forall|v: R| #[trigger] pair.0.admits(v) <==> p(v),
        forall|v: R| #[trigger] pair.1.accepts(v) <==> p(v),
{
    let result = RwLock::new(
        None,
        Ghost(
            (|val: Option<R>|
                match val {
                    Some(x) => p(x),
                    None => true,
                }),
        ),
    );
    let waker = RwLock::new(None, Ghost((|w: Option<WakeNotification>| true)));
    let inner = std::sync::Arc::new(Inner { result, waker });
    let inner2 = share(&inner);
    (Completer { inner }, JoinHandle { inner: inner2, delivered: false })
}

/// Build a linked producer/consumer pair whose cell admits every value: the
/// producer may deliver whatever it likes, exactly once, and the handle is a
/// task completing with that value. `spawn_blocking` is this plus a dedicated
/// worker thread; the bare pair lets a caller bridge any other source of a
/// value into the task graph, and lets a test drive both halves itself.
pub fn offload_pair<R>() -> (pair: (Completer<R>, JoinHandle<R>))
    ensures
        pair.0.wf(),
        pair.1.wf(),
        !pair.1.done(),
        forall|v: R| #[trigger] pair.0.admits(v),
        forall|v: R| #[trigger] pair.1.accepts(v),
{
    offload_pair_admitting(Ghost(|v: R| true))
}

impl<R> Completer<R> {
    pub closed spec fn wf(&self) -> bool {
        self.inner.wf()
    }

    /// Which values this producer may deliver.
    pub closed spec fn admits(&self, v: R) -> bool {
        self.inner.admits(v)
    }

    /// Deliver the result: first store the value in the result cell, then
    /// take any registered wake handle out of its own cell, and only after
    /// both locks are released notify it. Because the value is stored before
    /// the wake cell is inspected, and the consumer checks the result cell
    /// before registering a wake handle, whichever side runs second sees the
    /// other's update: no wakeup is ever missed. Taking `self` by value makes
    /// a second delivery through the same producer unwritable.
    pub fn complete(self, value: R)
        requires
            self.wf(),
            self.admits(value),
    {
        let (_prev, result_handle) = self.inner.result.acquire_write();
        result_handle.release_write(Some(value));
        let (registered, wake_handle) = self.inner.waker.acquire_write();
        wake_handle.release_write(None);
        match registered {
            Some(wake) => wake.notify(),
            None => {},
        }
    }
}

impl<R> Task for JoinHandle<R> {
    type Output = R;

    closed spec fn wf(&self) -> bool {
        self.inner.wf()
    }

    closed spec fn done(&self) -> bool {
        self.delivered
    }

    closed spec fn accepts(&self, v: R) -> bool {
        self.inner.admits(v)
    }

    /// Check the result cell: if the value has arrived, take it and complete;
    /// otherwise register the given wake handle (replacing any earlier one)
    /// and suspend. The value is checked before the wake handle is written,
    /// which together with the producer's opposite order rules out the
    /// missed-wakeup race.
    fn attempt_progress(&mut self, wake: &WakeNotification) -> (r: Progress<R>) {
        if self.delivered {
            let _: () = unreached();
        }
        let (taken, result_handle) = self.inner.result.acquire_write();
        match taken {
            Some(v) => {
                result_handle.release_write(None);
                self.delivered = true;
                Progress::Completed(v)
            },
            None => {
                result_handle.release_write(None);
                let (_previous, wake_handle) = self.inner.waker.acquire_write();
                wake_handle.release_write(Some(wake.clone()));
                Progress::Suspended
            },
        }
    }
}

/// The worker half of a blocking offload: the deferred computation together
/// with the producer handle that will carry its result. Whoever receives the
/// job decides where it runs — a dedicated thread, a pool, or the current
/// thread; the job itself only runs the closure and delivers its value.
#[verifier::reject_recursive_types(R)]
pub struct WorkerJob<F, R> where F: FnOnce() -> R {
    f: F,
    completer: Completer<R>,
}

impl<F, R> WorkerJob<F, R> where F: FnOnce() -> R {
    pub closed spec fn wf(&self) -> bool {
        &&& self.completer.wf()
        &&& self.f.requires(())
        &&& forall|v: R| self.f.ensures((), v) ==> #[trigger] self.completer.admits(v)
    }

    /// Run the deferred computation to completion, then deliver its value
    /// through the shared cell, waking the registered driver if there is one.
    /// This is the whole body of a worker thread.
    pub fn run(self)
        requires
            self.wf(),
    {
        let WorkerJob { f, completer } = self;
        let value = f();
        completer.complete(value);
    }
}

/// The compute side of spawning a blocking computation: package the closure
/// and a fresh offload cell into a [`WorkerJob`] and hand back the job
/// together with the [`JoinHandle`] task that will complete with the job's
/// value. Starting the dedicated worker thread is the one step that cannot
/// happen here; the caller launches the returned job and drives the handle.
/// The handle admits only values the closure itself can return.
pub fn offload_job<F, R>(f: F) -> (pair: (WorkerJob<F, R>, JoinHandle<R>)) where F: FnOnce() -> R
    requires
        f.requires(()),
    ensures
        pair.0.wf(),
        pair.1.wf(),
        !pair.1.done(),
        forall|v: R| #[trigger] pair.1.accepts(v) ==> f.ensures((), v),
{
    let (completer, handle) = offload_pair_admitting(Ghost(|v: R| f.ensures((), v)));
    (WorkerJob { f, completer }, handle)
}

} // verus!
