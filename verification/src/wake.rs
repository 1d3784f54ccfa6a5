use vstd::prelude::*;

verus! {

/// Relies on std::sync::mpsc::SyncSender as a type: values of it are only
/// ever carried, cloned and handed to `try_send`.
#[verifier::external_type_specification]
#[verifier::external_body]
#[verifier::reject_recursive_types(T)]
pub struct ExSyncSender<T>(std::sync::mpsc::SyncSender<T>);

/// Relies on std::sync::mpsc::Receiver as a type: values of it are only
/// ever carried and handed to `recv`.
#[verifier::external_type_specification]
#[verifier::external_body]
#[verifier::reject_recursive_types(T)]
pub struct ExReceiver<T>(std::sync::mpsc::Receiver<T>);

/// Relies on std::sync::mpsc::SyncSender::clone: the clone feeds the same
/// one-slot channel as the sender it came from. Nothing is claimed of the
/// clone beyond that it exists; every wake handle is equally good to
/// register.
pub assume_specification<T>[ <std::sync::mpsc::SyncSender<T> as Clone>::clone ](
    tx: &std::sync::mpsc::SyncSender<T>,
) -> std::sync::mpsc::SyncSender<T>;

/// A cross-thread handle that tells one specific blocked driver to retry.
///
/// The pair `WakeNotification` / `WakeGate` is an edge-triggered token: a
/// bounded channel holding at most one unit token. `notify` sets the token if
/// it is absent and is a harmless no-op otherwise; `wait` blocks until the
/// token is present and consumes it. A notification sent before the driver
/// blocks is therefore never lost, and duplicate or late notifications at
/// worst cause one benign extra retry.
#[derive(Clone)]
pub struct WakeNotification {
    token_slot: std::sync::mpsc::SyncSender<()>,
}

/// The driver-side half of the wake token; see [`WakeNotification`].
pub struct WakeGate {
    tokens: std::sync::mpsc::Receiver<()>,
}

/// Relies on std::sync::mpsc::sync_channel: a channel with a buffer of one
/// message, whose sender never blocks on `try_send` and whose receiver blocks
/// on `recv` until a message is present.
#[verifier::external_body]
fn wake_channel() -> (pair: (WakeNotification, WakeGate)) {
    let (tx, rx) = std::sync::mpsc::sync_channel(1);
    (WakeNotification { token_slot: tx }, WakeGate { tokens: rx })
}

/// A fresh wake token pair: the [`WakeNotification`] half goes to whatever
/// may later have news for the driver; the [`WakeGate`] half stays with
/// whoever blocks. Every `block_on` call builds one for itself; this
/// constructor is for callers that drive a task themselves.
pub fn wake_pair() -> (pair: (WakeNotification, WakeGate)) {
    wake_channel()
}

impl WakeNotification {
    /// Relies on std::sync::mpsc::SyncSender::try_send: places the token if
    /// the one-slot buffer is empty and returns an error (ignored here)
    /// otherwise; it never blocks, from any thread, at any time.
    #[verifier::external_body]
    pub fn notify(&self) {
        let _ = self.token_slot.try_send(());
    }
}

impl WakeGate {
    /// Relies on std::sync::mpsc::Receiver::recv: blocks the calling thread
    /// until the token is present, then consumes it; returns promptly if the
    /// token was already set before the call, and also (with an error,
    /// ignored here) once no notification handle is left alive — to the
    /// driver that is one more benign spurious wakeup.
    #[verifier::external_body]
    pub fn wait(&self) {
        let _ = self.tokens.recv();
    }
}

} // verus!
