//! The shutdown signal of the process: a channel with room for one message,
//! which any thread may send and which the first receiver takes.
use vstd::prelude::*;

verus! {

/// A channel of capacity one that carries the request to shut down.
#[derive(Debug)]
pub struct ShutdownSignal {
    /// whether a request is in the channel
    pub pending: bool,
}

impl ShutdownSignal {
    pub fn new() -> (res: Self)
        ensures
            !res.pending,
    {
        ShutdownSignal { pending: false }
    }
}

/// Initiates a clean shutdown of the program; if a request is already in the
/// channel, the shutdown is on its way and nothing changes.
pub fn shutdown(signal: &mut ShutdownSignal)
    ensures
        final(signal).pending,
{
    signal.pending = true;
}

/// Receives the shutdown request if there is one; `false` means the caller is
/// to wait and try again.
pub fn wait_for_shutdown(signal: &mut ShutdownSignal) -> (received: bool)
    ensures
        received == old(signal).pending,
        !final(signal).pending,
{
    let received = signal.pending;
    signal.pending = false;
    received
}

/// Returns true if shutdown already initiated. The request stays where it
/// is, for the thread that waits for it.
pub fn shutdown_started(signal: &ShutdownSignal) -> (res: bool)
    ensures
        res == signal.pending,
{
    signal.pending
}

} // verus!
