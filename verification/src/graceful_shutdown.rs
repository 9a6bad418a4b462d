//! Graceful shutdown: work that must not be cut short holds a guard, and once
//! a shutdown is initiated the server waits until no guard is left or the
//! shutdown timer runs out.
use vstd::prelude::*;

verus! {

/// The shutdown state shared by the server's threads.
#[derive(Debug)]
pub struct ShutdownSystem {
    /// count of guards currently alive
    pub guards: u64,
    /// whether a shutdown was initiated
    pub initiated: bool,
    /// whether the shutdown timer ran out
    pub timed_out: bool,
}

impl ShutdownSystem {
    pub fn new() -> (res: Self)
        ensures
            res.guards == 0,
            !res.initiated,
            !res.timed_out,
    {
        ShutdownSystem { guards: 0, initiated: false, timed_out: false }
    }

    /// Creates a guard that prevents shutdown while it's alive, until the
    /// shutdown timer ends.
    pub fn guard(&mut self) -> (res: GracefulShutdownGuard)
        requires
            old(self).guards < u64::MAX,
        ensures
            final(self).guards == old(self).guards + 1,
            final(self).initiated == old(self).initiated,
            final(self).timed_out == old(self).timed_out,
    {
        GracefulShutdownGuard::new(self)
    }

    /// Initiates a shutdown; initiating it again changes nothing.
    pub fn shutdown(&mut self)
        ensures
            final(self).initiated,
            final(self).guards == old(self).guards,
            final(self).timed_out == old(self).timed_out,
    {
        self.initiated = true;
    }

    /// Whether a thread waiting for the shutdown may go on.
    pub fn wait_for_shutdown(&self) -> (res: bool)
        ensures
            res == self.initiated,
    {
        self.initiated
    }
}

pub struct GracefulShutdownGuard {
    _private: (),
}

impl GracefulShutdownGuard {
    /// A new guard: one more guard alive.
    pub fn new(system: &mut ShutdownSystem) -> (res: Self)
        requires
            old(system).guards < u64::MAX,
        ensures
            final(system).guards == old(system).guards + 1,
            final(system).initiated == old(system).initiated,
            final(system).timed_out == old(system).timed_out,
    {
        system.guards = system.guards + 1;
        Self { _private: () }
    }

    /// Drops the guard: one fewer alive. Returns whether the thread waiting
    /// for the guards is to be woken, because none is left.
    pub fn release(self, system: &mut ShutdownSystem) -> (notify: bool)
        requires
            old(system).guards > 0,
        ensures
            final(system).guards == old(system).guards - 1,
            final(system).initiated == old(system).initiated,
            final(system).timed_out == old(system).timed_out,
            notify == (final(system).guards == 0),
    {
        system.guards = system.guards - 1;
        system.guards == 0
    }
}

/// Creates a guard that prevents shutdown while it's in scope, until the
/// shutdown timer ends.
pub fn guard(system: &mut ShutdownSystem) -> (res: GracefulShutdownGuard)
    requires
        old(system).guards < u64::MAX,
    ensures
        final(system).guards == old(system).guards + 1,
        final(system).initiated == old(system).initiated,
        final(system).timed_out == old(system).timed_out,
{
    GracefulShutdownGuard::new(system)
}

/// Initiates a shutdown.
pub fn shutdown(system: &mut ShutdownSystem)
    ensures
        final(system).initiated,
        final(system).guards == old(system).guards,
        final(system).timed_out == old(system).timed_out,
{
    // it doesn't matter if a shutdown has already been issued
    system.shutdown();
}

/// Whether a thread blocked until a shutdown is initiated may go on.
pub fn wait_for_shutdown(system: &ShutdownSystem) -> (res: bool)
    ensures
        res == system.initiated,
{
    system.wait_for_shutdown()
}

/// The shutdown timer in milliseconds: none for a negative timeout.
pub fn shutdown_timer(timeout: i32) -> (res: Option<u64>)
    ensures
        timeout >= 0 ==> res == Some(timeout as u64),
        timeout < 0 ==> res is None,
{
    if timeout >= 0 {
        Some(timeout as u64)
    } else {
        None
    }
}

/// The shutdown timer ran out: the server stops waiting for guards.
pub fn time_out(system: &mut ShutdownSystem)
    ensures
        final(system).timed_out,
        final(system).guards == old(system).guards,
        final(system).initiated == old(system).initiated,
{
    system.timed_out = true;
}

/// Whether waiting for the guards is over: none is left, or the timer ran out.
pub fn guards_done(system: &ShutdownSystem) -> (res: bool)
    ensures
        res == (system.guards == 0 || system.timed_out),
{
    system.guards == 0 || system.timed_out
}

} // verus!
