//! The control loop's schedule and its shutdown plan.
//!
//! A ten-second ticker drives a monotonic counter: every eleventh tick
//! sends a keep-alive, and the tick before each multiple of 2160 pulls
//! and applies the purge list. On a shutdown signal the node runs a
//! fixed sequence of steps.
use vstd::prelude::*;

verus! {

/// What one tick of the control loop must do.
#[derive(Clone, Copy, PartialEq, Eq, Structural, Debug)]
pub struct TickWork {
    /// Send the keep-alive RPC.
    pub keepalive: bool,
    /// Fetch the purge list and apply it to the cache.
    pub purge: bool,
}

/// The work of tick `counter`.
pub fn tick_work(counter: u32) -> (r: TickWork)
    ensures
        r.keepalive == (counter % 11 == 0),
        r.purge == (counter % 2160 == 2159),
{
    TickWork { keepalive: counter % 11 == 0, purge: counter % 2160 == 2159 }
}

/// The counter after a tick, wrapping at the type's top.
pub fn next_counter(counter: u32) -> (r: u32)
    ensures
        counter < 0xffff_ffff ==> r == counter + 1,
        counter == 0xffff_ffff ==> r == 0,
{
    if counter == 0xffff_ffff {
        0
    } else {
        counter + 1
    }
}

/// The steps of a graceful shutdown, in order.
#[derive(Clone, Copy, PartialEq, Eq, Structural, Debug)]
pub enum ShutdownStep {
    /// Stop accepting new connections.
    StopAccepting,
    /// Let active requests finish within the grace window.
    DrainRequests,
    /// Flush the LRU index to disk.
    PersistIndex,
    /// Send the coordinator the leaving notification.
    NotifyCoordinator,
}

/// The shutdown plan: stop accepting, drain, persist, notify.
pub fn shutdown_plan() -> (r: Vec<ShutdownStep>)
    ensures
        r@ == seq![
            ShutdownStep::StopAccepting,
            ShutdownStep::DrainRequests,
            ShutdownStep::PersistIndex,
            ShutdownStep::NotifyCoordinator,
        ],
{
    let mut v: Vec<ShutdownStep> = Vec::new();
    v.push(ShutdownStep::StopAccepting);
    v.push(ShutdownStep::DrainRequests);
    v.push(ShutdownStep::PersistIndex);
    v.push(ShutdownStep::NotifyCoordinator);
    proof {
        assert(v@ =~= seq![
            ShutdownStep::StopAccepting,
            ShutdownStep::DrainRequests,
            ShutdownStep::PersistIndex,
            ShutdownStep::NotifyCoordinator,
        ]);
    }
    v
}

} // verus!
