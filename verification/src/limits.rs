//! Resource limits of the UDP/DNS runtime: the worker-thread limiter and the
//! validation of configured capacities.

use std::sync::atomic::{AtomicUsize, Ordering};
use std::sync::Arc;
use vstd::prelude::*;

verus! {

#[verifier::external_type_specification]
#[verifier::external_body]
pub struct ExIoError(std::io::Error);

/// Builds an `std::io::Error` of kind `InvalidInput` with `message`
/// (`std::io::Error::new`). Nothing is stated of the error value.
#[verifier::external_body]
fn invalid_input(message: &str) -> std::io::Error {
    std::io::Error::new(std::io::ErrorKind::InvalidInput, message)
}

/// The count of active workers that follows `current` when a permit is
/// taken under the limit `max_workers`, or `None` at capacity.
pub fn next_active_count(current: usize, max_workers: usize) -> (next: Option<usize>)
    ensures
        next == (if current < max_workers {
            Some((current + 1) as usize)
        } else {
            None::<usize>
        }),
{
    if current < max_workers {
        Some(current + 1)
    } else {
        None
    }
}

/// Atomically replaces the count by `next_active_count` of it
/// (`AtomicUsize::fetch_update` with `AcqRel`/`Acquire`). By the
/// documentation of `fetch_update`, an `Ok(previous)` result means the count
/// moved from `previous` to `next_active_count(previous, max_workers)`, which
/// is `Some`; an `Err` leaves the count unchanged. What the count holds
/// depends on other threads and is not stated.
#[verifier::external_body]
fn try_increment_below(active: &AtomicUsize, max_workers: usize) -> (previous: Option<usize>)
    ensures
        previous matches Some(p) ==> p < max_workers,
{
    active.fetch_update(
        Ordering::AcqRel,
        Ordering::Acquire,
        |current| next_active_count(current, max_workers),
    ).ok()
}

/// Bounds the number of simultaneously running host worker threads.
#[derive(Clone)]
pub struct WorkerLimiter {
    max_workers: usize,
    active: Arc<AtomicUsize>,
}

/// A running worker's slot; the slot is released when the permit is dropped.
pub struct WorkerPermit {
    active: Arc<AtomicUsize>,
}

impl WorkerLimiter {
    pub closed spec fn max_workers_spec(&self) -> usize {
        self.max_workers
    }

    /// `permit` holds a slot of this limiter's counter.
    pub closed spec fn issued(&self, permit: WorkerPermit) -> bool {
        permit.active == self.active
    }

    /// A limiter admitting at most `max_workers` workers; zero is rejected.
    pub fn new(max_workers: usize) -> (result: std::io::Result<WorkerLimiter>)
        ensures
            result is Err <==> max_workers == 0,
            result matches Ok(limiter) ==> limiter.max_workers_spec() == max_workers,
    {
        if max_workers == 0 {
            return Err(invalid_input("max worker threads must be non-zero"));
        }
        Ok(WorkerLimiter { max_workers, active: Arc::new(AtomicUsize::new(0)) })
    }

    pub fn max_workers(&self) -> (max: usize)
        ensures
            max == self.max_workers_spec(),
    {
        self.max_workers
    }

    /// Takes a worker slot if fewer than `max_workers` are in use. Whether a
    /// slot is free depends on the other holders of this limiter.
    pub fn try_acquire(&self) -> (permit: Option<WorkerPermit>)
        ensures
            permit matches Some(p) ==> self.issued(p),
    {
        match try_increment_below(&self.active, self.max_workers) {
            Some(_) => Some(WorkerPermit { active: self.active.clone() }),
            None => None,
        }
    }

    /// Number of workers currently holding a permit.
    pub fn active_count(&self) -> usize {
        self.active.load(Ordering::Acquire)
    }
}

impl Drop for WorkerPermit {
    fn drop(&mut self)
        opens_invariants none
        no_unwind
    {
        release_slot(&self.active);
    }
}

/// Decrements the active-worker count (`AtomicUsize::fetch_sub` with
/// `AcqRel`). Atomic operations neither panic nor take locks; the resulting
/// count depends on other threads and is not stated.
#[verifier::external_body]
fn release_slot(active: &AtomicUsize)
    opens_invariants none
    no_unwind
{
    active.fetch_sub(1, Ordering::AcqRel);
}

/// Rejects a zero UDP flow capacity before any flow is recorded.
pub fn validate_max_udp_flows(max_udp_flows: usize) -> (result: std::io::Result<()>)
    ensures
        result is Err <==> max_udp_flows == 0,
{
    if max_udp_flows == 0 {
        return Err(invalid_input("max UDP flows must be non-zero"));
    }
    Ok(())
}

/// Rejects a zero audit queue capacity before the runtime starts.
pub fn validate_audit_queue_capacity(capacity: usize) -> (result: std::io::Result<()>)
    ensures
        result is Err <==> capacity == 0,
{
    if capacity == 0 {
        return Err(invalid_input("audit queue capacity must be non-zero"));
    }
    Ok(())
}

} // verus!
