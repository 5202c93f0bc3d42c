//! State shared between a client's threads.

use vstd::prelude::*;
use std::sync::{Arc, RwLock};

verus! {

#[verifier::external_type_specification]
#[verifier::external_body]
#[verifier::reject_recursive_types(T)]
pub struct ExRwLock<T: ?Sized>(RwLock<T>);

/// Counters shared between threads.
#[derive(Debug)]
pub struct SharedState {
    pub counter: i32,
}

impl SharedState {
    /// A state with the counter at zero.
    pub fn new() -> (r: SharedState)
        ensures
            r.counter == 0,
    {
        SharedState { counter: 0 }
    }

    pub fn increment_counter(&mut self)
        requires
            old(self).counter < i32::MAX,
        ensures
            final(self).counter == old(self).counter + 1,
    {
        self.counter = self.counter + 1;
    }
}

/// Relies on `std::sync::RwLock::new`: a lock holding `value`.
#[verifier::external_body]
fn new_rw_lock(value: SharedState) -> (r: RwLock<SharedState>) {
    RwLock::new(value)
}

/// `SharedState::new()`, counter at zero, behind a reader-writer lock. The
/// lock is opaque here, so the zero is stated on `SharedState::new`.
pub fn create_shared_state() -> (r: Arc<RwLock<SharedState>>) {
    Arc::new(new_rw_lock(SharedState::new()))
}

} // verus!
