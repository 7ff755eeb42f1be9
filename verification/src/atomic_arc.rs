//! A shared slot holding an optional `Arc`, swapped under a lock.

use std::sync::Arc;
use vstd::prelude::*;
use vstd::rwlock::{RwLock, RwLockPredicate};

verus! {

/// The slot may hold any value.
pub struct AnyArc;

impl<T> RwLockPredicate<Option<Arc<T>>> for AnyArc {
    open spec fn inv(self, v: Option<Arc<T>>) -> bool {
        true
    }
}

/// `Arc::clone` (std): another handle to the same value.
#[verifier::external_body]
fn arc_clone<T>(a: &Arc<T>) -> (r: Arc<T>)
    ensures
        r == *a,
{
    Arc::clone(a)
}

/// An optional `Arc<T>` that threads load, store and swap. What a load
/// sees depends on the other threads, so these operations promise nothing
/// of the value.
pub struct AtomicArc<T> {
    lock: RwLock<Option<Arc<T>>, AnyArc>,
}

impl<T> AtomicArc<T> {
    /// An empty slot.
    pub fn empty() -> Self {
        AtomicArc { lock: RwLock::new(None, Ghost(AnyArc)) }
    }

    /// A slot holding `value`.
    pub fn new(value: T) -> Self {
        AtomicArc { lock: RwLock::new(Some(Arc::new(value)), Ghost(AnyArc)) }
    }

    /// Another handle to the value held, if any.
    pub fn load(&self) -> Option<Arc<T>> {
        let handle = self.lock.acquire_read();
        let r = match handle.borrow() {
            Some(a) => Some(arc_clone(a)),
            None => None,
        };
        handle.release_read();
        r
    }

    /// Replaces the value held.
    pub fn store(&self, arc: Option<Arc<T>>) {
        let (_previous, handle) = self.lock.acquire_write();
        handle.release_write(arc);
    }

    /// Replaces the value held, returning the one it held.
    pub fn swap(&self, arc: Option<Arc<T>>) -> Option<Arc<T>> {
        let (previous, handle) = self.lock.acquire_write();
        handle.release_write(arc);
        previous
    }
}

} // verus!
