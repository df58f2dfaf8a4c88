//! A shared-ownership handle for decoded functions.
//!
//! Decoded functions are shared read-only between the address-range index
//! and later queries; a handle hands out borrows of one allocation.

use std::sync::Arc;
use vstd::prelude::*;

verus! {

/// A shared handle to a value.
#[derive(Debug)]
pub struct ArcIdentity<T>(pub Arc<T>);

impl<T> ArcIdentity<T> {
    /// Wraps a value in a new shared allocation.
    pub fn new(value: T) -> (r: ArcIdentity<T>)
        ensures
            r.0 == value,
    {
        ArcIdentity(Arc::new(value))
    }

    /// Borrows the shared value.
    /// Relies on Arc's `Deref`: the borrow is of the wrapped value.
    #[verifier::external_body]
    pub fn get(&self) -> (r: &T)
        ensures
            *r == self.0,
    {
        &*self.0
    }
}

} // verus!
