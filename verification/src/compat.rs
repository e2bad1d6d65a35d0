//! A wrapper pairing a transport endpoint with adapters of another async
//! ecosystem.
//!
//! The wrapper itself only carries the endpoint; the adapter trait
//! implementations that bridge the two ecosystems' read and write traits
//! live with the application, beside its runtime.
use vstd::prelude::*;

verus! {

/// A compatibility layer around one transport endpoint.
pub struct Compat<T> {
    inner: T,
}

impl<T> Compat<T> {
    /// The wrapped endpoint.
    pub closed spec fn endpoint(self) -> T {
        self.inner
    }

    pub fn new(inner: T) -> (r: Compat<T>)
        ensures
            r.endpoint() == inner,
    {
        Compat { inner }
    }

    pub fn into_inner(self) -> (r: T)
        ensures
            r == self.endpoint(),
    {
        self.inner
    }
}

} // verus!
