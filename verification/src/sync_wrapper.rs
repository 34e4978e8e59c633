//! A wrapper that only gives mutable access to its content, so that it can be shared
//! between threads whatever it holds.
use vstd::prelude::*;

verus! {

/// A wrapper around `T` that only allows mutable access.
pub struct SyncWrapper<T> {
    inner: T,
}

impl<T> View for SyncWrapper<T> {
    type V = T;

    closed spec fn view(&self) -> T {
        self.inner
    }
}

impl<T> SyncWrapper<T> {
    /// Wraps `value`.
    pub fn new(value: T) -> (r: Self)
        ensures
            r@ == value,
    {
        Self { inner: value }
    }

    /// Mutable access to the wrapped value.
    pub fn get_mut(&mut self) -> (r: &mut T)
        ensures
            *r == old(self)@,
            final(self)@ == *final(r),
    {
        &mut self.inner
    }
}

} // verus!
