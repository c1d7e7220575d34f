use std::sync::Arc;
use vstd::prelude::*;

verus! {

/// A shared handle to a value: clones of the handle refer to the same value.
pub struct UnsafeWrapper<T: Send + Sync + 'static>(pub Arc<T>);

impl<T: Send + Sync + 'static> UnsafeWrapper<T> {
    /// Puts `inner` behind a new shared handle.
    pub fn new(inner: T) -> (r: Self)
        ensures
            *r.0 == inner,
    {
        Self(Arc::new(inner))
    }
}

impl<T: Send + Sync + 'static> std::ops::Deref for UnsafeWrapper<T> {
    type Target = T;

    fn deref(&self) -> (r: &T)
        ensures
            *r == *self.0,
    {
        &*self.0
    }
}

impl<T: Send + Sync + 'static> Clone for UnsafeWrapper<T> {
    fn clone(&self) -> (r: Self)
        ensures
            *r.0 == *self.0,
    {
        Self(self.0.clone())
    }
}

} // verus!
