use vstd::prelude::*;
use std::sync::Arc;

verus! {

/// A value shared between readers and never written after it was made.
pub struct RO<T> {
    inner: Arc<T>,
}

/// Reading a shared value failed.
#[derive(Debug, Clone, Copy, PartialEq, Eq, Structural)]
pub struct ReadOnlyError;

impl<T> RO<T> {
    /// The value held.
    pub closed spec fn value(&self) -> T {
        *self.inner
    }

    /// Shares `val`.
    pub fn new(val: T) -> (r: RO<T>)
        ensures
            r.value() == val,
    {
        RO { inner: Arc::new(val) }
    }

    /// The value, for reading.
    pub fn read(&self) -> (r: Result<&T, ReadOnlyError>)
        ensures
            r matches Ok(v) && *v == self.value(),
    {
        Ok(&*self.inner)
    }
}

} // verus!
