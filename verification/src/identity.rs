//! The identity functor, the applicative that performs no effect.
use vstd::prelude::*;

verus! {

/// A value wrapped in the identity functor.
#[derive(Debug, Clone, Copy, PartialEq, Eq, PartialOrd, Ord, Hash, Default)]
pub struct Identity<T>(pub T);

impl<T> Identity<T> {
    /// The wrapped value.
    pub fn run(self) -> (r: T)
        ensures
            r == self.0,
    {
        self.0
    }
}

/// Marker for the instances of `Identity`.
#[derive(Debug, Clone, Copy, PartialEq, Eq, PartialOrd, Ord, Hash, Default)]
pub struct IdentityInstance;

} // verus!
