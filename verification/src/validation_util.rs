//! Conversions between `Either` and `Validation`, and error-discarding choice.
use vstd::prelude::*;

use crate::either::Either;
use crate::validation::Validation;

verus! {

/// `Right` to `Success`, `Left` to `Failure`.
pub fn either_to_validation<E, A>(x: Either<E, A>) -> (r: Validation<E, A>)
    ensures
        r == Validation::spec_from_either(x),
{
    Validation::from(x)
}

/// `Success` to `Right`, `Failure` to `Left`.
pub fn validation_to_either<E, A>(x: Validation<E, A>) -> (r: Either<E, A>)
    ensures
        r == x.spec_either(),
{
    Either::from(x)
}

/// `one` if it is a `Success`, else `another`: unlike `alt`, the error of
/// `one` is dropped.
pub fn ealt<E, A>(one: Validation<E, A>, another: Validation<E, A>) -> (r: Validation<E, A>)
    ensures
        r == (match one {
            Validation::Success(_) => one,
            Validation::Failure(_) => another,
        }),
{
    match &one {
        Validation::Success(_) => one,
        Validation::Failure(_) => another,
    }
}

} // verus!
