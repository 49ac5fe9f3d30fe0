//! Semigroups and monoids.
use vstd::prelude::*;

verus! {

/// A type with an associative binary operation.
pub trait Semigroup: Sized {
    /// Mathematical model of `associate`.
    spec fn spec_associate(self, other: Self) -> Self;

    /// Whether `associate` returns exactly its model. It can fall short only
    /// where combining clones values whose clones differ from them.
    spec fn obeys_associate_spec() -> bool;

    /// The operation is associative.
    proof fn lemma_associative(a: Self, b: Self, c: Self)
        ensures
            a.spec_associate(b).spec_associate(c) == a.spec_associate(b.spec_associate(c)),
    ;

    /// Combines `self` with `other`.
    fn associate(self, other: Self) -> (r: Self)
        ensures
            Self::obeys_associate_spec() ==> r == self.spec_associate(other),
    ;
}

/// A semigroup with an identity element.
pub trait Monoid: Semigroup {
    /// Mathematical model of `empty`.
    spec fn spec_empty() -> Self;

    /// `empty` is a left and right identity of `associate`.
    proof fn lemma_identity(a: Self)
        ensures
            Self::spec_empty().spec_associate(a) == a,
            a.spec_associate(Self::spec_empty()) == a,
    ;

    /// The identity element.
    fn empty() -> (r: Self)
        ensures
            r == Self::spec_empty(),
    ;
}

} // verus!
