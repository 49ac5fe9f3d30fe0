//! The laws of the `Validation` instances, over the models that the
//! operations' contracts use.
use vstd::prelude::*;

use crate::algebra::{Monoid, Semigroup};
use crate::either::Either;
use crate::function::{app, compose};
use crate::identity::Identity;
use crate::maybe::Maybe;
use crate::validation::{validation_ap, Validation};

verus! {

/// Functor identity.
pub proof fn law_validation_functor_identity<E, A>(x: Validation<E, A>)
    ensures
        x.spec_map(|a: A| a) == x,
{
}

/// Functor composition.
pub proof fn law_validation_functor_composition<E, A, B, C>(
    x: Validation<E, A>,
    f: spec_fn(A) -> B,
    g: spec_fn(B) -> C,
)
    ensures
        x.spec_map(|a: A| g(f(a))) == x.spec_map(f).spec_map(g),
{
}

/// Applicative identity.
pub proof fn law_validation_applicative_identity<E: Semigroup, A>(x: Validation<E, A>)
    ensures
        validation_ap(Validation::<E, spec_fn(A) -> A>::Success(|a: A| a), x, app()) == x,
{
}

/// Applicative homomorphism.
pub proof fn law_validation_applicative_homomorphism<E: Semigroup, A, B>(f: spec_fn(A) -> B, x: A)
    ensures
        validation_ap(Validation::<E, spec_fn(A) -> B>::Success(f), Validation::<E, A>::Success(x), app())
            == Validation::<E, B>::Success(f(x)),
{
}

/// Applicative interchange.
pub proof fn law_validation_applicative_interchange<E: Semigroup, A, B>(u: Validation<E, spec_fn(A) -> B>, y: A)
    ensures
        validation_ap(u, Validation::<E, A>::Success(y), app()) == validation_ap(
            Validation::<E, spec_fn(spec_fn(A) -> B) -> B>::Success(|g: spec_fn(A) -> B| g(y)),
            u,
            app(),
        ),
{
}

/// Applicative composition; the errors of `u`, `v` and `w` are combined in
/// that order on both sides, which rests on the associativity of the errors.
pub proof fn law_validation_applicative_composition<E: Semigroup, A, B, C>(
    u: Validation<E, spec_fn(B) -> C>,
    v: Validation<E, spec_fn(A) -> B>,
    w: Validation<E, A>,
)
    ensures
        validation_ap(
            validation_ap(
                validation_ap(
                    Validation::<
                        E,
                        spec_fn(spec_fn(B) -> C) -> spec_fn(spec_fn(A) -> B) -> spec_fn(A) -> C,
                    >::Success(compose::<A, B, C>()),
                    u,
                    app(),
                ),
                v,
                app(),
            ),
            w,
            app(),
        ) == validation_ap(u, validation_ap(v, w, app()), app()),
{
    if let (Validation::Failure(x), Validation::Failure(y), Validation::Failure(z)) = (u, v, w) {
        E::lemma_associative(x, y, z);
    }
}

/// Applying accumulates: two failures give the failure of their combined
/// errors, the function's error first.
pub proof fn law_validation_apply_accumulates<E: Semigroup, G, A, B>(e1: E, e2: E, ev: spec_fn(G, A) -> B)
    ensures
        validation_ap(Validation::<E, G>::Failure(e1), Validation::<E, A>::Failure(e2), ev)
            == Validation::<E, B>::Failure(e1.spec_associate(e2)),
{
}

/// Alternative identity: the failure of the identity error is neutral for `alt`.
pub proof fn law_validation_alternative_identity<E: Monoid, A>(x: Validation<E, A>)
    ensures
        Validation::<E, A>::Failure(E::spec_empty()).spec_associate(x) == x,
        x.spec_associate(Validation::<E, A>::Failure(E::spec_empty())) == x,
{
    Validation::<E, A>::lemma_identity(x);
}

/// Alternative associativity.
pub proof fn law_validation_alternative_associativity<E: Semigroup, A>(
    a: Validation<E, A>,
    b: Validation<E, A>,
    c: Validation<E, A>,
)
    ensures
        a.spec_associate(b).spec_associate(c) == a.spec_associate(b.spec_associate(c)),
{
    Validation::<E, A>::lemma_associative(a, b, c);
}

/// Alternative left distributivity: mapping over a choice maps the options.
pub proof fn law_validation_alternative_left_distributivity<E: Semigroup, A, B>(
    a: Validation<E, A>,
    b: Validation<E, A>,
    f: spec_fn(A) -> B,
)
    ensures
        a.spec_associate(b).spec_map(f) == a.spec_map(f).spec_associate(b.spec_map(f)),
{
}

/// `fold_map` fusion.
pub proof fn law_validation_fold_map_fusion<E, A, B, M: Monoid>(
    x: Validation<E, A>,
    f: spec_fn(B) -> M,
    g: spec_fn(A) -> B,
)
    ensures
        x.spec_fold_map(|a: A| f(g(a))) == x.spec_map(g).spec_fold_map(f),
{
}

/// Traversable identity.
pub proof fn law_validation_traverse_identity<E, A>(x: Validation<E, A>)
    ensures
        x.spec_traverse_identity(|a: A| Identity(a)) == Identity(x),
{
}

/// Traversable naturality for pure effects.
pub proof fn law_validation_traverse_pure<E, A, B>(x: Validation<E, A>, f: spec_fn(A) -> B)
    ensures
        x.spec_traverse_maybe(|a: A| Maybe::Just(f(a))) == Maybe::Just(x.spec_map(f)),
{
}

/// Traversable composition in `Maybe`.
pub proof fn law_validation_traverse_composition<E, A, B, C>(
    x: Validation<E, A>,
    f: spec_fn(A) -> Maybe<B>,
    g: spec_fn(B) -> Maybe<C>,
)
    ensures
        x.spec_traverse_maybe(f).spec_bind(|y: Validation<E, B>| y.spec_traverse_maybe(g))
            == x.spec_traverse_maybe(|a: A| f(a).spec_bind(g)),
{
}

/// Converting between `Either` and `Validation` in both directions gives the
/// value back.
pub proof fn law_validation_either_round_trip<E, A>(v: Validation<E, A>, x: Either<E, A>)
    ensures
        Validation::spec_from_either(v.spec_either()) == v,
        Validation::spec_from_either(x).spec_either() == x,
{
}

/// Converting to `Result` and back gives the value back, and conversely.
pub proof fn law_validation_result_round_trip<E, A>(v: Validation<E, A>, r: Result<A, E>)
    ensures
        Validation::spec_from_result(v.spec_result()) == v,
        Validation::spec_from_result(r).spec_result() == r,
{
}

} // verus!
