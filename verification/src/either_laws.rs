//! The laws of the `Either` instances, over the models that the operations'
//! contracts use.
use vstd::prelude::*;

use crate::algebra::Monoid;
use crate::either::{either_ap, Either};
use crate::function::{app, compose};
use crate::identity::Identity;
use crate::list_model::seq_bind;
use crate::maybe::Maybe;

verus! {

/// Functor identity.
pub proof fn law_either_functor_identity<E, A>(x: Either<E, A>)
    ensures
        x.spec_map(|a: A| a) == x,
{
}

/// Functor composition.
pub proof fn law_either_functor_composition<E, A, B, C>(x: Either<E, A>, f: spec_fn(A) -> B, g: spec_fn(B) -> C)
    ensures
        x.spec_map(|a: A| g(f(a))) == x.spec_map(f).spec_map(g),
{
}

/// Applicative identity.
pub proof fn law_either_applicative_identity<E, A>(x: Either<E, A>)
    ensures
        either_ap(Either::<E, spec_fn(A) -> A>::Right(|a: A| a), x, app()) == x,
{
}

/// Applicative homomorphism.
pub proof fn law_either_applicative_homomorphism<E, A, B>(f: spec_fn(A) -> B, x: A)
    ensures
        either_ap(Either::<E, spec_fn(A) -> B>::Right(f), Either::<E, A>::Right(x), app())
            == Either::<E, B>::Right(f(x)),
{
}

/// Applicative interchange.
pub proof fn law_either_applicative_interchange<E, A, B>(u: Either<E, spec_fn(A) -> B>, y: A)
    ensures
        either_ap(u, Either::<E, A>::Right(y), app()) == either_ap(
            Either::<E, spec_fn(spec_fn(A) -> B) -> B>::Right(|g: spec_fn(A) -> B| g(y)),
            u,
            app(),
        ),
{
}

/// Applicative composition.
pub proof fn law_either_applicative_composition<E, A, B, C>(
    u: Either<E, spec_fn(B) -> C>,
    v: Either<E, spec_fn(A) -> B>,
    w: Either<E, A>,
)
    ensures
        either_ap(
            either_ap(
                either_ap(
                    Either::<E, spec_fn(spec_fn(B) -> C) -> spec_fn(spec_fn(A) -> B) -> spec_fn(A) -> C>::Right(
                        compose::<A, B, C>(),
                    ),
                    u,
                    app(),
                ),
                v,
                app(),
            ),
            w,
            app(),
        ) == either_ap(u, either_ap(v, w, app()), app()),
{
}

/// Monad left identity.
pub proof fn law_either_monad_left_identity<E, A, B>(a: A, f: spec_fn(A) -> Either<E, B>)
    ensures
        Either::<E, A>::Right(a).spec_bind(f) == f(a),
{
}

/// Monad right identity.
pub proof fn law_either_monad_right_identity<E, A>(m: Either<E, A>)
    ensures
        m.spec_bind(|a: A| Either::<E, A>::Right(a)) == m,
{
}

/// Monad associativity.
pub proof fn law_either_monad_associativity<E, A, B, C>(
    m: Either<E, A>,
    f: spec_fn(A) -> Either<E, B>,
    g: spec_fn(B) -> Either<E, C>,
)
    ensures
        m.spec_bind(f).spec_bind(g) == m.spec_bind(|a: A| f(a).spec_bind(g)),
{
}

/// Folding with `cons` from the empty list gives the `Right` value alone, or
/// nothing.
pub proof fn law_either_foldr_to_list<E, A>(x: Either<E, A>)
    ensures
        x.spec_foldr(|a: A, l: Seq<A>| seq![a] + l, Seq::<A>::empty()) == (match x {
            Either::Right(a) => seq![a],
            Either::Left(_) => Seq::<A>::empty(),
        }),
{
    if let Either::Right(a) = x {
        assert(seq![a] + Seq::<A>::empty() =~= seq![a]);
    }
}

/// `fold_map` fusion.
pub proof fn law_either_fold_map_fusion<E, A, B, M: Monoid>(x: Either<E, A>, f: spec_fn(B) -> M, g: spec_fn(A) -> B)
    ensures
        x.spec_fold_map(|a: A| f(g(a))) == x.spec_map(g).spec_fold_map(f),
{
}

/// Traversable identity.
pub proof fn law_either_traverse_identity<E, A>(x: Either<E, A>)
    ensures
        x.spec_traverse_identity(|a: A| Identity(a)) == Identity(x),
{
}

/// Traversable naturality for pure effects.
pub proof fn law_either_traverse_pure<E, A, B>(x: Either<E, A>, f: spec_fn(A) -> B)
    ensures
        x.spec_traverse_maybe(|a: A| Maybe::Just(f(a))) == Maybe::Just(x.spec_map(f)),
{
}

/// Traversable composition in `Maybe`.
pub proof fn law_either_traverse_composition<E, A, B, C>(
    x: Either<E, A>,
    f: spec_fn(A) -> Maybe<B>,
    g: spec_fn(B) -> Maybe<C>,
)
    ensures
        x.spec_traverse_maybe(f).spec_bind(|y: Either<E, B>| y.spec_traverse_maybe(g)) == x.spec_traverse_maybe(
            |a: A| f(a).spec_bind(g),
        ),
{
}

/// Converting to `Result` and back gives the value back, and conversely.
pub proof fn law_either_result_round_trip<E, A>(x: Either<E, A>, r: Result<A, E>)
    ensures
        Either::spec_from_result(x.spec_result()) == x,
        Either::spec_from_result(r).spec_result() == r,
{
}

/// The `Left` values and the `Right` values of a sequence of `Either`s (what
/// `lefts`, `rights` and the two halves of `partition_eithers` give) are
/// together as many as the elements: the split loses and adds nothing.
pub proof fn law_either_partition_lengths<A, B>(xs: Seq<Either<A, B>>)
    ensures
        seq_bind(xs, |e: Either<A, B>| e.spec_left_seq()).len() + seq_bind(xs, |e: Either<A, B>| e.spec_right_seq()).len()
            == xs.len(),
    decreases xs.len(),
{
    if xs.len() > 0 {
        law_either_partition_lengths(xs.drop_first());
    }
}

} // verus!
