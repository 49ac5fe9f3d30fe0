//! Mathematical models of the list operations, over sequences.
use std::ops::ControlFlow;

use vstd::prelude::*;

use crate::algebra::{Monoid, Semigroup};
use crate::either::Either;
use crate::identity::Identity;
use crate::list::List;
use crate::maybe::Maybe;
use crate::validation::Validation;

verus! {

/// Model of `bind`: the concatenation of `f` applied to each element.
pub open spec fn seq_bind<A, B>(xs: Seq<A>, f: spec_fn(A) -> Seq<B>) -> Seq<B>
    decreases xs.len(),
{
    if xs.len() == 0 {
        Seq::empty()
    } else {
        f(xs[0]) + seq_bind(xs.drop_first(), f)
    }
}

/// Model of `bind` for a binder that gives lists.
pub open spec fn seq_bind_lists<A, B>(xs: Seq<A>, f: spec_fn(A) -> List<B>) -> Seq<B> {
    seq_bind(xs, |a: A| f(a)@)
}

/// Model of `apply`: each function, in order, applied to each value, in order;
/// `ev` interprets the function values.
pub open spec fn seq_ap<G, A, B>(gs: Seq<G>, xs: Seq<A>, ev: spec_fn(G, A) -> B) -> Seq<B> {
    seq_bind(gs, |g: G| xs.map_values(|a: A| ev(g, a)))
}

/// Model of `foldr`.
pub open spec fn seq_foldr<A, B>(acc: spec_fn(A, B) -> B, init: B, xs: Seq<A>) -> B
    decreases xs.len(),
{
    if xs.len() == 0 {
        init
    } else {
        acc(xs[0], seq_foldr(acc, init, xs.drop_first()))
    }
}

/// Model of `try_foldr`: a right fold that stops at the first element on
/// which `brk` gives `Break`.
pub open spec fn seq_try_foldr<A, B>(
    acc: spec_fn(A, B) -> B,
    brk: spec_fn(A) -> ControlFlow<B, A>,
    init: B,
    xs: Seq<A>,
) -> B
    decreases xs.len(),
{
    if xs.len() == 0 {
        init
    } else {
        match brk(xs[0]) {
            ControlFlow::Break(b) => b,
            ControlFlow::Continue(a) => acc(a, seq_try_foldr(acc, brk, init, xs.drop_first())),
        }
    }
}

/// Model of `fold_map`: the monoid product of the images of the elements.
pub open spec fn seq_fold_map<A, M: Monoid>(f: spec_fn(A) -> M, xs: Seq<A>) -> M {
    seq_foldr(|a: A, m: M| f(a).spec_associate(m), M::spec_empty(), xs)
}

/// Model of `traverse` into `Maybe`: `Just` of all results when every element
/// gives `Just`, `Nothing` otherwise.
pub open spec fn seq_traverse_maybe<A, B>(xs: Seq<A>, f: spec_fn(A) -> Maybe<B>) -> Maybe<Seq<B>>
    decreases xs.len(),
{
    if xs.len() == 0 {
        Maybe::Just(Seq::empty())
    } else {
        match (f(xs[0]), seq_traverse_maybe(xs.drop_first(), f)) {
            (Maybe::Just(b), Maybe::Just(bs)) => Maybe::Just(seq![b] + bs),
            _ => Maybe::Nothing,
        }
    }
}

/// The results `outs` combined in the `Either` applicative: `Right` of all
/// values when every result is `Right`, otherwise the first `Left`.
pub open spec fn seq_sequence_either<E, B>(outs: Seq<Either<E, B>>) -> Either<E, Seq<B>>
    decreases outs.len(),
{
    if outs.len() == 0 {
        Either::Right(Seq::empty())
    } else {
        match (outs[0], seq_sequence_either(outs.drop_first())) {
            (Either::Left(e), _) => Either::Left(e),
            (Either::Right(_), Either::Left(e)) => Either::Left(e),
            (Either::Right(b), Either::Right(bs)) => Either::Right(seq![b] + bs),
        }
    }
}

/// Model of `traverse` into `Either`.
pub open spec fn seq_traverse_either<E, A, B>(xs: Seq<A>, f: spec_fn(A) -> Either<E, B>) -> Either<E, Seq<B>> {
    seq_sequence_either(xs.map_values(f))
}

/// The results `outs` combined in the `Validation` applicative: `Success` of
/// all values when every result is a `Success`, otherwise the errors of all
/// failures combined in order, `e0 <> (e1 <> (..))`.
pub open spec fn seq_sequence_validation<E: Semigroup, B>(outs: Seq<Validation<E, B>>) -> Validation<E, Seq<B>>
    decreases outs.len(),
{
    if outs.len() == 0 {
        Validation::Success(Seq::empty())
    } else {
        match (outs[0], seq_sequence_validation(outs.drop_first())) {
            (Validation::Success(b), Validation::Success(bs)) => Validation::Success(seq![b] + bs),
            (Validation::Failure(e1), Validation::Failure(e2)) => Validation::Failure(e1.spec_associate(e2)),
            (Validation::Failure(e), _) => Validation::Failure(e),
            (_, Validation::Failure(e)) => Validation::Failure(e),
        }
    }
}

/// Model of `traverse` into `Validation`.
pub open spec fn seq_traverse_validation<E: Semigroup, A, B>(
    xs: Seq<A>,
    f: spec_fn(A) -> Validation<E, B>,
) -> Validation<E, Seq<B>> {
    seq_sequence_validation(xs.map_values(f))
}

/// The elements of each list of `ls`.
pub open spec fn list_views<B>(ls: Seq<List<B>>) -> Seq<Seq<B>> {
    ls.map_values(|l: List<B>| l@)
}

/// The rows of `rows`, each with `b` in front.
pub open spec fn prepend_each<B>(rows: Seq<Seq<B>>) -> spec_fn(B) -> Seq<Seq<B>> {
    |b: B| rows.map_values(|s: Seq<B>| seq![b] + s)
}

/// The results `outs` combined in the `List` applicative: every way of
/// picking one value from each result, in order, the first result varying
/// slowest.
pub open spec fn seq_sequence_list<B>(outs: Seq<Seq<B>>) -> Seq<Seq<B>>
    decreases outs.len(),
{
    if outs.len() == 0 {
        seq![Seq::empty()]
    } else {
        seq_bind(outs[0], prepend_each(seq_sequence_list(outs.drop_first())))
    }
}

/// Model of `traverse` into `List`.
pub open spec fn seq_traverse_list<A, B>(xs: Seq<A>, f: spec_fn(A) -> List<B>) -> Seq<Seq<B>> {
    seq_sequence_list(xs.map_values(|a: A| f(a)@))
}

/// Model of `traverse` into `Identity`: the unwrapped images, in order.
pub open spec fn seq_traverse_identity<A, B>(xs: Seq<A>, f: spec_fn(A) -> Identity<B>) -> Seq<B> {
    xs.map_values(|a: A| f(a).0)
}

/// `seq_bind` gives equal results on sequences whose images agree pointwise.
pub proof fn lemma_seq_bind_congruence<X, Y, B>(
    xs: Seq<X>,
    ys: Seq<Y>,
    f: spec_fn(X) -> Seq<B>,
    g: spec_fn(Y) -> Seq<B>,
)
    requires
        xs.len() == ys.len(),
        forall|i: int| 0 <= i < xs.len() ==> f(#[trigger] xs[i]) == g(ys[i]),
    ensures
        seq_bind(xs, f) == seq_bind(ys, g),
    decreases xs.len(),
{
    if xs.len() > 0 {
        assert(f(xs[0]) == g(ys[0]));
        assert forall|i: int| 0 <= i < xs.drop_first().len() implies f(
            #[trigger] xs.drop_first()[i],
        ) == g(ys.drop_first()[i]) by {
            assert(xs.drop_first()[i] == xs[i + 1]);
        }
        lemma_seq_bind_congruence(xs.drop_first(), ys.drop_first(), f, g);
    }
}

/// `seq_bind` distributes over concatenation.
pub proof fn lemma_seq_bind_append<A, B>(xs: Seq<A>, ys: Seq<A>, f: spec_fn(A) -> Seq<B>)
    ensures
        seq_bind(xs + ys, f) == seq_bind(xs, f) + seq_bind(ys, f),
    decreases xs.len(),
{
    if xs.len() == 0 {
        assert(xs + ys =~= ys);
    } else {
        assert((xs + ys).drop_first() =~= xs.drop_first() + ys);
        lemma_seq_bind_append(xs.drop_first(), ys, f);
        assert(seq_bind(xs + ys, f) =~= seq_bind(xs, f) + seq_bind(ys, f));
    }
}

/// `seq_bind` of a single element is the image of that element.
pub proof fn lemma_seq_bind_singleton<A, B>(a: A, f: spec_fn(A) -> Seq<B>)
    ensures
        seq_bind(seq![a], f) == f(a),
{
    assert(seq![a].drop_first() =~= Seq::<A>::empty());
    assert(seq_bind(seq![a].drop_first(), f) == Seq::<B>::empty());
    assert(f(a) + Seq::<B>::empty() =~= f(a));
}

/// `seq_bind` is associative.
pub proof fn lemma_seq_bind_assoc<A, B, C>(xs: Seq<A>, f: spec_fn(A) -> Seq<B>, g: spec_fn(B) -> Seq<C>)
    ensures
        seq_bind(seq_bind(xs, f), g) == seq_bind(xs, |a: A| seq_bind(f(a), g)),
    decreases xs.len(),
{
    if xs.len() > 0 {
        lemma_seq_bind_assoc(xs.drop_first(), f, g);
        lemma_seq_bind_append(f(xs[0]), seq_bind(xs.drop_first(), f), g);
    }
}

/// Binding a mapped sequence binds the composition.
pub proof fn lemma_seq_bind_map<X, A, B>(xs: Seq<X>, k: spec_fn(X) -> A, f: spec_fn(A) -> Seq<B>)
    ensures
        seq_bind(xs.map_values(k), f) == seq_bind(xs, |x: X| f(k(x))),
{
    lemma_seq_bind_congruence(xs.map_values(k), xs, f, |x: X| f(k(x)));
}

/// Binding a mapped sequence with `f` is binding the sequence with any `h`
/// that agrees with `f ∘ k` on its elements.
pub proof fn lemma_seq_bind_map_ext<X, A, B>(
    xs: Seq<X>,
    k: spec_fn(X) -> A,
    f: spec_fn(A) -> Seq<B>,
    h: spec_fn(X) -> Seq<B>,
)
    requires
        forall|i: int| 0 <= i < xs.len() ==> h(#[trigger] xs[i]) == f(k(xs[i])),
    ensures
        seq_bind(xs.map_values(k), f) == seq_bind(xs, h),
{
    lemma_seq_bind_congruence(xs.map_values(k), xs, f, h);
}

/// Mapping over a bind maps each image.
pub proof fn lemma_map_seq_bind<A, B, C>(xs: Seq<A>, f: spec_fn(A) -> Seq<B>, g: spec_fn(B) -> C)
    ensures
        seq_bind(xs, f).map_values(g) == seq_bind(xs, |a: A| f(a).map_values(g)),
    decreases xs.len(),
{
    if xs.len() > 0 {
        lemma_map_seq_bind(xs.drop_first(), f, g);
        assert((f(xs[0]) + seq_bind(xs.drop_first(), f)).map_values(g) =~= f(xs[0]).map_values(g)
            + seq_bind(xs.drop_first(), f).map_values(g));
    } else {
        assert(seq_bind(xs, f).map_values(g) =~= Seq::<C>::empty());
    }
}

/// `seq_bind` gives equal results for functions that agree on the elements.
pub proof fn lemma_seq_bind_ext<A, B>(xs: Seq<A>, f: spec_fn(A) -> Seq<B>, g: spec_fn(A) -> Seq<B>)
    requires
        forall|i: int| 0 <= i < xs.len() ==> f(#[trigger] xs[i]) == g(xs[i]),
    ensures
        seq_bind(xs, f) == seq_bind(xs, g),
{
    lemma_seq_bind_congruence(xs, xs, f, g);
}

} // verus!
