//! The laws of the list instances, over the sequence models that the
//! operations' contracts use.
use std::ops::ControlFlow;

use vstd::prelude::*;

use crate::algebra::{Monoid, Semigroup};
use crate::either::Either;
use crate::function::{app, compose};
use crate::list::List;
use crate::identity::Identity;
use crate::list_model::{
    lemma_seq_bind_append, lemma_seq_bind_assoc, lemma_seq_bind_ext, lemma_seq_bind_map, lemma_seq_bind_map_ext,
    lemma_seq_bind_singleton, lemma_map_seq_bind, seq_ap, seq_bind, seq_fold_map, seq_foldr,
    prepend_each, seq_sequence_either, seq_sequence_list, seq_sequence_validation, seq_traverse_either, seq_traverse_identity, seq_traverse_maybe, seq_traverse_validation,
    seq_try_foldr,
};
use crate::maybe::Maybe;
use crate::validation::Validation;

verus! {

/// Functor identity: mapping the identity function changes nothing.
pub proof fn law_list_functor_identity<A>(xs: Seq<A>)
    ensures
        xs.map_values(|a: A| a) == xs,
{
    assert(xs.map_values(|a: A| a) =~= xs);
}

/// Functor composition: mapping `g ∘ f` is mapping `f`, then `g`.
pub proof fn law_list_functor_composition<A, B, C>(xs: Seq<A>, f: spec_fn(A) -> B, g: spec_fn(B) -> C)
    ensures
        xs.map_values(|a: A| g(f(a))) == xs.map_values(f).map_values(g),
{
    assert(xs.map_values(|a: A| g(f(a))) =~= xs.map_values(f).map_values(g));
}

/// Applying the list of the functions of `gs` to a list is binding it with
/// the mapping of each function.
proof fn lemma_seq_ap_singleton_fn<A, B>(g: spec_fn(A) -> B, xs: Seq<A>)
    ensures
        seq_ap(seq![g], xs, app()) == xs.map_values(g),
{
    lemma_seq_bind_singleton(g, |h: spec_fn(A) -> B| xs.map_values(|a: A| app()(h, a)));
    assert(xs.map_values(|a: A| app()(g, a)) =~= xs.map_values(g));
}

/// Applicative identity: applying the pure identity function changes nothing.
pub proof fn law_list_applicative_identity<A>(xs: Seq<A>)
    ensures
        seq_ap(seq![|a: A| a], xs, app()) == xs,
{
    lemma_seq_ap_singleton_fn(|a: A| a, xs);
    assert(xs.map_values(|a: A| a) =~= xs);
}

/// Applicative homomorphism: a pure function applied to a pure value is the
/// pure result.
pub proof fn law_list_applicative_homomorphism<A, B>(f: spec_fn(A) -> B, x: A)
    ensures
        seq_ap(seq![f], seq![x], app()) == seq![f(x)],
{
    lemma_seq_ap_singleton_fn(f, seq![x]);
    assert(seq![x].map_values(f) =~= seq![f(x)]);
}

/// Applicative interchange: applying functions to a pure value is applying
/// "evaluate at that value" to the functions.
pub proof fn law_list_applicative_interchange<A, B>(u: Seq<spec_fn(A) -> B>, y: A)
    ensures
        seq_ap(u, seq![y], app()) == seq_ap(seq![|g: spec_fn(A) -> B| g(y)], u, app()),
{
    let at_y = |g: spec_fn(A) -> B| g(y);
    lemma_seq_ap_singleton_fn(at_y, u);
    assert forall|i: int| 0 <= i < u.len() implies (|g: spec_fn(A) -> B| seq![y].map_values(
        |a: A| app()(g, a),
    ))(#[trigger] u[i]) == (|g: spec_fn(A) -> B| seq![at_y(g)])(u[i]) by {
        assert(seq![y].map_values(|a: A| app()(u[i], a)) =~= seq![at_y(u[i])]);
    }
    lemma_seq_bind_ext(
        u,
        |g: spec_fn(A) -> B| seq![y].map_values(|a: A| app()(g, a)),
        |g: spec_fn(A) -> B| seq![at_y(g)],
    );
    lemma_seq_bind_map(u, at_y, |b: B| seq![b]);
    lemma_bind_singletons(u.map_values(at_y));
    lemma_seq_bind_ext(u, |g: spec_fn(A) -> B| seq![at_y(g)], |x: spec_fn(A) -> B| (|b: B| seq![b])(at_y(x)));
}

/// Binding with singletons gives the sequence back.
proof fn lemma_bind_singletons<A>(xs: Seq<A>)
    ensures
        seq_bind(xs, |a: A| seq![a]) == xs,
    decreases xs.len(),
{
    if xs.len() > 0 {
        lemma_bind_singletons(xs.drop_first());
        assert(seq![xs[0]] + xs.drop_first() =~= xs);
    }
}

/// Applicative composition: `pure (∘) <*> u <*> v <*> w == u <*> (v <*> w)`.
pub proof fn law_list_applicative_composition<A, B, C>(
    u: Seq<spec_fn(B) -> C>,
    v: Seq<spec_fn(A) -> B>,
    w: Seq<A>,
)
    ensures
        seq_ap(seq_ap(seq_ap(seq![compose::<A, B, C>()], u, app()), v, app()), w, app()) == seq_ap(
            u,
            seq_ap(v, w, app()),
            app(),
        ),
{
    let comp = compose::<A, B, C>();
    // pure (∘) <*> u
    lemma_seq_ap_singleton_fn(comp, u);
    let s1 = u.map_values(comp);
    // (pure (∘) <*> u) <*> v
    let inner = |g: spec_fn(B) -> C| v.map_values(|h: spec_fn(A) -> B| comp(g)(h));
    lemma_seq_bind_map(u, comp, |c: spec_fn(spec_fn(A) -> B) -> spec_fn(A) -> C| v.map_values(|h: spec_fn(A) -> B| app()(c, h)));
    assert forall|i: int| 0 <= i < u.len() implies (|x: spec_fn(B) -> C| (|c: spec_fn(spec_fn(A) -> B) -> spec_fn(A) -> C| v.map_values(|h: spec_fn(A) -> B| app()(c, h)))(comp(x)))(#[trigger] u[i])
        == inner(u[i]) by {
        assert(v.map_values(|h: spec_fn(A) -> B| app()(comp(u[i]), h)) =~= inner(u[i]));
    }
    lemma_seq_bind_ext(u, |x: spec_fn(B) -> C| (|c: spec_fn(spec_fn(A) -> B) -> spec_fn(A) -> C| v.map_values(|h: spec_fn(A) -> B| app()(c, h)))(comp(x)), inner);
    let s2 = seq_bind(u, inner);
    assert(seq_ap(s1, v, app()) == s2);
    // ((pure (∘) <*> u) <*> v) <*> w
    let wmap = |c: spec_fn(A) -> C| w.map_values(|a: A| app()(c, a));
    lemma_seq_bind_assoc(u, inner, wmap);
    let lhs_inner = |g: spec_fn(B) -> C| seq_bind(inner(g), wmap);
    let target = |g: spec_fn(B) -> C| seq_bind(v, |h: spec_fn(A) -> B| w.map_values(|a: A| g(h(a))));
    assert forall|i: int| 0 <= i < u.len() implies lhs_inner(#[trigger] u[i]) == target(u[i]) by {
        let g = u[i];
        assert forall|j: int| 0 <= j < v.len() implies (|h: spec_fn(A) -> B| w.map_values(|a: A| g(h(a))))(
            #[trigger] v[j],
        ) == wmap((|h: spec_fn(A) -> B| comp(g)(h))(v[j])) by {
            assert(wmap(comp(g)(v[j])) =~= w.map_values(|a: A| g(v[j](a))));
        }
        lemma_seq_bind_map_ext(
            v,
            |h: spec_fn(A) -> B| comp(g)(h),
            wmap,
            |h: spec_fn(A) -> B| w.map_values(|a: A| g(h(a))),
        );
    }
    lemma_seq_bind_ext(u, lhs_inner, target);
    // u <*> (v <*> w)
    let vw = seq_ap(v, w, app());
    let hmap = |h: spec_fn(A) -> B| w.map_values(|a: A| app()(h, a));
    let rhs_inner = |g: spec_fn(B) -> C| vw.map_values(|b: B| app()(g, b));
    assert forall|i: int| 0 <= i < u.len() implies rhs_inner(#[trigger] u[i]) == target(u[i]) by {
        let g = u[i];
        lemma_map_seq_bind(v, hmap, |b: B| app()(g, b));
        assert forall|j: int| 0 <= j < v.len() implies (|h: spec_fn(A) -> B| hmap(h).map_values(|b: B| app()(g, b)))(#[trigger] v[j])
            == (|h: spec_fn(A) -> B| w.map_values(|a: A| g(h(a))))(v[j]) by {
            assert(hmap(v[j]).map_values(|b: B| app()(g, b)) =~= w.map_values(|a: A| g(v[j](a))));
        }
        lemma_seq_bind_ext(v, |h: spec_fn(A) -> B| hmap(h).map_values(|b: B| app()(g, b)), |h: spec_fn(A) -> B| w.map_values(|a: A| g(h(a))));
    }
    lemma_seq_bind_ext(u, rhs_inner, target);
}

/// Monad left identity: binding a pure value applies the function to it.
pub proof fn law_list_monad_left_identity<A, B>(a: A, f: spec_fn(A) -> Seq<B>)
    ensures
        seq_bind(seq![a], f) == f(a),
{
    lemma_seq_bind_singleton(a, f);
}

/// Monad right identity: binding with the pure function changes nothing.
pub proof fn law_list_monad_right_identity<A>(xs: Seq<A>)
    ensures
        seq_bind(xs, |a: A| seq![a]) == xs,
{
    lemma_bind_singletons(xs);
}

/// Monad associativity.
pub proof fn law_list_monad_associativity<A, B, C>(xs: Seq<A>, f: spec_fn(A) -> Seq<B>, g: spec_fn(B) -> Seq<C>)
    ensures
        seq_bind(seq_bind(xs, f), g) == seq_bind(xs, |a: A| seq_bind(f(a), g)),
{
    lemma_seq_bind_assoc(xs, f, g);
}

/// Alternative left distributivity: mapping over a concatenation maps each part.
pub proof fn law_list_alternative_left_distributivity<A, B>(a: Seq<A>, b: Seq<A>, f: spec_fn(A) -> B)
    ensures
        (a + b).map_values(f) == a.map_values(f) + b.map_values(f),
{
    assert((a + b).map_values(f) =~= a.map_values(f) + b.map_values(f));
}

/// Alternative right distributivity: applying a concatenation of function
/// lists applies each part.
pub proof fn law_list_alternative_right_distributivity<G, A, B>(
    fs: Seq<G>,
    gs: Seq<G>,
    xs: Seq<A>,
    ev: spec_fn(G, A) -> B,
)
    ensures
        seq_ap(fs + gs, xs, ev) == seq_ap(fs, xs, ev) + seq_ap(gs, xs, ev),
{
    lemma_seq_bind_append(fs, gs, |g: G| xs.map_values(|a: A| ev(g, a)));
}

/// Alternative annihilation: applying no functions, or applying to no values,
/// gives nothing.
pub proof fn law_list_alternative_annihilation<G, A, B>(gs: Seq<G>, xs: Seq<A>, ev: spec_fn(G, A) -> B)
    ensures
        seq_ap(Seq::<G>::empty(), xs, ev) == Seq::<B>::empty(),
        seq_ap(gs, Seq::<A>::empty(), ev) == Seq::<B>::empty(),
    decreases gs.len(),
{
    if gs.len() > 0 {
        law_list_alternative_annihilation(gs.drop_first(), xs, ev);
        assert(Seq::<A>::empty().map_values(|a: A| ev(gs[0], a)) =~= Seq::<B>::empty());
        assert(Seq::<B>::empty() + Seq::<B>::empty() =~= Seq::<B>::empty());
    }
}

/// Folding with `cons` from the empty list rebuilds the list.
pub proof fn law_list_foldr_to_list<A>(xs: Seq<A>)
    ensures
        seq_foldr(|a: A, l: Seq<A>| seq![a] + l, Seq::<A>::empty(), xs) == xs,
    decreases xs.len(),
{
    if xs.len() > 0 {
        law_list_foldr_to_list(xs.drop_first());
        assert(seq![xs[0]] + xs.drop_first() =~= xs);
    }
}

/// A fold that never breaks is the plain right fold.
pub proof fn law_list_try_foldr_continue<A, B>(acc: spec_fn(A, B) -> B, init: B, xs: Seq<A>)
    ensures
        seq_try_foldr(acc, |a: A| ControlFlow::<B, A>::Continue(a), init, xs) == seq_foldr(acc, init, xs),
    decreases xs.len(),
{
    if xs.len() > 0 {
        law_list_try_foldr_continue(acc, init, xs.drop_first());
    }
}

/// `fold_map` fusion: mapping into the monoid through `f ∘ g` is `fold_map f`
/// after mapping `g`.
pub proof fn law_list_fold_map_fusion<A, B, M: Monoid>(xs: Seq<A>, f: spec_fn(B) -> M, g: spec_fn(A) -> B)
    ensures
        seq_fold_map(|a: A| f(g(a)), xs) == seq_fold_map(f, xs.map_values(g)),
    decreases xs.len(),
{
    if xs.len() > 0 {
        law_list_fold_map_fusion(xs.drop_first(), f, g);
        assert(xs.map_values(g).drop_first() =~= xs.drop_first().map_values(g));
    }
}

/// Folding is `fold_map` with the identity function.
pub proof fn law_list_fold_is_fold_map_identity<M: Monoid>(xs: Seq<M>)
    ensures
        seq_fold_map(|m: M| m, xs) == seq_foldr(|a: M, m: M| a.spec_associate(m), M::spec_empty(), xs),
{
    assert((|a: M, m: M| (|m2: M| m2)(a).spec_associate(m)) =~= (|a: M, m: M| a.spec_associate(m)));
}

/// Traversable identity: traversing in the identity applicative with the
/// plain wrapper gives the list back.
pub proof fn law_list_traverse_identity<A>(xs: Seq<A>)
    ensures
        seq_traverse_identity(xs, |a: A| Identity(a)) == xs,
{
    assert(seq_traverse_identity(xs, |a: A| Identity(a)) =~= xs);
}

/// Traversable naturality for pure effects: traversing with `Just ∘ f`
/// succeeds with the mapped list.
pub proof fn law_list_traverse_pure<A, B>(xs: Seq<A>, f: spec_fn(A) -> B)
    ensures
        seq_traverse_maybe(xs, |a: A| Maybe::Just(f(a))) == Maybe::Just(xs.map_values(f)),
    decreases xs.len(),
{
    if xs.len() > 0 {
        law_list_traverse_pure(xs.drop_first(), f);
        assert(seq![f(xs[0])] + xs.drop_first().map_values(f) =~= xs.map_values(f));
    } else {
        assert(xs.map_values(f) =~= Seq::<B>::empty());
    }
}

/// Traversable composition in `Maybe`: traversing with `f` and then with `g`
/// is traversing once with their Kleisli composition.
pub proof fn law_list_traverse_composition<A, B, C>(
    xs: Seq<A>,
    f: spec_fn(A) -> Maybe<B>,
    g: spec_fn(B) -> Maybe<C>,
)
    ensures
        seq_traverse_maybe(xs, f).spec_bind(|ys: Seq<B>| seq_traverse_maybe(ys, g)) == seq_traverse_maybe(
            xs,
            |a: A| f(a).spec_bind(g),
        ),
    decreases xs.len(),
{
    if xs.len() > 0 {
        law_list_traverse_composition(xs.drop_first(), f, g);
        let rest = seq_traverse_maybe(xs.drop_first(), f);
        if let (Maybe::Just(b), Maybe::Just(bs)) = (f(xs[0]), rest) {
            let ys = seq![b] + bs;
            assert(ys.drop_first() =~= bs);
            assert(ys[0] == b);
        }
    }
}

/// Traversing in the identity applicative is mapping.
pub proof fn law_list_traverse_identity_is_map<A, B>(xs: Seq<A>, f: spec_fn(A) -> B)
    ensures
        seq_traverse_identity(xs, |a: A| Identity(f(a))) == xs.map_values(f),
{
    assert(seq_traverse_identity(xs, |a: A| Identity(f(a))) =~= xs.map_values(f));
}

/// Semigroup associativity of lists: joining `a` and `b` and then `c` gives
/// the same list as joining `a` with `b` and `c` joined; each is the
/// concatenation of the three.
pub proof fn law_list_semigroup_associativity<T: Clone>(a: List<T>, b: List<T>, c: List<T>)
    ensures
        a.spec_associate(b).spec_associate(c) == a.spec_associate(b.spec_associate(c)),
        a.spec_associate(b).spec_associate(c)@ == a@ + b@ + c@,
{
    List::<T>::lemma_associative(a, b, c);
    List::<T>::lemma_elems_from_seq(a@ + b@);
    List::<T>::lemma_elems_from_seq(a@ + b@ + c@);
}

/// Monoid identity of lists: the empty list joined on either side changes
/// nothing.
pub proof fn law_list_monoid_identity<T: Clone>(a: List<T>)
    ensures
        List::<T>::spec_empty().spec_associate(a) == a,
        a.spec_associate(List::<T>::spec_empty()) == a,
{
    List::<T>::lemma_identity(a);
}

/// Traversing in `Either` with an effect that never fails gives `Right` of
/// the mapped list.
pub proof fn law_list_traverse_either_pure<E, A, B>(xs: Seq<A>, f: spec_fn(A) -> B)
    ensures
        seq_traverse_either(xs, |a: A| Either::<E, B>::Right(f(a))) == Either::<E, Seq<B>>::Right(xs.map_values(f)),
    decreases xs.len(),
{
    if xs.len() > 0 {
        law_list_traverse_either_pure::<E, A, B>(xs.drop_first(), f);
        assert(xs.map_values(|a: A| Either::<E, B>::Right(f(a))).drop_first() =~= xs.drop_first().map_values(
            |a: A| Either::<E, B>::Right(f(a)),
        ));
        assert(seq![f(xs[0])] + xs.drop_first().map_values(f) =~= xs.map_values(f));
    } else {
        assert(xs.map_values(f) =~= Seq::<B>::empty());
    }
}

/// Traversing in `Either` fails with the error of the first element whose
/// effect fails.
pub proof fn law_list_traverse_either_first_left<E, A, B>(xs: Seq<A>, f: spec_fn(A) -> Either<E, B>, k: int)
    requires
        0 <= k < xs.len(),
        f(xs[k]) is Left,
        forall|i: int| 0 <= i < k ==> f(#[trigger] xs[i]) is Right,
    ensures
        seq_traverse_either(xs, f) == Either::<E, Seq<B>>::Left(f(xs[k])->Left_0),
    decreases k,
{
    assert(xs.map_values(f).drop_first() =~= xs.drop_first().map_values(f));
    if k > 0 {
        assert forall|i: int| 0 <= i < k - 1 implies f(#[trigger] xs.drop_first()[i]) is Right by {
            assert(xs.drop_first()[i] == xs[i + 1]);
        }
        assert(xs.drop_first()[k - 1] == xs[k]);
        law_list_traverse_either_first_left(xs.drop_first(), f, k - 1);
        assert(f(xs[0]) is Right);
    }
}

/// Traversing in `Validation` with an effect that never fails gives
/// `Success` of the mapped list.
pub proof fn law_list_traverse_validation_pure<E: Semigroup, A, B>(xs: Seq<A>, f: spec_fn(A) -> B)
    ensures
        seq_traverse_validation(xs, |a: A| Validation::<E, B>::Success(f(a))) == Validation::<E, Seq<B>>::Success(
            xs.map_values(f),
        ),
    decreases xs.len(),
{
    if xs.len() > 0 {
        law_list_traverse_validation_pure::<E, A, B>(xs.drop_first(), f);
        assert(xs.map_values(|a: A| Validation::<E, B>::Success(f(a))).drop_first() =~= xs.drop_first().map_values(
            |a: A| Validation::<E, B>::Success(f(a)),
        ));
        assert(seq![f(xs[0])] + xs.drop_first().map_values(f) =~= xs.map_values(f));
    } else {
        assert(xs.map_values(f) =~= Seq::<B>::empty());
    }
}

/// Traversing in `Validation` keeps every error: with two elements that
/// both fail, the result combines both errors, the first one first.
pub proof fn law_list_traverse_validation_accumulates<E: Semigroup, A, B>(
    x: A,
    y: A,
    f: spec_fn(A) -> Validation<E, B>,
)
    requires
        f(x) is Failure,
        f(y) is Failure,
    ensures
        seq_traverse_validation(seq![x, y], f) == Validation::<E, Seq<B>>::Failure(
            (f(x)->Failure_0).spec_associate(f(y)->Failure_0),
        ),
{
    let xs = seq![x, y];
    let outs = xs.map_values(f);
    let tail = seq![f(y)];
    assert(outs.drop_first() =~= tail);
    assert(tail.drop_first() =~= Seq::<Validation<E, B>>::empty());
    assert(seq_sequence_validation(Seq::<Validation<E, B>>::empty()) is Success);
    assert(tail[0] == f(y));
    assert(seq_sequence_validation(tail) == Validation::<E, Seq<B>>::Failure(f(y)->Failure_0));
    assert(outs[0] == f(x));
}

/// Traversing in `List` with an effect that gives exactly one value per
/// element gives exactly one list: the mapped one.
pub proof fn law_list_traverse_list_pure<A, B>(xs: Seq<A>, f: spec_fn(A) -> B)
    ensures
        seq_sequence_list(xs.map_values(|a: A| seq![f(a)])) == seq![xs.map_values(f)],
    decreases xs.len(),
{
    let outs = xs.map_values(|a: A| seq![f(a)]);
    if xs.len() > 0 {
        law_list_traverse_list_pure(xs.drop_first(), f);
        assert(outs.drop_first() =~= xs.drop_first().map_values(|a: A| seq![f(a)]));
        let rest = seq![xs.drop_first().map_values(f)];
        lemma_seq_bind_singleton(f(xs[0]), prepend_each(rest));
        assert(outs[0] == seq![f(xs[0])]);
        assert(seq![f(xs[0])] + xs.drop_first().map_values(f) =~= xs.map_values(f));
        assert(prepend_each(rest)(f(xs[0])) =~= seq![xs.map_values(f)]);
    } else {
        assert(outs =~= Seq::<Seq<B>>::empty());
        assert(xs.map_values(f) =~= Seq::<B>::empty());
    }
}

/// Traversing in `List` with an effect that gives no value for some element
/// gives no list at all.
pub proof fn law_list_traverse_list_empty_effect<B>(outs: Seq<Seq<B>>, k: int)
    requires
        0 <= k < outs.len(),
        outs[k].len() == 0,
    ensures
        seq_sequence_list(outs).len() == 0,
    decreases outs.len(),
{
    let rest = seq_sequence_list(outs.drop_first());
    if k > 0 {
        assert(outs.drop_first()[k - 1] == outs[k]);
        law_list_traverse_list_empty_effect(outs.drop_first(), k - 1);
        lemma_seq_bind_empty_rows(outs[0], rest);
    } else {
        assert(seq_bind(outs[0], prepend_each(rest)) == Seq::<Seq<B>>::empty());
    }
}

proof fn lemma_seq_bind_empty_rows<B>(ys: Seq<B>, rest: Seq<Seq<B>>)
    requires
        rest.len() == 0,
    ensures
        seq_bind(ys, prepend_each(rest)).len() == 0,
    decreases ys.len(),
{
    if ys.len() > 0 {
        lemma_seq_bind_empty_rows(ys.drop_first(), rest);
    }
}

/// Combining results in `Validation` succeeds exactly when every result is a
/// `Success`, and then gives the values of the results, in order.
pub proof fn law_sequence_validation_success<E: Semigroup, B>(outs: Seq<Validation<E, B>>)
    ensures
        (seq_sequence_validation(outs) is Success) <==> (forall|i: int|
            0 <= i < outs.len() ==> #[trigger] outs[i] is Success),
        seq_sequence_validation(outs) matches Validation::Success(bs) ==> bs.len() == outs.len() && forall|i: int|
            0 <= i < outs.len() ==> outs[i] == Validation::<E, B>::Success(#[trigger] bs[i]),
    decreases outs.len(),
{
    if outs.len() > 0 {
        let rest = outs.drop_first();
        law_sequence_validation_success(rest);
        let s = seq_sequence_validation(outs);
        let sr = seq_sequence_validation(rest);
        assert forall|i: int| 0 <= i < rest.len() implies #[trigger] rest[i] == outs[i + 1] by {}
        if forall|i: int| 0 <= i < outs.len() ==> #[trigger] outs[i] is Success {
            assert(outs[0] is Success);
            assert forall|i: int| 0 <= i < rest.len() implies #[trigger] rest[i] is Success by {
                assert(outs[i + 1] is Success);
            }
        }
        if s is Success {
            assert(outs[0] is Success && sr is Success);
            assert forall|i: int| 0 <= i < outs.len() implies #[trigger] outs[i] is Success by {
                if i > 0 {
                    assert(rest[i - 1] is Success);
                }
            }
        }
        if let Validation::Success(bs) = s {
            let bsr = sr->Success_0;
            assert(bs == seq![outs[0]->Success_0] + bsr);
            assert forall|i: int| 0 <= i < outs.len() implies outs[i] == Validation::<E, B>::Success(#[trigger] bs[i]) by {
                if i > 0 {
                    assert(bs[i] == bsr[i - 1]);
                    assert(rest[i - 1] == Validation::<E, B>::Success(bsr[i - 1]));
                }
            }
        }
    }
}

/// Combining results in `Validation` where exactly one result fails gives
/// that failure's error.
pub proof fn law_sequence_validation_single_failure<E: Semigroup, B>(outs: Seq<Validation<E, B>>, k: int)
    requires
        0 <= k < outs.len(),
        outs[k] is Failure,
        forall|i: int| 0 <= i < outs.len() && i != k ==> #[trigger] outs[i] is Success,
    ensures
        seq_sequence_validation(outs) == Validation::<E, Seq<B>>::Failure(outs[k]->Failure_0),
    decreases outs.len(),
{
    let rest = outs.drop_first();
    assert forall|i: int| 0 <= i < rest.len() implies #[trigger] rest[i] == outs[i + 1] by {}
    if k > 0 {
        assert forall|i: int| 0 <= i < rest.len() && i != k - 1 implies #[trigger] rest[i] is Success by {
            assert(outs[i + 1] is Success);
        }
        law_sequence_validation_single_failure(rest, k - 1);
        assert(outs[0] is Success);
    } else {
        assert forall|i: int| 0 <= i < rest.len() implies #[trigger] rest[i] is Success by {
            assert(outs[i + 1] is Success);
        }
        law_sequence_validation_success(rest);
    }
}

/// Traversing in `Validation` succeeds exactly when the effect succeeds on
/// every element, and then gives the values, in order; when the effect
/// fails on exactly one element, the traversal fails with that error.
pub proof fn law_list_traverse_validation_success<E: Semigroup, A, B>(
    xs: Seq<A>,
    f: spec_fn(A) -> Validation<E, B>,
    k: int,
)
    ensures
        (seq_traverse_validation(xs, f) is Success) <==> (forall|i: int|
            0 <= i < xs.len() ==> #[trigger] f(xs[i]) is Success),
        seq_traverse_validation(xs, f) matches Validation::Success(bs) ==> bs.len() == xs.len() && forall|i: int|
            0 <= i < xs.len() ==> f(xs[i]) == Validation::<E, B>::Success(#[trigger] bs[i]),
        0 <= k < xs.len() && f(xs[k]) is Failure && (forall|i: int|
            0 <= i < xs.len() && i != k ==> #[trigger] f(xs[i]) is Success) ==> seq_traverse_validation(xs, f)
            == Validation::<E, Seq<B>>::Failure(f(xs[k])->Failure_0),
{
    let outs = xs.map_values(f);
    law_sequence_validation_success(outs);
    assert forall|i: int| 0 <= i < xs.len() implies #[trigger] outs[i] == f(xs[i]) by {}
    if forall|i: int| 0 <= i < xs.len() ==> #[trigger] f(xs[i]) is Success {
        assert forall|i: int| 0 <= i < outs.len() implies #[trigger] outs[i] is Success by {
            assert(f(xs[i]) is Success);
        }
    }
    if forall|i: int| 0 <= i < outs.len() ==> #[trigger] outs[i] is Success {
        assert forall|i: int| 0 <= i < xs.len() implies #[trigger] f(xs[i]) is Success by {
            assert(outs[i] is Success);
        }
    }
    if 0 <= k < xs.len() && f(xs[k]) is Failure && (forall|i: int|
        0 <= i < xs.len() && i != k ==> #[trigger] f(xs[i]) is Success) {
        assert forall|i: int| 0 <= i < outs.len() && i != k implies #[trigger] outs[i] is Success by {
            assert(f(xs[i]) is Success);
        }
        law_sequence_validation_single_failure(outs, k);
    }
}

/// Combining results in `Either` gives `Right` exactly when every result is
/// `Right`, and then the values, in order.
pub proof fn law_sequence_either_right<E, B>(outs: Seq<Either<E, B>>)
    ensures
        (seq_sequence_either(outs) is Right) <==> (forall|i: int| 0 <= i < outs.len() ==> #[trigger] outs[i] is Right),
        seq_sequence_either(outs) matches Either::Right(bs) ==> bs.len() == outs.len() && forall|i: int|
            0 <= i < outs.len() ==> outs[i] == Either::<E, B>::Right(#[trigger] bs[i]),
    decreases outs.len(),
{
    if outs.len() > 0 {
        let rest = outs.drop_first();
        law_sequence_either_right(rest);
        let s = seq_sequence_either(outs);
        let sr = seq_sequence_either(rest);
        assert forall|i: int| 0 <= i < rest.len() implies #[trigger] rest[i] == outs[i + 1] by {}
        if forall|i: int| 0 <= i < outs.len() ==> #[trigger] outs[i] is Right {
            assert(outs[0] is Right);
            assert forall|i: int| 0 <= i < rest.len() implies #[trigger] rest[i] is Right by {
                assert(outs[i + 1] is Right);
            }
        }
        if s is Right {
            assert(outs[0] is Right && sr is Right);
            assert forall|i: int| 0 <= i < outs.len() implies #[trigger] outs[i] is Right by {
                if i > 0 {
                    assert(rest[i - 1] is Right);
                }
            }
        }
        if let Either::Right(bs) = s {
            let bsr = sr->Right_0;
            assert(bs == seq![outs[0]->Right_0] + bsr);
            assert forall|i: int| 0 <= i < outs.len() implies outs[i] == Either::<E, B>::Right(#[trigger] bs[i]) by {
                if i > 0 {
                    assert(bs[i] == bsr[i - 1]);
                    assert(rest[i - 1] == Either::<E, B>::Right(bsr[i - 1]));
                }
            }
        }
    }
}

/// Traversing in `Maybe` gives `Just` exactly when the effect gives `Just`
/// on every element, and then the values, in order.
pub proof fn law_list_traverse_maybe_just<A, B>(xs: Seq<A>, f: spec_fn(A) -> Maybe<B>)
    ensures
        (seq_traverse_maybe(xs, f) is Just) <==> (forall|i: int| 0 <= i < xs.len() ==> #[trigger] f(xs[i]) is Just),
        seq_traverse_maybe(xs, f) matches Maybe::Just(bs) ==> bs.len() == xs.len() && forall|i: int|
            0 <= i < xs.len() ==> f(xs[i]) == Maybe::Just(#[trigger] bs[i]),
    decreases xs.len(),
{
    if xs.len() > 0 {
        let rest = xs.drop_first();
        law_list_traverse_maybe_just(rest, f);
        let s = seq_traverse_maybe(xs, f);
        let sr = seq_traverse_maybe(rest, f);
        assert forall|i: int| 0 <= i < rest.len() implies #[trigger] rest[i] == xs[i + 1] by {}
        if forall|i: int| 0 <= i < xs.len() ==> #[trigger] f(xs[i]) is Just {
            assert(f(xs[0]) is Just);
            assert forall|i: int| 0 <= i < rest.len() implies #[trigger] f(rest[i]) is Just by {
                assert(f(xs[i + 1]) is Just);
            }
        }
        if s is Just {
            assert(f(xs[0]) is Just && sr is Just);
            assert forall|i: int| 0 <= i < xs.len() implies #[trigger] f(xs[i]) is Just by {
                if i > 0 {
                    assert(f(rest[i - 1]) is Just);
                }
            }
        }
        if let Maybe::Just(bs) = s {
            let bsr = sr->Just_0;
            assert(bs == seq![f(xs[0])->Just_0] + bsr);
            assert forall|i: int| 0 <= i < xs.len() implies f(xs[i]) == Maybe::Just(#[trigger] bs[i]) by {
                if i > 0 {
                    assert(bs[i] == bsr[i - 1]);
                    assert(f(rest[i - 1]) == Maybe::Just(bsr[i - 1]));
                }
            }
        }
    }
}

/// The product of the lengths of the sequences of `outs`.
pub open spec fn lengths_product<B>(outs: Seq<Seq<B>>) -> nat
    decreases outs.len(),
{
    if outs.len() == 0 {
        1
    } else {
        outs[0].len() * lengths_product(outs.drop_first())
    }
}

/// `s` is a value of `ys` followed by a row of `rows`.
spec fn picked_from<B>(ys: Seq<B>, rows: Seq<Seq<B>>, s: Seq<B>) -> bool {
    exists|i: int, j: int| #![trigger ys[i], rows[j]] 0 <= i < ys.len() && 0 <= j < rows.len() && s == seq![ys[i]] + rows[j]
}

proof fn lemma_bind_prepend<B>(ys: Seq<B>, rows: Seq<Seq<B>>)
    ensures
        seq_bind(ys, prepend_each(rows)).len() == ys.len() * rows.len(),
        forall|k: int|
            0 <= k < seq_bind(ys, prepend_each(rows)).len() ==> picked_from(
                ys,
                rows,
                #[trigger] seq_bind(ys, prepend_each(rows))[k],
            ),
    decreases ys.len(),
{
    if ys.len() > 0 {
        let more = ys.drop_first();
        lemma_bind_prepend(more, rows);
        let head = prepend_each(rows)(ys[0]);
        let all = seq_bind(ys, prepend_each(rows));
        let tail = seq_bind(more, prepend_each(rows));
        assert(all == head + tail);
        assert(head.len() == rows.len());
        assert(ys.len() * rows.len() == rows.len() + more.len() * rows.len()) by (nonlinear_arith)
            requires
                more.len() + 1 == ys.len(),
        ;
        assert forall|k: int| 0 <= k < all.len() implies picked_from(ys, rows, #[trigger] all[k]) by {
            if k < head.len() {
                assert(all[k] == seq![ys[0]] + rows[k]);
            } else {
                assert(all[k] == tail[k - head.len()]);
                assert(picked_from(more, rows, tail[k - head.len()]));
                let (i, j) = choose|i: int, j: int|
                    #![trigger more[i], rows[j]]
                    0 <= i < more.len() && 0 <= j < rows.len() && tail[k - head.len()] == seq![more[i]] + rows[j];
                assert(more[i] == ys[i + 1]);
                assert(all[k] == seq![ys[i + 1]] + rows[j]);
            }
        }
    }
}

/// Traversing in `List` gives as many lists as the product of the numbers
/// of choices, and each is a choice: as long as the input, with its value at
/// every place taken from the result of the effect there.
pub proof fn law_sequence_list_choices<B>(outs: Seq<Seq<B>>)
    ensures
        seq_sequence_list(outs).len() == lengths_product(outs),
        forall|k: int|
            0 <= k < seq_sequence_list(outs).len() ==> (#[trigger] seq_sequence_list(outs)[k]).len() == outs.len()
                && forall|i: int| 0 <= i < outs.len() ==> outs[i].contains(seq_sequence_list(outs)[k][i]),
    decreases outs.len(),
{
    let res = seq_sequence_list(outs);
    if outs.len() > 0 {
        let more = outs.drop_first();
        law_sequence_list_choices(more);
        let rows = seq_sequence_list(more);
        lemma_bind_prepend(outs[0], rows);
        assert forall|k: int| 0 <= k < res.len() implies (#[trigger] res[k]).len() == outs.len() && forall|i: int|
            0 <= i < outs.len() ==> outs[i].contains(res[k][i]) by {
            assert(picked_from(outs[0], rows, res[k]));
            let (i0, j0) = choose|i: int, j: int|
                #![trigger outs[0][i], rows[j]]
                0 <= i < outs[0].len() && 0 <= j < rows.len() && res[k] == seq![outs[0][i]] + rows[j];
            assert(rows[j0].len() == more.len());
            assert forall|i: int| 0 <= i < outs.len() implies outs[i].contains(res[k][i]) by {
                if i == 0 {
                    assert(res[k][0] == outs[0][i0]);
                } else {
                    assert(res[k][i] == rows[j0][i - 1]);
                    assert(more[i - 1] == outs[i]);
                    assert(more[i - 1].contains(rows[j0][i - 1]));
                }
            }
        }
    } else {
        assert forall|k: int| 0 <= k < res.len() implies (#[trigger] res[k]).len() == outs.len() by {
            assert(res[k] == Seq::<B>::empty());
        }
    }
}

/// `apply` on lists pairs every function with every value, the functions
/// varying slowest: the result has `gs.len() * xs.len()` values, and the
/// value at `i * xs.len() + j` is function `i` applied to value `j`.
pub proof fn law_list_apply_index<G, A, B>(gs: Seq<G>, xs: Seq<A>, ev: spec_fn(G, A) -> B, i: int, j: int)
    ensures
        seq_ap(gs, xs, ev).len() == gs.len() * xs.len(),
        0 <= i < gs.len() && 0 <= j < xs.len() ==> i * xs.len() + j < seq_ap(gs, xs, ev).len() && seq_ap(gs, xs, ev)[i
            * xs.len() + j] == ev(gs[i], xs[j]),
    decreases gs.len(),
{
    if gs.len() > 0 {
        let more = gs.drop_first();
        law_list_apply_index(more, xs, ev, i - 1, j);
        let row = xs.map_values(|a: A| ev(gs[0], a));
        let all = seq_ap(gs, xs, ev);
        let tail = seq_ap(more, xs, ev);
        assert(all == row + tail);
        assert(gs.len() * xs.len() == xs.len() + more.len() * xs.len()) by (nonlinear_arith)
            requires
                more.len() + 1 == gs.len(),
        ;
        if 0 <= i < gs.len() && 0 <= j < xs.len() {
            if i == 0 {
                assert(all[j] == row[j]);
            } else {
                assert(i * xs.len() + j == xs.len() + ((i - 1) * xs.len() + j)) by (nonlinear_arith);
                assert(more[i - 1] == gs[i]);
                assert(all[i * xs.len() + j] == tail[(i - 1) * xs.len() + j]);
            }
        }
    }
}

/// `try_foldr` stops at the first element on which `brk` breaks: with `ys`
/// the values that `brk` let through before it, the result is the right fold
/// of `ys` onto the break value; what follows that element is never looked
/// at.
pub proof fn law_list_try_foldr_break<A, B>(
    acc: spec_fn(A, B) -> B,
    brk: spec_fn(A) -> ControlFlow<B, A>,
    init: B,
    xs: Seq<A>,
    ys: Seq<A>,
    b: B,
)
    requires
        ys.len() < xs.len(),
        brk(xs[ys.len() as int]) == ControlFlow::<B, A>::Break(b),
        forall|i: int| 0 <= i < ys.len() ==> brk(#[trigger] xs[i]) == ControlFlow::<B, A>::Continue(ys[i]),
    ensures
        seq_try_foldr(acc, brk, init, xs) == seq_foldr(acc, b, ys),
    decreases ys.len(),
{
    if ys.len() > 0 {
        let xs1 = xs.drop_first();
        let ys1 = ys.drop_first();
        assert forall|i: int| 0 <= i < ys1.len() implies brk(#[trigger] xs1[i]) == ControlFlow::<B, A>::Continue(
            ys1[i],
        ) by {
            assert(xs1[i] == xs[i + 1]);
            assert(brk(xs[i + 1]) == ControlFlow::<B, A>::Continue(ys[i + 1]));
        }
        assert(xs1[ys1.len() as int] == xs[ys.len() as int]);
        law_list_try_foldr_break(acc, brk, init, xs1, ys1, b);
        assert(brk(xs[0]) == ControlFlow::<B, A>::Continue(ys[0]));
    }
}

} // verus!
