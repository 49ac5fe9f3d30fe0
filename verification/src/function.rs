//! Predicates that describe what an executable closure computes.
use vstd::prelude::*;

verus! {

/// `g` computes the mathematical function `f`: every result that a call of
/// `g` can return on `a` is `f(a)`.
pub open spec fn computes<A, B, G: Fn(A) -> B>(g: G, f: spec_fn(A) -> B) -> bool {
    forall|a: A, b: B| #[trigger] call_ensures(g, (a,), b) ==> b == f(a)
}

/// `g` computes the two-argument mathematical function `f`.
pub open spec fn computes2<A, B, C, G: Fn(A, B) -> C>(g: G, f: spec_fn(A, B) -> C) -> bool {
    forall|a: A, b: B, c: C| #[trigger] call_ensures(g, (a, b), c) ==> c == f(a, b)
}

/// The closure value `h` computes `ev(h, _)`: `ev` interprets closure values
/// as mathematical functions.
pub open spec fn interprets<A, B, G: Fn(A) -> B>(ev: spec_fn(G, A) -> B, h: G) -> bool {
    forall|a: A, b: B| #[trigger] call_ensures(h, (a,), b) ==> b == ev(h, a)
}

/// Application of a mathematical function, the interpretation of `spec_fn`
/// values used by the applicative laws.
pub open spec fn app<A, B>() -> spec_fn(spec_fn(A) -> B, A) -> B {
    |g: spec_fn(A) -> B, a: A| g(a)
}

/// Cloning a `T` gives back an equal value.
pub open spec fn clone_preserves<T: Clone>() -> bool {
    forall|a: T, b: T| #[trigger] cloned(a, b) ==> a == b
}

/// `ys` holds, position by position, clones of the values of `xs` (a value
/// counts as a clone of itself).
pub open spec fn clones_seq<T: Clone>(xs: Seq<T>, ys: Seq<T>) -> bool {
    &&& ys.len() == xs.len()
    &&& forall|i: int| 0 <= i < xs.len() ==> cloned(xs[i], #[trigger] ys[i])
}

/// Where cloning gives back equal values, a sequence of clones is the
/// sequence itself.
pub proof fn lemma_clones_seq_eq<T: Clone>(xs: Seq<T>, ys: Seq<T>)
    requires
        clone_preserves::<T>(),
        clones_seq(xs, ys),
    ensures
        ys == xs,
{
    assert forall|i: int| 0 <= i < xs.len() implies ys[i] == xs[i] by {
        assert(cloned(xs[i], ys[i]));
    }
    assert(ys =~= xs);
}

/// `g` may be called on a clone of any value of `xs`.
pub open spec fn callable_on_clones<A: Clone, B, G: Fn(A) -> B>(g: G, xs: Seq<A>) -> bool {
    forall|i: int, a: A|
        #![trigger xs[i], call_requires(g, (a,))]
        0 <= i < xs.len() && cloned(xs[i], a) ==> call_requires(g, (a,))
}

/// What holds of a sequence holds of its tail.
pub proof fn lemma_callable_drop_first<A: Clone, B, G: Fn(A) -> B>(g: G, xs: Seq<A>)
    requires
        callable_on_clones(g, xs),
        xs.len() > 0,
    ensures
        callable_on_clones(g, xs.drop_first()),
{
    assert forall|i: int, a: A|
        #![trigger xs.drop_first()[i], call_requires(g, (a,))]
        0 <= i < xs.drop_first().len() && cloned(xs.drop_first()[i], a) implies call_requires(g, (a,)) by {
        assert(xs.drop_first()[i] == xs[i + 1]);
    }
}

/// A sequence of clones of `xs` followed by a sequence of clones of `ys` is
/// a sequence of clones of `xs + ys`.
pub proof fn lemma_clones_seq_append<T: Clone>(xs: Seq<T>, xs2: Seq<T>, ys: Seq<T>, ys2: Seq<T>)
    requires
        clones_seq(xs, xs2),
        clones_seq(ys, ys2),
    ensures
        clones_seq(xs + ys, xs2 + ys2),
{
    assert forall|i: int| 0 <= i < (xs + ys).len() implies cloned((xs + ys)[i], #[trigger] (xs2 + ys2)[i]) by {
        if i < xs.len() {
            assert(cloned(xs[i], xs2[i]));
        } else {
            assert(cloned(ys[i - xs.len()], ys2[i - xs.len()]));
        }
    }
}

/// Every sequence is a sequence of clones of itself.
pub proof fn lemma_clones_seq_refl<T: Clone>(xs: Seq<T>)
    ensures
        clones_seq(xs, xs),
{
}

/// Curried composition of mathematical functions: `compose()(g)(h)(a) == g(h(a))`.
pub open spec fn compose<A, B, C>() -> spec_fn(spec_fn(B) -> C) -> spec_fn(spec_fn(A) -> B) -> spec_fn(A) -> C {
    |g: spec_fn(B) -> C| (|h: spec_fn(A) -> B| (|a: A| g(h(a))))
}

} // verus!
