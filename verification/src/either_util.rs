//! Functions on `Either` values and lists of them.
use vstd::prelude::*;

use crate::either::Either;
use crate::function::{clone_preserves, clones_seq, computes, lemma_clones_seq_eq};
use crate::list::List;
use crate::list_model::seq_bind;
use crate::maybe::Maybe;

verus! {

impl<A, B> Either<A, B> {
    /// The `Left` value as a sequence of one element, or none.
    pub open spec fn spec_left_seq(self) -> Seq<A> {
        match self {
            Either::Left(a) => seq![a],
            Either::Right(_) => Seq::empty(),
        }
    }

    /// The `Right` value as a sequence of one element, or none.
    pub open spec fn spec_right_seq(self) -> Seq<B> {
        match self {
            Either::Left(_) => Seq::empty(),
            Either::Right(b) => seq![b],
        }
    }

    /// Mathematical model of `either`.
    pub open spec fn spec_either<C>(self, f: spec_fn(A) -> C, g: spec_fn(B) -> C) -> C {
        match self {
            Either::Left(a) => f(a),
            Either::Right(b) => g(b),
        }
    }
}

/// `left` applied to a `Left` value, `right` applied to a `Right` value.
pub fn either<A, B, C, GL: Fn(A) -> C, GR: Fn(B) -> C>(left: GL, right: GR, x: Either<A, B>) -> (r: C)
    requires
        x matches Either::Left(a) ==> call_requires(left, (a,)),
        x matches Either::Right(b) ==> call_requires(right, (b,)),
    ensures
        match x {
            Either::Left(a) => call_ensures(left, (a,), r),
            Either::Right(b) => call_ensures(right, (b,), r),
        },
        forall|f: spec_fn(A) -> C, g: spec_fn(B) -> C|
            computes(left, f) && computes(right, g) ==> r == #[trigger] x.spec_either(f, g),
{
    match x {
        Either::Left(x) => left(x),
        Either::Right(x) => right(x),
    }
}

/// The values of the `Left` elements, in order; the elements are taken out of
/// their cells as `List::decompose` does.
pub fn lefts<A: Clone, B: Clone>(xs: List<Either<A, B>>) -> (r: List<A>)
    ensures
        exists|es: Seq<Either<A, B>>|
            #[trigger] clones_seq(xs@, es) && r@ == seq_bind(es, |e: Either<A, B>| e.spec_left_seq()),
        clone_preserves::<A>() && clone_preserves::<B>() ==> r@ == seq_bind(xs@, |e: Either<A, B>| e.spec_left_seq()),
    decreases xs@.len(),
{
    let ghost xs0 = xs@;
    let r = match xs.decompose() {
        Maybe::Just((x, rest)) => {
            let ghost xg = x;
            let zs = lefts(rest);
            let ghost es = choose|es: Seq<Either<A, B>>|
                #[trigger] clones_seq(rest@, es) && zs@ == seq_bind(es, |e: Either<A, B>| e.spec_left_seq());
            let r = match x {
                Either::Left(a) => List::cons(a, zs),
                Either::Right(_) => zs,
            };
            proof {
                let all = seq![xg] + es;
                assert(all.drop_first() =~= es);
                assert forall|i: int| 0 <= i < xs0.len() implies cloned(xs0[i], #[trigger] all[i]) by {
                    if i > 0 {
                        assert(xs0[i] == rest@[i - 1]);
                    }
                }
                assert(clones_seq(xs0, all));
                assert(r@ =~= seq_bind(all, |e: Either<A, B>| e.spec_left_seq()));
            }
            r
        },
        Maybe::Nothing => {
            assert(clones_seq(xs0, Seq::<Either<A, B>>::empty()));
            List::empty()
        },
    };
    proof {
        if clone_preserves::<A>() && clone_preserves::<B>() {
            Either::<A, B>::lemma_clone_preserves();
            let es = choose|es: Seq<Either<A, B>>|
                #[trigger] clones_seq(xs0, es) && r@ == seq_bind(es, |e: Either<A, B>| e.spec_left_seq());
            lemma_clones_seq_eq(xs0, es);
        }
    }
    r
}

/// The values of the `Right` elements, in order; the elements are taken out of
/// their cells as `List::decompose` does.
pub fn rights<A: Clone, B: Clone>(xs: List<Either<A, B>>) -> (r: List<B>)
    ensures
        exists|es: Seq<Either<A, B>>|
            #[trigger] clones_seq(xs@, es) && r@ == seq_bind(es, |e: Either<A, B>| e.spec_right_seq()),
        clone_preserves::<A>() && clone_preserves::<B>() ==> r@ == seq_bind(xs@, |e: Either<A, B>| e.spec_right_seq()),
    decreases xs@.len(),
{
    let ghost xs0 = xs@;
    let r = match xs.decompose() {
        Maybe::Just((x, rest)) => {
            let ghost xg = x;
            let zs = rights(rest);
            let ghost es = choose|es: Seq<Either<A, B>>|
                #[trigger] clones_seq(rest@, es) && zs@ == seq_bind(es, |e: Either<A, B>| e.spec_right_seq());
            let r = match x {
                Either::Left(_) => zs,
                Either::Right(b) => List::cons(b, zs),
            };
            proof {
                let all = seq![xg] + es;
                assert(all.drop_first() =~= es);
                assert forall|i: int| 0 <= i < xs0.len() implies cloned(xs0[i], #[trigger] all[i]) by {
                    if i > 0 {
                        assert(xs0[i] == rest@[i - 1]);
                    }
                }
                assert(clones_seq(xs0, all));
                assert(r@ =~= seq_bind(all, |e: Either<A, B>| e.spec_right_seq()));
            }
            r
        },
        Maybe::Nothing => {
            assert(clones_seq(xs0, Seq::<Either<A, B>>::empty()));
            List::empty()
        },
    };
    proof {
        if clone_preserves::<A>() && clone_preserves::<B>() {
            Either::<A, B>::lemma_clone_preserves();
            let es = choose|es: Seq<Either<A, B>>|
                #[trigger] clones_seq(xs0, es) && r@ == seq_bind(es, |e: Either<A, B>| e.spec_right_seq());
            lemma_clones_seq_eq(xs0, es);
        }
    }
    r
}

/// Whether `x` is `Left`.
pub fn is_left<A, B>(x: &Either<A, B>) -> (r: bool)
    ensures
        r == x is Left,
{
    matches!(x, Either::Left(_))
}

/// Whether `x` is `Right`.
pub fn is_right<A, B>(x: &Either<A, B>) -> (r: bool)
    ensures
        r == x is Right,
{
    matches!(x, Either::Right(_))
}

/// The `Left` value of `x`, or `default`.
pub fn from_left<A, B>(default: A, x: Either<A, B>) -> (r: A)
    ensures
        r == (match x {
            Either::Left(a) => a,
            Either::Right(_) => default,
        }),
{
    match x {
        Either::Left(x) => x,
        Either::Right(_) => default,
    }
}

/// The `Right` value of `x`, or `default`.
pub fn from_right<A, B>(default: B, x: Either<A, B>) -> (r: B)
    ensures
        r == (match x {
            Either::Left(_) => default,
            Either::Right(b) => b,
        }),
{
    match x {
        Either::Left(_) => default,
        Either::Right(x) => x,
    }
}

/// The `Left` values and the `Right` values, each in order; the elements
/// are taken out of their cells as `List::decompose` does.
pub fn partition_eithers<A: Clone, B: Clone>(xs: List<Either<A, B>>) -> (r: (List<A>, List<B>))
    ensures
        exists|es: Seq<Either<A, B>>|
            {
                &&& #[trigger] clones_seq(xs@, es)
                &&& r.0@ == seq_bind(es, |e: Either<A, B>| e.spec_left_seq())
                &&& r.1@ == seq_bind(es, |e: Either<A, B>| e.spec_right_seq())
            },
        clone_preserves::<A>() && clone_preserves::<B>() ==> r.0@ == seq_bind(xs@, |e: Either<A, B>| e.spec_left_seq())
            && r.1@ == seq_bind(xs@, |e: Either<A, B>| e.spec_right_seq()),
    decreases xs@.len(),
{
    let ghost xs0 = xs@;
    let r = match xs.decompose() {
        Maybe::Just((x, rest)) => {
            let ghost xg = x;
            let (ls, rs) = partition_eithers(rest);
            let ghost es = choose|es: Seq<Either<A, B>>|
                {
                    &&& #[trigger] clones_seq(rest@, es)
                    &&& ls@ == seq_bind(es, |e: Either<A, B>| e.spec_left_seq())
                    &&& rs@ == seq_bind(es, |e: Either<A, B>| e.spec_right_seq())
                };
            let r = match x {
                Either::Left(a) => (List::cons(a, ls), rs),
                Either::Right(b) => (ls, List::cons(b, rs)),
            };
            proof {
                let all = seq![xg] + es;
                assert(all.drop_first() =~= es);
                assert forall|i: int| 0 <= i < xs0.len() implies cloned(xs0[i], #[trigger] all[i]) by {
                    if i > 0 {
                        assert(xs0[i] == rest@[i - 1]);
                    }
                }
                assert(clones_seq(xs0, all));
                assert(r.0@ =~= seq_bind(all, |e: Either<A, B>| e.spec_left_seq()));
                assert(r.1@ =~= seq_bind(all, |e: Either<A, B>| e.spec_right_seq()));
            }
            r
        },
        Maybe::Nothing => {
            assert(clones_seq(xs0, Seq::<Either<A, B>>::empty()));
            (List::empty(), List::empty())
        },
    };
    proof {
        if clone_preserves::<A>() && clone_preserves::<B>() {
            Either::<A, B>::lemma_clone_preserves();
            let es = choose|es: Seq<Either<A, B>>|
                {
                    &&& #[trigger] clones_seq(xs0, es)
                    &&& r.0@ == seq_bind(es, |e: Either<A, B>| e.spec_left_seq())
                    &&& r.1@ == seq_bind(es, |e: Either<A, B>| e.spec_right_seq())
                };
            lemma_clones_seq_eq(xs0, es);
        }
    }
    r
}

} // verus!
