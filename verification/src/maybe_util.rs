//! Functions on `Maybe` values and lists of them.
use vstd::prelude::*;

use crate::function::{
    callable_on_clones, clone_preserves, clones_seq, computes, lemma_callable_drop_first, lemma_clones_seq_eq,
};
use crate::list::List;
use crate::list_model::{lemma_seq_bind_congruence, seq_bind};
use crate::maybe::{Maybe, MaybeInstance};

verus! {

/// `g` applied to the value inside `x`, or `default` on `Nothing`.
pub fn maybe<A, B, G: Fn(A) -> B>(default: B, g: G, x: Maybe<A>) -> (r: B)
    requires
        x matches Maybe::Just(a) ==> call_requires(g, (a,)),
    ensures
        match x {
            Maybe::Just(a) => call_ensures(g, (a,), r),
            Maybe::Nothing => r == default,
        },
        forall|f: spec_fn(A) -> B|
            computes(g, f) ==> r == #[trigger] x.spec_map(f).spec_from_maybe(default),
{
    let y = MaybeInstance::fmap(g, x);
    from_maybe(default, y)
}

/// Whether `x` is `Just`.
pub fn is_just<A>(x: &Maybe<A>) -> (r: bool)
    ensures
        r == x is Just,
{
    matches!(x, Maybe::Just(_))
}

/// Whether `x` is `Nothing`.
pub fn is_nothing<A>(x: &Maybe<A>) -> (r: bool)
    ensures
        r == x is Nothing,
{
    matches!(x, Maybe::Nothing)
}

/// The value inside a `Just`.
pub fn from_just<A>(x: Maybe<A>) -> (r: A)
    requires
        x is Just,
    ensures
        x == Maybe::Just(r),
{
    match x {
        Maybe::Just(x) => x,
        Maybe::Nothing => vstd::pervasive::unreached(),
    }
}

impl<T> Maybe<T> {
    /// The value inside, or `default` on `Nothing`.
    pub open spec fn spec_from_maybe(self, default: T) -> T {
        match self {
            Maybe::Just(x) => x,
            Maybe::Nothing => default,
        }
    }
}

/// The value inside `x`, or `default` on `Nothing`.
pub fn from_maybe<A>(default: A, x: Maybe<A>) -> (r: A)
    ensures
        r == x.spec_from_maybe(default),
{
    match x {
        Maybe::Just(x) => x,
        Maybe::Nothing => default,
    }
}

/// The first element of `s`, if any.
pub open spec fn seq_head<A>(s: Seq<A>) -> Maybe<A> {
    if s.len() > 0 {
        Maybe::Just(s[0])
    } else {
        Maybe::Nothing
    }
}

/// The first element of `xs`, if any: moved out when no other list shares
/// the first cell, cloned otherwise.
pub fn list_to_maybe<A: Clone>(xs: List<A>) -> (r: Maybe<A>)
    ensures
        xs@.len() == 0 ==> r == Maybe::<A>::Nothing,
        xs@.len() > 0 ==> (r matches Maybe::Just(x) && cloned(xs@[0], x)),
        clone_preserves::<A>() ==> r == seq_head(xs@),
{
    match xs.decompose() {
        Maybe::Just((x, _)) => Maybe::Just(x),
        Maybe::Nothing => Maybe::Nothing,
    }
}

/// The list of the value inside `x`: one element or none.
pub fn maybe_to_list<A>(x: Maybe<A>) -> (r: List<A>)
    ensures
        r@ == x.spec_to_seq(),
{
    match x {
        Maybe::Just(x) => List::singleton(x),
        Maybe::Nothing => List::empty(),
    }
}

/// The values of the `Just` elements, in order; the elements are taken out
/// of their cells as `List::decompose` does.
pub fn cat_maybes<A: Clone>(xs: List<Maybe<A>>) -> (r: List<A>)
    ensures
        exists|ms: Seq<Maybe<A>>|
            #[trigger] clones_seq(xs@, ms) && r@ == seq_bind(ms, |m: Maybe<A>| m.spec_to_seq()),
        clone_preserves::<A>() ==> r@ == seq_bind(xs@, |m: Maybe<A>| m.spec_to_seq()),
    decreases xs@.len(),
{
    let ghost xs0 = xs@;
    let r = match xs.decompose() {
        Maybe::Just((x, rest)) => {
            let ghost xg = x;
            let zs = cat_maybes(rest);
            let ghost ms = choose|ms: Seq<Maybe<A>>|
                #[trigger] clones_seq(rest@, ms) && zs@ == seq_bind(ms, |m: Maybe<A>| m.spec_to_seq());
            let r = match x {
                Maybe::Just(a) => List::cons(a, zs),
                Maybe::Nothing => zs,
            };
            proof {
                let all = seq![xg] + ms;
                assert(all.drop_first() =~= ms);
                assert(all[0] == xg);
                assert forall|i: int| 0 <= i < xs0.len() implies cloned(xs0[i], #[trigger] all[i]) by {
                    if i > 0 {
                        assert(xs0[i] == rest@[i - 1]);
                    }
                }
                assert(clones_seq(xs0, all));
                assert(r@ =~= seq_bind(all, |m: Maybe<A>| m.spec_to_seq()));
            }
            r
        },
        Maybe::Nothing => {
            assert(clones_seq(xs0, Seq::<Maybe<A>>::empty()));
            List::empty()
        },
    };
    proof {
        if clone_preserves::<A>() {
            Maybe::<A>::lemma_clone_preserves();
            let ms = choose|ms: Seq<Maybe<A>>|
                #[trigger] clones_seq(xs0, ms) && r@ == seq_bind(ms, |m: Maybe<A>| m.spec_to_seq());
            lemma_clones_seq_eq(xs0, ms);
        }
    }
    r
}

/// The values of the `Just` results of `map` on (clones of) the elements,
/// in order.
pub fn map_maybes<A: Clone, B, G: Fn(A) -> Maybe<B>>(map: G, xs: List<A>) -> (r: List<B>)
    requires
        callable_on_clones(map, xs@),
    ensures
        exists|args: Seq<A>, outs: Seq<Maybe<B>>| #![trigger clones_seq(xs@, args), outs.len()]
            {
                &&& clones_seq(xs@, args)
                &&& outs.len() == xs@.len()
                &&& forall|i: int| 0 <= i < xs@.len() ==> call_ensures(map, (args[i],), #[trigger] outs[i])
                &&& r@ == seq_bind(outs, |m: Maybe<B>| m.spec_to_seq())
            },
        forall|f: spec_fn(A) -> Maybe<B>|
            clone_preserves::<A>() && computes(map, f) ==> r@ == #[trigger] seq_bind_maybes(xs@, f),
{
    let ghost xs0 = xs@;
    let (r, Ghost(run)) = map_maybes_ref(&map, xs);
    let ghost args = run.0;
    let ghost outs = run.1;
    assert(clones_seq(xs0, args));
    proof {
        assert forall|f: spec_fn(A) -> Maybe<B>| clone_preserves::<A>() && computes(map, f) implies r@
            == #[trigger] seq_bind_maybes(xs0, f) by {
            lemma_clones_seq_eq(xs0, args);
            assert forall|i: int| 0 <= i < outs.len() implies (|m: Maybe<B>| m.spec_to_seq())(#[trigger] outs[i])
                == (|a: A| f(a).spec_to_seq())(xs0[i]) by {
                assert(call_ensures(map, (args[i],), outs[i]));
            }
            lemma_seq_bind_congruence(outs, xs0, |m: Maybe<B>| m.spec_to_seq(), |a: A| f(a).spec_to_seq());
        }
    }
    r
}

fn map_maybes_ref<A: Clone, B, G: Fn(A) -> Maybe<B>>(map: &G, xs: List<A>) -> (r: (
    List<B>,
    Ghost<(Seq<A>, Seq<Maybe<B>>)>,
))
    requires
        callable_on_clones(*map, xs@),
    ensures
        clones_seq(xs@, r.1@.0),
        r.1@.1.len() == xs@.len(),
        forall|i: int| 0 <= i < xs@.len() ==> call_ensures(*map, (r.1@.0[i],), #[trigger] r.1@.1[i]),
        r.0@ == seq_bind(r.1@.1, |m: Maybe<B>| m.spec_to_seq()),
    decreases xs@.len(),
{
    let ghost xs0 = xs@;
    match xs.decompose() {
        Maybe::Just((x, rest)) => {
            let ghost xg = x;
            assert(cloned(xs0[0], x));
            let y = map(x);
            let ghost yg = y;
            proof {
                lemma_callable_drop_first(*map, xs0);
            }
            let (zs, Ghost(run)) = map_maybes_ref(map, rest);
            let ghost args = seq![xg] + run.0;
            let ghost outs = seq![yg] + run.1;
            let r = match y {
                Maybe::Just(b) => List::cons(b, zs),
                Maybe::Nothing => zs,
            };
            proof {
                assert(outs.drop_first() =~= run.1);
                assert(r@ =~= seq_bind(outs, |m: Maybe<B>| m.spec_to_seq()));
                assert forall|i: int| 0 <= i < xs0.len() implies cloned(xs0[i], #[trigger] args[i]) by {
                    if i > 0 {
                        assert(xs0[i] == rest@[i - 1]);
                        assert(args[i] == run.0[i - 1]);
                    }
                }
                assert forall|i: int| 0 <= i < xs0.len() implies call_ensures(*map, (args[i],), #[trigger] outs[i]) by {
                    if i > 0 {
                        assert(args[i] == run.0[i - 1]);
                        assert(outs[i] == run.1[i - 1]);
                    }
                }
            }
            (r, Ghost((args, outs)))
        },
        Maybe::Nothing => (List::empty(), Ghost((Seq::empty(), Seq::empty()))),
    }
}

/// Model of `map_maybes`: the values of the `Just` images, in order.
pub open spec fn seq_bind_maybes<A, B>(xs: Seq<A>, f: spec_fn(A) -> Maybe<B>) -> Seq<B> {
    seq_bind(xs, |a: A| f(a).spec_to_seq())
}

} // verus!
