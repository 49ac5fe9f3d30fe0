//! The functor, applicative, monad, alternative, semigroup and monoid
//! instances of `List`.
//!
//! An element leaves a cell by being moved when no other list shares the
//! cell and by being cloned otherwise (see `List::decompose`), so the
//! contracts speak of the clones that the closures were given; where cloning
//! gives back equal values, each operation equals its sequence model.
use vstd::prelude::*;

use crate::algebra::{Monoid, Semigroup};
use crate::function::{
    callable_on_clones, clone_preserves, clones_seq, computes, interprets, lemma_callable_drop_first,
    lemma_clones_seq_append, lemma_clones_seq_eq,
};
use crate::list::{List, ListInstance};
use crate::list_model::{lemma_seq_bind_congruence, seq_ap, seq_bind, seq_bind_lists};
use crate::maybe::Maybe;

verus! {

/// `fmap` by reference to the mapping; also returns the clones that `g` was
/// given.
fn map_ref<A: Clone, B, G: Fn(A) -> B>(g: &G, xs: List<A>) -> (r: (List<B>, Ghost<Seq<A>>))
    requires
        callable_on_clones(*g, xs@),
    ensures
        clones_seq(xs@, r.1@),
        r.0@.len() == xs@.len(),
        forall|i: int| 0 <= i < xs@.len() ==> call_ensures(*g, (r.1@[i],), #[trigger] r.0@[i]),
    decreases xs@.len(),
{
    let ghost xs0 = xs@;
    match xs.decompose() {
        Maybe::Just((x, rest)) => {
            let ghost xg = x;
            assert(cloned(xs0[0], x));
            let y = g(x);
            proof {
                lemma_callable_drop_first(*g, xs0);
            }
            let (ys, Ghost(args)) = map_ref(g, rest);
            let r = List::cons(y, ys);
            let ghost all = seq![xg] + args;
            proof {
                assert forall|i: int| 0 <= i < xs0.len() implies cloned(xs0[i], #[trigger] all[i]) by {
                    if i > 0 {
                        assert(xs0[i] == rest@[i - 1]);
                        assert(all[i] == args[i - 1]);
                    }
                }
                assert forall|i: int| 0 <= i < xs0.len() implies call_ensures(*g, (all[i],), #[trigger] r@[i]) by {
                    if i > 0 {
                        assert(all[i] == args[i - 1]);
                        assert(r@[i] == ys@[i - 1]);
                    }
                }
            }
            (r, Ghost(all))
        },
        Maybe::Nothing => (List::empty(), Ghost(Seq::empty())),
    }
}

/// `bind` by reference to the binder; also returns the clones that `g` was
/// given and the lists it gave, one per element.
fn bind_ref<A: Clone, B: Clone, G: Fn(A) -> List<B>>(g: &G, xs: List<A>) -> (r: (
    List<B>,
    Ghost<(Seq<A>, Seq<List<B>>)>,
))
    requires
        callable_on_clones(*g, xs@),
    ensures
        clones_seq(xs@, r.1@.0),
        r.1@.1.len() == xs@.len(),
        forall|i: int| 0 <= i < xs@.len() ==> call_ensures(*g, (r.1@.0[i],), #[trigger] r.1@.1[i]),
        clones_seq(seq_bind(r.1@.1, |l: List<B>| l@), r.0@),
    decreases xs@.len(),
{
    let ghost xs0 = xs@;
    match xs.decompose() {
        Maybe::Just((x, rest)) => {
            let ghost xg = x;
            assert(cloned(xs0[0], x));
            let ys = g(x);
            let ghost ysv = ys@;
            let ghost ysg = ys;
            proof {
                lemma_callable_drop_first(*g, xs0);
            }
            let (zs, Ghost(run)) = bind_ref(g, rest);
            let ghost args = seq![xg] + run.0;
            let ghost outs = seq![ysg] + run.1;
            let r = ys.append(zs);
            proof {
                assert(outs.drop_first() =~= run.1);
                assert(r@ =~= r@.take(ysv.len() as int) + r@.skip(ysv.len() as int));
                lemma_clones_seq_append(ysv, r@.take(ysv.len() as int), seq_bind(run.1, |l: List<B>| l@), zs@);
                assert(seq_bind(outs, |l: List<B>| l@) == ysv + seq_bind(run.1, |l: List<B>| l@));
                assert forall|i: int| 0 <= i < xs0.len() implies cloned(xs0[i], #[trigger] args[i]) by {
                    if i > 0 {
                        assert(xs0[i] == rest@[i - 1]);
                        assert(args[i] == run.0[i - 1]);
                    }
                }
                assert forall|i: int| 0 <= i < xs0.len() implies call_ensures(*g, (args[i],), #[trigger] outs[i]) by {
                    if i > 0 {
                        assert(args[i] == run.0[i - 1]);
                        assert(outs[i] == run.1[i - 1]);
                    }
                }
            }
            (r, Ghost((args, outs)))
        },
        Maybe::Nothing => (List::empty(), Ghost((Seq::empty(), Seq::empty()))),
    }
}

/// `funcs[i]` is the clone of the function `gs[i]` that was called,
/// `clones[i]` the clones of the values of `xs` it was given, and `rows[i]`
/// its results on them, in order.
pub open spec fn apply_run<A: Clone, B, G: Clone + Fn(A) -> B>(
    gs: Seq<G>,
    xs: Seq<A>,
    funcs: Seq<G>,
    clones: Seq<Seq<A>>,
    rows: Seq<Seq<B>>,
) -> bool {
    &&& clones_seq(gs, funcs)
    &&& clones.len() == gs.len()
    &&& rows.len() == gs.len()
    &&& forall|i: int| 0 <= i < gs.len() ==> (#[trigger] rows[i]).len() == xs.len() && clones[i].len() == xs.len()
    &&& forall|i: int, j: int|
        #![trigger rows[i][j]]
        #![trigger clones[i][j]]
        0 <= i < gs.len() && 0 <= j < xs.len() ==> cloned(xs[j], clones[i][j]) && call_ensures(
            funcs[i],
            (clones[i][j],),
            rows[i][j],
        )
}

/// Each function of `gs` may be called, through any of its clones, on any
/// clone of any value of `xs`.
pub open spec fn apply_callable<A: Clone, B, G: Clone + Fn(A) -> B>(gs: Seq<G>, xs: Seq<A>) -> bool {
    forall|i: int, j: int, h: G, a: A|
        #![trigger gs[i], xs[j], call_requires(h, (a,))]
        0 <= i < gs.len() && 0 <= j < xs.len() && cloned(gs[i], h) && cloned(xs[j], a) ==> call_requires(
            h,
            (a,),
        )
}

/// `apply` that also returns a record of the calls.
fn apply_rec<A: Clone, B: Clone, G: Clone + Fn(A) -> B>(gs: List<G>, xs: List<A>) -> (res: (
    List<B>,
    Ghost<(Seq<G>, Seq<Seq<A>>, Seq<Seq<B>>)>,
))
    requires
        apply_callable(gs@, xs@),
    ensures
        apply_run(gs@, xs@, res.1@.0, res.1@.1, res.1@.2),
        clones_seq(seq_bind(res.1@.2, |row: Seq<B>| row), res.0@),
        res.0@.len() == gs@.len() * xs@.len(),
    decreases gs@.len(),
{
    let ghost gs0 = gs@;
    let ghost xs0 = xs@;
    match gs.decompose() {
        Maybe::Just((g, rest)) => {
            let ghost gg = g;
            assert(cloned(gs0[0], g));
            let xs2 = xs.clone();
            assert forall|j: int, a: A|
                #![trigger xs2@[j], call_requires(g, (a,))]
                0 <= j < xs2@.len() && cloned(xs2@[j], a) implies call_requires(g, (a,)) by {
                assert(cloned(gs0[0], g) && xs0[j] == xs2@[j]);
            }
            let (ys, Ghost(args)) = map_ref(&g, xs2);
            let ghost ysv = ys@;
            assert forall|i: int, j: int, h: G, a: A|
                #![trigger rest@[i], xs@[j], call_requires(h, (a,))]
                0 <= i < rest@.len() && 0 <= j < xs@.len() && cloned(rest@[i], h) && cloned(xs@[j], a)
                    implies call_requires(h, (a,)) by {
                assert(rest@[i] == gs0[i + 1]);
            }
            let (zs, Ghost(run)) = apply_rec(rest, xs);
            let ghost funcs = seq![gg] + run.0;
            let ghost clones = seq![args] + run.1;
            let ghost rows = seq![ysv] + run.2;
            let r = ys.append(zs);
            proof {
                assert(gs0.drop_first() =~= rest@);
                assert(rows.drop_first() =~= run.2);
                assert(gs0.len() * xs0.len() == xs0.len() + (gs0.len() - 1) * xs0.len()) by (nonlinear_arith);
                assert forall|i: int| 0 <= i < gs0.len() implies cloned(gs0[i], #[trigger] funcs[i]) by {
                    if i > 0 {
                        assert(gs0[i] == rest@[i - 1]);
                        assert(funcs[i] == run.0[i - 1]);
                    }
                }
                assert forall|i: int| 0 <= i < gs0.len() implies (#[trigger] rows[i]).len() == xs0.len()
                    && clones[i].len() == xs0.len() by {
                    if i > 0 {
                        assert(rows[i] == run.2[i - 1]);
                        assert(clones[i] == run.1[i - 1]);
                    }
                }
                assert forall|i: int, j: int|
                    #![trigger rows[i][j]]
                    #![trigger clones[i][j]]
                    0 <= i < gs0.len() && 0 <= j < xs0.len() implies cloned(xs0[j], clones[i][j])
                        && call_ensures(funcs[i], (clones[i][j],), rows[i][j]) by {
                    if i > 0 {
                        assert(rows[i] == run.2[i - 1]);
                        assert(clones[i] == run.1[i - 1]);
                        assert(funcs[i] == run.0[i - 1]);
                        assert(rows[i][j] == run.2[i - 1][j]);
                        assert(clones[i][j] == run.1[i - 1][j]);
                    } else {
                        assert(rows[0] == ysv);
                        assert(clones[0] == args);
                        assert(funcs[0] == gg);
                        assert(cloned(xs0[j], args[j]));
                        assert(call_ensures(g, (args[j],), ysv[j]));
                    }
                }
                assert(apply_run(gs0, xs0, funcs, clones, rows));
                assert(r@ =~= r@.take(ysv.len() as int) + r@.skip(ysv.len() as int));
                lemma_clones_seq_append(ysv, r@.take(ysv.len() as int), seq_bind(run.2, |row: Seq<B>| row), zs@);
                assert(seq_bind(rows, |row: Seq<B>| row) == ysv + seq_bind(run.2, |row: Seq<B>| row));
            }
            (r, Ghost((funcs, clones, rows)))
        },
        Maybe::Nothing => (List::empty(), Ghost((Seq::empty(), Seq::empty(), Seq::empty()))),
    }
}

impl ListInstance {
    /// Applies `g` to (a clone of) every element, keeping the order.
    pub fn fmap<A: Clone, B, G: Fn(A) -> B>(g: G, xs: List<A>) -> (r: List<B>)
        requires
            callable_on_clones(g, xs@),
        ensures
            r@.len() == xs@.len(),
            exists|args: Seq<A>|
                #[trigger] clones_seq(xs@, args) && forall|i: int|
                    0 <= i < xs@.len() ==> call_ensures(g, (args[i],), #[trigger] r@[i]),
            forall|f: spec_fn(A) -> B|
                clone_preserves::<A>() && computes(g, f) ==> r@ == #[trigger] xs@.map_values(f),
    {
        let ghost xs0 = xs@;
        let (r, Ghost(args)) = map_ref(&g, xs);
        assert forall|f: spec_fn(A) -> B|
            clone_preserves::<A>() && computes(g, f) implies r@ == #[trigger] xs0.map_values(f) by {
            lemma_clones_seq_eq(xs0, args);
            assert forall|i: int| 0 <= i < xs0.len() implies #[trigger] r@[i] == xs0.map_values(f)[i] by {
                assert(call_ensures(g, (args[i],), r@[i]));
            }
            assert(r@ =~= xs0.map_values(f));
        }
        r
    }

    /// The list holding `x` alone.
    pub fn pure<A>(x: A) -> (r: List<A>)
        ensures
            r@ == seq![x],
    {
        List::singleton(x)
    }

    /// The list holding `x` alone (the monadic return).
    pub fn ret<A>(x: A) -> (r: List<A>)
        ensures
            r@ == seq![x],
    {
        List::singleton(x)
    }

    /// Every function of `gs`, in order, applied to every value of `xs`, in
    /// order; the functions and values are taken out of their cells as
    /// `decompose` does, and the rows are joined as `append` does.
    pub fn apply<A: Clone, B: Clone, G: Clone + Fn(A) -> B>(gs: List<G>, xs: List<A>) -> (r: List<B>)
        requires
            apply_callable(gs@, xs@),
        ensures
            exists|funcs: Seq<G>, clones: Seq<Seq<A>>, rows: Seq<Seq<B>>|
                #[trigger] apply_run(gs@, xs@, funcs, clones, rows) && clones_seq(
                    seq_bind(rows, |row: Seq<B>| row),
                    r@,
                ),
            r@.len() == gs@.len() * xs@.len(),
            forall|ev: spec_fn(G, A) -> B|
                clone_preserves::<A>() && clone_preserves::<B>() && clone_preserves::<G>() && (forall|i: int|
                    0 <= i < gs@.len() ==> interprets(ev, #[trigger] gs@[i])) ==> r@
                    == #[trigger] seq_ap(gs@, xs@, ev),
    {
        let ghost gs0 = gs@;
        let ghost xs0 = xs@;
        let (r, Ghost(run)) = apply_rec(gs, xs);
        let ghost funcs = run.0;
        let ghost clones = run.1;
        let ghost rows = run.2;
        assert(apply_run(gs0, xs0, funcs, clones, rows));
        assert forall|ev: spec_fn(G, A) -> B|
            clone_preserves::<A>() && clone_preserves::<B>() && clone_preserves::<G>() && (forall|i: int|
                0 <= i < gs0.len() ==> interprets(ev, #[trigger] gs0[i])) implies r@
            == #[trigger] seq_ap(gs0, xs0, ev) by {
            lemma_clones_seq_eq(gs0, funcs);
            assert forall|i: int| 0 <= i < rows.len() implies (|row: Seq<B>| row)(#[trigger] rows[i])
                == (|g: G| xs0.map_values(|a: A| ev(g, a)))(gs0[i]) by {
                assert forall|j: int| 0 <= j < xs0.len() implies #[trigger] rows[i][j] == ev(gs0[i], xs0[j]) by {
                    assert(cloned(xs0[j], clones[i][j]));
                    assert(clones[i][j] == xs0[j]);
                    assert(interprets(ev, gs0[i]));
                    assert(call_ensures(funcs[i], (clones[i][j],), rows[i][j]));
                }
                assert(rows[i] =~= xs0.map_values(|a: A| ev(gs0[i], a)));
            }
            lemma_seq_bind_congruence(rows, gs0, |row: Seq<B>| row, |g: G| xs0.map_values(|a: A| ev(g, a)));
            lemma_clones_seq_eq(seq_bind(rows, |row: Seq<B>| row), r@);
        }
        r
    }

    /// The concatenation of `g` applied to (a clone of) each element, in
    /// order; the lists are joined as `append` does.
    pub fn bind<A: Clone, B: Clone, G: Fn(A) -> List<B>>(xs: List<A>, g: G) -> (r: List<B>)
        requires
            callable_on_clones(g, xs@),
        ensures
            exists|args: Seq<A>, outs: Seq<List<B>>| #![trigger clones_seq(xs@, args), outs.len()]
                {
                    &&& clones_seq(xs@, args)
                    &&& outs.len() == xs@.len()
                    &&& forall|i: int| 0 <= i < xs@.len() ==> call_ensures(g, (args[i],), #[trigger] outs[i])
                    &&& clones_seq(seq_bind(outs, |l: List<B>| l@), r@)
                },
            forall|f: spec_fn(A) -> List<B>|
                clone_preserves::<A>() && clone_preserves::<B>() && computes(g, f) ==> r@
                    == #[trigger] seq_bind_lists(xs@, f),
    {
        let ghost xs0 = xs@;
        let (r, Ghost(run)) = bind_ref(&g, xs);
        let ghost args = run.0;
        let ghost outs = run.1;
        assert(clones_seq(xs0, args));
        assert forall|f: spec_fn(A) -> List<B>|
            clone_preserves::<A>() && clone_preserves::<B>() && computes(g, f) implies r@
            == #[trigger] seq_bind_lists(xs0, f) by {
            lemma_clones_seq_eq(xs0, args);
            assert forall|i: int| 0 <= i < outs.len() implies (|l: List<B>| l@)(#[trigger] outs[i])
                == (|a: A| f(a)@)(xs0[i]) by {
                assert(call_ensures(g, (args[i],), outs[i]));
            }
            lemma_seq_bind_congruence(outs, xs0, |l: List<B>| l@, |a: A| f(a)@);
            lemma_clones_seq_eq(seq_bind(outs, |l: List<B>| l@), r@);
        }
        r
    }

    /// The neutral element of `alt`: the empty list.
    pub fn fallback<A>() -> (r: List<A>)
        ensures
            r@ == Seq::<A>::empty(),
    {
        List::empty()
    }

    /// The elements of `one` followed by those of `another`, joined as
    /// `append` does.
    pub fn alt<A: Clone>(one: List<A>, another: List<A>) -> (r: List<A>)
        ensures
            r@.len() == one@.len() + another@.len(),
            clones_seq(one@, r@.take(one@.len() as int)),
            r@.skip(one@.len() as int) == another@,
    {
        one.append(another)
    }
}

impl<T: Clone> List<T> {
    /// The elements of `self` followed by those of `another`, joined as
    /// `append` does.
    pub fn alt(self, another: List<T>) -> (r: List<T>)
        ensures
            r@.len() == self@.len() + another@.len(),
            clones_seq(self@, r@.take(self@.len() as int)),
            r@.skip(self@.len() as int) == another@,
    {
        ListInstance::alt(self, another)
    }

    /// The concatenation of `g` applied to (a clone of) each element, in
    /// order; the lists are joined as `append` does.
    pub fn bind<B: Clone, G: Fn(T) -> List<B>>(self, g: G) -> (r: List<B>)
        requires
            callable_on_clones(g, self@),
        ensures
            exists|args: Seq<T>, outs: Seq<List<B>>| #![trigger clones_seq(self@, args), outs.len()]
                {
                    &&& clones_seq(self@, args)
                    &&& outs.len() == self@.len()
                    &&& forall|i: int| 0 <= i < self@.len() ==> call_ensures(g, (args[i],), #[trigger] outs[i])
                    &&& clones_seq(seq_bind(outs, |l: List<B>| l@), r@)
                },
            forall|f: spec_fn(T) -> List<B>|
                clone_preserves::<T>() && clone_preserves::<B>() && computes(g, f) ==> r@
                    == #[trigger] seq_bind_lists(self@, f),
    {
        ListInstance::bind(self, g)
    }

    /// Applies `g` to (a clone of) every element, keeping the order.
    pub fn fmap<B, G: Fn(T) -> B>(self, g: G) -> (r: List<B>)
        requires
            callable_on_clones(g, self@),
        ensures
            r@.len() == self@.len(),
            exists|args: Seq<T>|
                #[trigger] clones_seq(self@, args) && forall|i: int|
                    0 <= i < self@.len() ==> call_ensures(g, (args[i],), #[trigger] r@[i]),
            forall|f: spec_fn(T) -> B|
                clone_preserves::<T>() && computes(g, f) ==> r@ == #[trigger] self@.map_values(f),
    {
        ListInstance::fmap(g, self)
    }
}

impl<T: Clone> Semigroup for List<T> {
    /// `associate` clones the elements of shared cells of the first list, so
    /// it gives exactly the concatenation where cloning a `T` does.
    open spec fn obeys_associate_spec() -> bool {
        clone_preserves::<T>()
    }

    open spec fn spec_associate(self, other: Self) -> Self {
        List::from_seq(self@ + other@)
    }

    proof fn lemma_associative(a: Self, b: Self, c: Self) {
        List::lemma_elems_from_seq(a@ + b@);
        List::lemma_elems_from_seq(b@ + c@);
        assert(a@ + b@ + c@ =~= a@ + (b@ + c@));
    }

    fn associate(self, other: Self) -> (r: Self)
        ensures
            r@.len() == self@.len() + other@.len(),
            clones_seq(self@, r@.take(self@.len() as int)),
            r@.skip(self@.len() as int) == other@,
    {
        let ghost s0 = self@;
        let ghost o0 = other@;
        let r = self.append(other);
        proof {
            if clone_preserves::<T>() {
                lemma_clones_seq_eq(s0, r@.take(s0.len() as int));
                assert(r@ =~= r@.take(s0.len() as int) + r@.skip(s0.len() as int));
                r.lemma_from_seq_elems();
            }
        }
        r
    }
}

impl<T: Clone> Monoid for List<T> {
    open spec fn spec_empty() -> Self {
        List::Nil
    }

    proof fn lemma_identity(a: Self) {
        List::<T>::lemma_nil_elems();
        assert(List::<T>::Nil@ + a@ =~= a@);
        assert(a@ + List::<T>::Nil@ =~= a@);
        a.lemma_from_seq_elems();
    }

    fn empty() -> (r: Self) {
        List::Nil
    }
}

} // verus!
