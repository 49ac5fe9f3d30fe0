//! The foldable and traversable instances of `List`.
//!
//! As everywhere on lists, an element leaves its cell moved or cloned (see
//! `List::decompose`); the contracts name the clones the closures were given.
use std::ops::ControlFlow;

use vstd::prelude::*;

use crate::algebra::{Monoid, Semigroup};
use crate::function::{
    callable_on_clones, clone_preserves, clones_seq, computes, computes2, lemma_callable_drop_first,
    lemma_clones_seq_eq,
};
use crate::either::Either;
use crate::identity::Identity;
use crate::list::{List, ListInstance};
use crate::list_laws::{law_sequence_either_right, law_sequence_validation_success};
use crate::list_model::{
    seq_fold_map, seq_foldr, seq_sequence_either, seq_sequence_validation, seq_traverse_either, seq_traverse_identity,
    seq_traverse_maybe, seq_traverse_validation, seq_try_foldr,
};
use crate::maybe::Maybe;
use crate::validation::Validation;

verus! {

/// `args`, `ys` and `accs` record a run of `try_foldr` over `xs`: `args` are
/// the clones of the first elements that `try_break` was given; it let the
/// first `ys.len()` of them continue, as `ys`; the next one, if any, broke
/// with `accs[ys.len()]`, else `accs[ys.len()]` is `init`; and each `accs[i]`
/// is a result of `accum(ys[i], accs[i + 1])`.
pub open spec fn try_foldr_run<A: Clone, B, F: Fn(A, B) -> B, T: Fn(A) -> ControlFlow<B, A>>(
    accum: F,
    try_break: T,
    init: B,
    xs: Seq<A>,
    args: Seq<A>,
    ys: Seq<A>,
    accs: Seq<B>,
) -> bool {
    &&& ys.len() <= xs.len()
    &&& args.len() == (if ys.len() < xs.len() { ys.len() + 1 } else { ys.len() })
    &&& clones_seq(xs.take(args.len() as int), args)
    &&& accs.len() == ys.len() + 1
    &&& forall|i: int|
        0 <= i < ys.len() ==> call_ensures(try_break, (args[i],), ControlFlow::<B, A>::Continue(#[trigger] ys[i]))
    &&& forall|i: int| 0 <= i < ys.len() ==> call_ensures(accum, (ys[i], accs[i + 1]), #[trigger] accs[i])
    &&& ys.len() < xs.len() ==> call_ensures(
        try_break,
        (args[ys.len() as int],),
        ControlFlow::<B, A>::Break(accs[ys.len() as int]),
    )
    &&& ys.len() == xs.len() ==> accs[ys.len() as int] == init
}

/// `accum` may be called on any value that `try_break` lets continue, from a
/// clone of any element of `xs`, and any accumulated value.
pub open spec fn try_foldr_callable<A: Clone, B, F: Fn(A, B) -> B, T: Fn(A) -> ControlFlow<B, A>>(
    accum: F,
    try_break: T,
    xs: Seq<A>,
) -> bool {
    &&& callable_on_clones(try_break, xs)
    &&& forall|i: int, a: A, y: A, b: B|
        #![trigger xs[i], call_ensures(try_break, (a,), ControlFlow::<B, A>::Continue(y)), call_requires(accum, (y, b))]
        0 <= i < xs.len() && cloned(xs[i], a) && call_ensures(try_break, (a,), ControlFlow::<B, A>::Continue(y))
            ==> call_requires(accum, (y, b))
}

/// `accum` may be called on a clone of any element of `xs` and any
/// accumulated value.
pub open spec fn foldr_callable<A: Clone, B, F: Fn(A, B) -> B>(accum: F, xs: Seq<A>) -> bool {
    forall|i: int, a: A, b: B|
        #![trigger xs[i], call_requires(accum, (a, b))]
        0 <= i < xs.len() && cloned(xs[i], a) ==> call_requires(accum, (a, b))
}

/// `try_foldr` by reference to the closures; also returns a record of the run.
fn try_foldr_ref<A: Clone, B, F: Fn(A, B) -> B, T: Fn(A) -> ControlFlow<B, A>>(
    accum: &F,
    try_break: &T,
    init: B,
    xs: List<A>,
) -> (r: (B, Ghost<(Seq<A>, Seq<A>, Seq<B>)>))
    requires
        try_foldr_callable(*accum, *try_break, xs@),
    ensures
        try_foldr_run(*accum, *try_break, init, xs@, r.1@.0, r.1@.1, r.1@.2),
        r.0 == r.1@.2[0],
    decreases xs@.len(),
{
    let ghost xs0 = xs@;
    let ghost init0 = init;
    match xs.decompose() {
        Maybe::Just((x, rest)) => {
            let ghost xg = x;
            assert(cloned(xs0[0], x));
            let c = try_break(x);
            let ghost cg = c;
            match c {
                ControlFlow::Break(res) => {
                    let ghost args = seq![xg];
                    let ghost ys = Seq::<A>::empty();
                    let ghost accs = seq![res];
                    proof {
                        assert(xs0.take(1)[0] == xs0[0]);
                        assert(clones_seq(xs0.take(args.len() as int), args));
                    }
                    (res, Ghost((args, ys, accs)))
                },
                ControlFlow::Continue(y) => {
                    proof {
                        lemma_callable_drop_first(*try_break, xs0);
                        assert forall|i: int, a: A, y2: A, b: B|
                            #![trigger rest@[i], call_ensures(*try_break, (a,), ControlFlow::<B, A>::Continue(y2)), call_requires(*accum, (y2, b))]
                            0 <= i < rest@.len() && cloned(rest@[i], a) && call_ensures(
                                *try_break,
                                (a,),
                                ControlFlow::<B, A>::Continue(y2),
                            ) implies call_requires(*accum, (y2, b)) by {
                            assert(rest@[i] == xs0[i + 1]);
                        }
                    }
                    let ghost yg = y;
                    let (res, Ghost(run1)) = try_foldr_ref(accum, try_break, init, rest);
                    let ghost args1 = run1.0;
                    let ghost ys1 = run1.1;
                    let ghost accs1 = run1.2;
                    assert(call_requires(*accum, (y, res)));
                    let r = accum(y, res);
                    let ghost args = seq![xg] + args1;
                    let ghost ys = seq![yg] + ys1;
                    let ghost accs = seq![r] + accs1;
                    proof {
                        assert(rest@ == xs0.drop_first());
                        assert forall|i: int| 0 <= i < args.len() implies cloned(
                            xs0.take(args.len() as int)[i],
                            #[trigger] args[i],
                        ) by {
                            if i > 0 {
                                assert(xs0.take(args.len() as int)[i] == rest@.take(args1.len() as int)[i - 1]);
                                assert(args[i] == args1[i - 1]);
                            }
                        }
                        assert forall|i: int| 0 <= i < ys.len() implies call_ensures(
                            *try_break,
                            (args[i],),
                            ControlFlow::<B, A>::Continue(#[trigger] ys[i]),
                        ) by {
                            if i > 0 {
                                assert(args[i] == args1[i - 1]);
                                assert(ys[i] == ys1[i - 1]);
                            }
                        }
                        assert forall|i: int| 0 <= i < ys.len() implies call_ensures(
                            *accum,
                            (ys[i], accs[i + 1]),
                            #[trigger] accs[i],
                        ) by {
                            if i > 0 {
                                assert(ys[i] == ys1[i - 1]);
                                assert(accs[i] == accs1[i - 1]);
                                assert(accs[i + 1] == accs1[i]);
                            }
                        }
                        if ys1.len() < rest@.len() {
                            assert(args[ys.len() as int] == args1[ys1.len() as int]);
                            assert(accs[ys.len() as int] == accs1[ys1.len() as int]);
                        } else {
                            assert(accs[ys.len() as int] == accs1[ys1.len() as int]);
                        }
                        assert(try_foldr_run(*accum, *try_break, init0, xs0, args, ys, accs));
                    }
                    (r, Ghost((args, ys, accs)))
                },
            }
        },
        Maybe::Nothing => {
            let ghost accs = seq![init0];
            proof {
                assert(xs0.take(0) =~= Seq::<A>::empty());
            }
            (init, Ghost((Seq::<A>::empty(), Seq::<A>::empty(), accs)))
        },
    }
}

/// Where the closures compute `acc` and `brk` and cloning is exact, a run of
/// `try_foldr` gives the model.
proof fn lemma_try_foldr_run_model<A: Clone, B, F: Fn(A, B) -> B, T: Fn(A) -> ControlFlow<B, A>>(
    accum: F,
    try_break: T,
    init: B,
    xs: Seq<A>,
    args: Seq<A>,
    ys: Seq<A>,
    accs: Seq<B>,
    acc: spec_fn(A, B) -> B,
    brk: spec_fn(A) -> ControlFlow<B, A>,
)
    requires
        try_foldr_run(accum, try_break, init, xs, args, ys, accs),
        clone_preserves::<A>(),
        computes2(accum, acc),
        computes(try_break, brk),
    ensures
        accs[0] == seq_try_foldr(acc, brk, init, xs),
    decreases xs.len(),
{
    lemma_clones_seq_eq(xs.take(args.len() as int), args);
    if xs.len() > 0 {
        assert(args[0] == xs[0]);
        if ys.len() == 0 {
            assert(call_ensures(try_break, (args[0],), ControlFlow::<B, A>::Break(accs[0])));
        } else {
            assert(call_ensures(try_break, (args[0],), ControlFlow::<B, A>::Continue(ys[0])));
            let xs1 = xs.drop_first();
            let args1 = args.drop_first();
            let ys1 = ys.drop_first();
            let accs1 = accs.drop_first();
            assert forall|i: int| 0 <= i < args1.len() implies cloned(xs1.take(args1.len() as int)[i], #[trigger] args1[i]) by {
                assert(xs1.take(args1.len() as int)[i] == xs.take(args.len() as int)[i + 1]);
            }
            assert forall|i: int| 0 <= i < ys1.len() implies call_ensures(
                try_break,
                (args1[i],),
                ControlFlow::<B, A>::Continue(#[trigger] ys1[i]),
            ) by {
                assert(ys1[i] == ys[i + 1]);
            }
            assert forall|i: int| 0 <= i < ys1.len() implies call_ensures(accum, (ys1[i], accs1[i + 1]), #[trigger] accs1[i]) by {
                assert(accs1[i] == accs[i + 1]);
            }
            assert(try_foldr_run(accum, try_break, init, xs1, args1, ys1, accs1));
            lemma_try_foldr_run_model(accum, try_break, init, xs1, args1, ys1, accs1, acc, brk);
            assert(call_ensures(accum, (ys[0], accs[1]), accs[0]));
        }
    }
}

/// Right fold by reference to the accumulator; also returns the clones it
/// was given and the successive accumulated values, from the first
/// element's result down to `init`.
fn foldr_ref<A: Clone, B, F: Fn(A, B) -> B>(accum: &F, init: B, xs: List<A>) -> (r: (B, Ghost<(Seq<A>, Seq<B>)>))
    requires
        foldr_callable(*accum, xs@),
    ensures
        clones_seq(xs@, r.1@.0),
        r.1@.1.len() == xs@.len() + 1,
        r.1@.1[xs@.len() as int] == init,
        r.0 == r.1@.1[0],
        forall|i: int|
            0 <= i < xs@.len() ==> call_ensures(*accum, (r.1@.0[i], r.1@.1[i + 1]), #[trigger] r.1@.1[i]),
    decreases xs@.len(),
{
    let ghost xs0 = xs@;
    let ghost init0 = init;
    match xs.decompose() {
        Maybe::Just((x, rest)) => {
            let ghost xg = x;
            assert forall|i: int, a: A, b: B|
                #![trigger rest@[i], call_requires(*accum, (a, b))]
                0 <= i < rest@.len() && cloned(rest@[i], a) implies call_requires(*accum, (a, b)) by {
                assert(rest@[i] == xs0[i + 1]);
            }
            let (res, Ghost(run)) = foldr_ref(accum, init, rest);
            assert(cloned(xs0[0], x));
            let r = accum(x, res);
            let ghost args = seq![xg] + run.0;
            let ghost all = seq![r] + run.1;
            proof {
                assert forall|i: int| 0 <= i < xs0.len() implies cloned(xs0[i], #[trigger] args[i]) by {
                    if i > 0 {
                        assert(xs0[i] == rest@[i - 1]);
                        assert(args[i] == run.0[i - 1]);
                    }
                }
                assert forall|i: int| 0 <= i < xs0.len() implies call_ensures(
                    *accum,
                    (args[i], all[i + 1]),
                    #[trigger] all[i],
                ) by {
                    if i > 0 {
                        assert(args[i] == run.0[i - 1]);
                        assert(all[i] == run.1[i - 1]);
                    }
                }
            }
            (r, Ghost((args, all)))
        },
        Maybe::Nothing => {
            let ghost w = seq![init0];
            (init, Ghost((Seq::<A>::empty(), w)))
        },
    }
}

/// `fold_map` by reference to the mapping; also returns the clones it was
/// given and their images.
fn fold_map_ref<A: Clone, M: Monoid, G: Fn(A) -> M>(g: &G, xs: List<A>) -> (r: (M, Ghost<(Seq<A>, Seq<M>)>))
    requires
        callable_on_clones(*g, xs@),
    ensures
        clones_seq(xs@, r.1@.0),
        r.1@.1.len() == xs@.len(),
        forall|i: int| 0 <= i < xs@.len() ==> call_ensures(*g, (r.1@.0[i],), #[trigger] r.1@.1[i]),
        xs@.len() == 0 ==> r.0 == M::spec_empty(),
        M::obeys_associate_spec() ==> r.0 == seq_fold_map(|m: M| m, r.1@.1),
    decreases xs@.len(),
{
    let ghost xs0 = xs@;
    match xs.decompose() {
        Maybe::Just((x, rest)) => {
            let ghost xg = x;
            proof {
                lemma_callable_drop_first(*g, xs0);
            }
            let (m, Ghost(run)) = fold_map_ref(g, rest);
            assert(cloned(xs0[0], x));
            let y = g(x);
            let ghost yg = y;
            let r = y.associate(m);
            let ghost args = seq![xg] + run.0;
            let ghost all = seq![yg] + run.1;
            proof {
                assert(all.drop_first() =~= run.1);
                assert forall|i: int| 0 <= i < xs0.len() implies cloned(xs0[i], #[trigger] args[i]) by {
                    if i > 0 {
                        assert(xs0[i] == rest@[i - 1]);
                        assert(args[i] == run.0[i - 1]);
                    }
                }
                assert forall|i: int| 0 <= i < xs0.len() implies call_ensures(*g, (args[i],), #[trigger] all[i]) by {
                    if i > 0 {
                        assert(args[i] == run.0[i - 1]);
                    }
                }
            }
            (r, Ghost((args, all)))
        },
        Maybe::Nothing => (M::empty(), Ghost((Seq::empty(), Seq::empty()))),
    }
}

/// One of the calls of `map` on `args` gives `Nothing`.
pub open spec fn some_gives_nothing<A, B, G: Fn(A) -> Maybe<B>>(map: G, args: Seq<A>) -> bool {
    exists|i: int| 0 <= i < args.len() && call_ensures(map, (#[trigger] args[i],), Maybe::<B>::Nothing)
}

/// `traverse_maybe` by reference to the mapping; also returns the clones
/// it was given.
fn traverse_maybe_ref<A: Clone, B, G: Fn(A) -> Maybe<B>>(map: &G, xs: List<A>) -> (r: (Maybe<List<B>>, Ghost<Seq<A>>))
    requires
        callable_on_clones(*map, xs@),
    ensures
        clones_seq(xs@, r.1@),
        r.0 matches Maybe::Just(l) ==> {
            &&& l@.len() == xs@.len()
            &&& forall|i: int|
                0 <= i < xs@.len() ==> call_ensures(*map, (r.1@[i],), Maybe::Just(#[trigger] l@[i]))
        },
        r.0 is Nothing ==> some_gives_nothing(*map, r.1@),
    decreases xs@.len(),
{
    let ghost xs0 = xs@;
    match xs.decompose() {
        Maybe::Just((x, rest)) => {
            let ghost xg = x;
            assert(cloned(xs0[0], x));
            let y = map(x);
            let ghost yg = y;
            proof {
                lemma_callable_drop_first(*map, xs0);
            }
            let (ys, Ghost(args1)) = traverse_maybe_ref(map, rest);
            let ghost args = seq![xg] + args1;
            proof {
                assert forall|i: int| 0 <= i < xs0.len() implies cloned(xs0[i], #[trigger] args[i]) by {
                    if i > 0 {
                        assert(xs0[i] == rest@[i - 1]);
                        assert(args[i] == args1[i - 1]);
                    }
                }
                assert forall|i: int| 0 <= i < args1.len() implies #[trigger] args1[i] == args[i + 1] by {}
            }
            match y {
                Maybe::Just(b) => match ys {
                    Maybe::Just(bs) => {
                        let l = List::cons(b, bs);
                        proof {
                            assert forall|i: int| 0 <= i < xs0.len() implies call_ensures(
                                *map,
                                (args[i],),
                                Maybe::Just(#[trigger] l@[i]),
                            ) by {
                                if i > 0 {
                                    assert(l@[i] == bs@[i - 1]);
                                }
                            }
                        }
                        (Maybe::Just(l), Ghost(args))
                    },
                    Maybe::Nothing => {
                        proof {
                            let i = choose|i: int|
                                0 <= i < args1.len() && call_ensures(
                                    *map,
                                    (#[trigger] args1[i],),
                                    Maybe::<B>::Nothing,
                                );
                            assert(args1[i] == args[i + 1]);
                            assert(0 <= i + 1 < xs0.len() && call_ensures(*map, (args[i + 1],), Maybe::<B>::Nothing));
                            assert(some_gives_nothing(*map, args));
                        }
                        (Maybe::Nothing, Ghost(args))
                    },
                },
                Maybe::Nothing => {
                    proof {
                        assert(args[0] == xg);
                        assert(0 < xs0.len() && call_ensures(*map, (args[0],), Maybe::<B>::Nothing));
                        assert(some_gives_nothing(*map, args));
                    }
                    (Maybe::Nothing, Ghost(args))
                },
            }
        },
        Maybe::Nothing => (Maybe::Just(List::empty()), Ghost(Seq::empty())),
    }
}

/// `traverse_either` by reference to the mapping; also returns the clones
/// it was given and its results.
fn traverse_either_ref<A: Clone, E, B, G: Fn(A) -> Either<E, B>>(map: &G, xs: List<A>) -> (r: (
    Either<E, List<B>>,
    Ghost<(Seq<A>, Seq<Either<E, B>>)>,
))
    requires
        callable_on_clones(*map, xs@),
    ensures
        clones_seq(xs@, r.1@.0),
        r.1@.1.len() == xs@.len(),
        forall|i: int| 0 <= i < xs@.len() ==> call_ensures(*map, (r.1@.0[i],), #[trigger] r.1@.1[i]),
        r.0.spec_map(|l: List<B>| l@) == seq_sequence_either(r.1@.1),
    decreases xs@.len(),
{
    let ghost xs0 = xs@;
    match xs.decompose() {
        Maybe::Just((x, rest)) => {
            let ghost xg = x;
            assert(cloned(xs0[0], x));
            let y = map(x);
            let ghost yg = y;
            proof {
                lemma_callable_drop_first(*map, xs0);
            }
            let (ys, Ghost(run)) = traverse_either_ref(map, rest);
            let ghost ysg = ys;
            let ghost args = seq![xg] + run.0;
            let ghost outs = seq![yg] + run.1;
            let r = match y {
                Either::Left(e) => Either::Left(e),
                Either::Right(b) => match ys {
                    Either::Left(e) => Either::Left(e),
                    Either::Right(bs) => Either::Right(List::cons(b, bs)),
                },
            };
            proof {
                assert(outs.drop_first() =~= run.1);
                assert(outs[0] == yg);
                assert(ysg.spec_map(|l: List<B>| l@) == seq_sequence_either(run.1));
                assert(r.spec_map(|l: List<B>| l@) == seq_sequence_either(outs));
                assert forall|i: int| 0 <= i < xs0.len() implies cloned(xs0[i], #[trigger] args[i]) by {
                    if i > 0 {
                        assert(xs0[i] == rest@[i - 1]);
                        assert(args[i] == run.0[i - 1]);
                    }
                }
                assert forall|i: int| 0 <= i < xs0.len() implies call_ensures(*map, (args[i],), #[trigger] outs[i]) by {
                    if i > 0 {
                        assert(args[i] == run.0[i - 1]);
                        assert(outs[i] == run.1[i - 1]);
                    }
                }
            }
            (r, Ghost((args, outs)))
        },
        Maybe::Nothing => {
            let r = Either::Right(List::empty());
            assert(r.spec_map(|l: List<B>| l@) == seq_sequence_either(Seq::<Either<E, B>>::empty()));
            (r, Ghost((Seq::empty(), Seq::empty())))
        },
    }
}

/// `traverse_validation` by reference to the mapping; also returns the
/// clones it was given and its results.
fn traverse_validation_ref<A: Clone, E: Semigroup, B, G: Fn(A) -> Validation<E, B>>(map: &G, xs: List<A>) -> (r: (
    Validation<E, List<B>>,
    Ghost<(Seq<A>, Seq<Validation<E, B>>)>,
))
    requires
        callable_on_clones(*map, xs@),
    ensures
        clones_seq(xs@, r.1@.0),
        r.1@.1.len() == xs@.len(),
        forall|i: int| 0 <= i < xs@.len() ==> call_ensures(*map, (r.1@.0[i],), #[trigger] r.1@.1[i]),
        (r.0 is Success) == (seq_sequence_validation(r.1@.1) is Success),
        r.0 is Success || E::obeys_associate_spec() ==> r.0.spec_map(|l: List<B>| l@) == seq_sequence_validation(
            r.1@.1,
        ),
    decreases xs@.len(),
{
    let ghost xs0 = xs@;
    match xs.decompose() {
        Maybe::Just((x, rest)) => {
            let ghost xg = x;
            assert(cloned(xs0[0], x));
            let y = map(x);
            let ghost yg = y;
            proof {
                lemma_callable_drop_first(*map, xs0);
            }
            let (ys, Ghost(run)) = traverse_validation_ref(map, rest);
            let ghost ysg = ys;
            let ghost args = seq![xg] + run.0;
            let ghost outs = seq![yg] + run.1;
            let r = match (y, ys) {
                (Validation::Success(b), Validation::Success(bs)) => Validation::Success(List::cons(b, bs)),
                (Validation::Failure(e1), Validation::Failure(e2)) => Validation::Failure(e1.associate(e2)),
                (Validation::Failure(e), _) => Validation::Failure(e),
                (_, Validation::Failure(e)) => Validation::Failure(e),
            };
            proof {
                assert(outs.drop_first() =~= run.1);
                assert(outs[0] == yg);
                assert forall|i: int| 0 <= i < xs0.len() implies cloned(xs0[i], #[trigger] args[i]) by {
                    if i > 0 {
                        assert(xs0[i] == rest@[i - 1]);
                        assert(args[i] == run.0[i - 1]);
                    }
                }
                assert forall|i: int| 0 <= i < xs0.len() implies call_ensures(*map, (args[i],), #[trigger] outs[i]) by {
                    if i > 0 {
                        assert(args[i] == run.0[i - 1]);
                        assert(outs[i] == run.1[i - 1]);
                    }
                }
            }
            (r, Ghost((args, outs)))
        },
        Maybe::Nothing => {
            let r = Validation::Success(List::empty());
            assert(r.spec_map(|l: List<B>| l@) == seq_sequence_validation(Seq::<Validation<E, B>>::empty()));
            (r, Ghost((Seq::empty(), Seq::empty())))
        },
    }
}

/// Where `map` computes `f` and cloning is exact, the result of
/// `traverse_maybe` is the model.
proof fn lemma_traverse_maybe_model<A: Clone, B, G: Fn(A) -> Maybe<B>>(
    map: G,
    xs: Seq<A>,
    args: Seq<A>,
    r: Maybe<Seq<B>>,
    f: spec_fn(A) -> Maybe<B>,
)
    requires
        clones_seq(xs, args),
        clone_preserves::<A>(),
        computes(map, f),
        r matches Maybe::Just(l) ==> {
            &&& l.len() == xs.len()
            &&& forall|i: int| 0 <= i < xs.len() ==> call_ensures(map, (args[i],), Maybe::Just(#[trigger] l[i]))
        },
        r is Nothing ==> some_gives_nothing(map, args),
    ensures
        r == seq_traverse_maybe(xs, f),
    decreases xs.len(),
{
    lemma_clones_seq_eq(xs, args);
    if xs.len() > 0 {
        let xs1 = xs.drop_first();
        let r1 = match r {
            Maybe::Just(l) => Maybe::Just(l.drop_first()),
            Maybe::Nothing => if f(xs[0]) is Nothing { seq_traverse_maybe(xs1, f) } else { Maybe::Nothing },
        };
        if let Maybe::Just(l) = r {
            assert(call_ensures(map, (args[0],), Maybe::Just(l[0])));
            assert forall|i: int| 0 <= i < xs1.len() implies call_ensures(map, (xs1[i],), Maybe::Just(#[trigger] l.drop_first()[i])) by {
                assert(call_ensures(map, (args[i + 1],), Maybe::Just(l[i + 1])));
            }
            lemma_traverse_maybe_model(map, xs1, xs1, r1, f);
            assert(f(xs[0]) == Maybe::Just(l[0]));
            assert(l =~= seq![l[0]] + l.drop_first());
        } else {
            let i = choose|i: int| 0 <= i < args.len() && call_ensures(map, (#[trigger] args[i],), Maybe::<B>::Nothing);
            if i == 0 {
                assert(f(xs[0]) is Nothing);
            } else if f(xs[0]) is Just {
                assert(call_ensures(map, (xs1[i - 1],), Maybe::<B>::Nothing));
                lemma_traverse_maybe_model(map, xs1, xs1, Maybe::Nothing, f);
            }
        }
    } else if let Maybe::Just(l) = r {
        assert(l =~= Seq::<B>::empty());
    }
}

/// Unwraps the results of `map` by reference; also returns the clones it was
/// given.
fn unwrap_identity_ref<A: Clone, B, G: Fn(A) -> Identity<B>>(map: &G, xs: List<A>) -> (r: (List<B>, Ghost<Seq<A>>))
    requires
        callable_on_clones(*map, xs@),
    ensures
        clones_seq(xs@, r.1@),
        r.0@.len() == xs@.len(),
        forall|i: int| 0 <= i < xs@.len() ==> call_ensures(*map, (r.1@[i],), Identity(#[trigger] r.0@[i])),
    decreases xs@.len(),
{
    let ghost xs0 = xs@;
    match xs.decompose() {
        Maybe::Just((x, rest)) => {
            let ghost xg = x;
            assert(cloned(xs0[0], x));
            let Identity(y) = map(x);
            proof {
                lemma_callable_drop_first(*map, xs0);
            }
            let (ys, Ghost(args1)) = unwrap_identity_ref(map, rest);
            let r = List::cons(y, ys);
            let ghost args = seq![xg] + args1;
            proof {
                assert forall|i: int| 0 <= i < xs0.len() implies cloned(xs0[i], #[trigger] args[i]) by {
                    if i > 0 {
                        assert(xs0[i] == rest@[i - 1]);
                        assert(args[i] == args1[i - 1]);
                    }
                }
                assert forall|i: int| 0 <= i < xs0.len() implies call_ensures(
                    *map,
                    (args[i],),
                    Identity(#[trigger] r@[i]),
                ) by {
                    if i > 0 {
                        assert(args[i] == args1[i - 1]);
                        assert(r@[i] == ys@[i - 1]);
                    }
                }
            }
            (r, Ghost(args))
        },
        Maybe::Nothing => (List::empty(), Ghost(Seq::empty())),
    }
}

impl ListInstance {
    /// Right fold that `try_break` may cut short: elements are examined from
    /// the first; at the first `Break(b)` the result is `b`, and each
    /// `Continue(y)` before it contributes `accum(y, ..)` around the fold of
    /// the rest.
    pub fn try_foldr<A: Clone, B, F: Fn(A, B) -> B, T: Fn(A) -> ControlFlow<B, A>>(
        accum: F,
        try_break: T,
        init: B,
        container: List<A>,
    ) -> (r: B)
        requires
            try_foldr_callable(accum, try_break, container@),
        ensures
            exists|args: Seq<A>, ys: Seq<A>, accs: Seq<B>|
                #[trigger] try_foldr_run(accum, try_break, init, container@, args, ys, accs) && r == accs[0],
            forall|acc: spec_fn(A, B) -> B, brk: spec_fn(A) -> ControlFlow<B, A>|
                clone_preserves::<A>() && computes2(accum, acc) && computes(try_break, brk) ==> r
                    == #[trigger] seq_try_foldr(acc, brk, init, container@),
    {
        let ghost c0 = container@;
        let ghost init0 = init;
        let (r, Ghost(run)) = try_foldr_ref(&accum, &try_break, init, container);
        let ghost args = run.0;
        let ghost ys = run.1;
        let ghost accs = run.2;
        assert(try_foldr_run(accum, try_break, init0, c0, args, ys, accs));
        assert forall|acc: spec_fn(A, B) -> B, brk: spec_fn(A) -> ControlFlow<B, A>|
            clone_preserves::<A>() && computes2(accum, acc) && computes(try_break, brk) implies r
            == #[trigger] seq_try_foldr(acc, brk, init0, c0) by {
            lemma_try_foldr_run_model(accum, try_break, init0, c0, args, ys, accs, acc, brk);
        }
        r
    }

    /// Right fold: `accum(x0, accum(x1, .. accum(xn, init)))`, each `xi` a
    /// clone of the element taken out of its cell.
    pub fn foldr<A: Clone, B, F: Fn(A, B) -> B>(accum: F, init: B, container: List<A>) -> (r: B)
        requires
            foldr_callable(accum, container@),
        ensures
            exists|args: Seq<A>, accs: Seq<B>| #![trigger clones_seq(container@, args), accs.len()]
                {
                    &&& clones_seq(container@, args)
                    &&& accs.len() == container@.len() + 1
                    &&& accs[container@.len() as int] == init
                    &&& r == accs[0]
                    &&& forall|i: int|
                        0 <= i < container@.len() ==> call_ensures(accum, (args[i], accs[i + 1]), #[trigger] accs[i])
                },
            forall|acc: spec_fn(A, B) -> B|
                clone_preserves::<A>() && computes2(accum, acc) ==> r == #[trigger] seq_foldr(acc, init, container@),
    {
        let ghost c0 = container@;
        let ghost init0 = init;
        let (r, Ghost(run)) = foldr_ref(&accum, init, container);
        let ghost args = run.0;
        let ghost accs = run.1;
        assert(clones_seq(c0, args));
        assert forall|acc: spec_fn(A, B) -> B|
            clone_preserves::<A>() && computes2(accum, acc) implies r == #[trigger] seq_foldr(acc, init0, c0) by {
            lemma_clones_seq_eq(c0, args);
            assert forall|k: int| 0 <= k <= c0.len() implies #[trigger] accs[k] == seq_foldr(acc, init0, c0.skip(k)) by {
                lemma_foldr_suffix(accum, acc, init0, c0, accs, k);
            }
            assert(c0.skip(0) =~= c0);
        }
        r
    }

    /// The monoid product of `g` applied to (a clone of) each element, in order.
    pub fn fold_map<A: Clone, M: Monoid, G: Fn(A) -> M>(g: G, container: List<A>) -> (r: M)
        requires
            callable_on_clones(g, container@),
        ensures
            container@.len() == 0 ==> r == M::spec_empty(),
            exists|args: Seq<A>, ms: Seq<M>| #![trigger clones_seq(container@, args), ms.len()]
                {
                    &&& clones_seq(container@, args)
                    &&& ms.len() == container@.len()
                    &&& forall|i: int| 0 <= i < container@.len() ==> call_ensures(g, (args[i],), #[trigger] ms[i])
                    &&& M::obeys_associate_spec() ==> r == seq_fold_map(|m: M| m, ms)
                },
            forall|f: spec_fn(A) -> M|
                clone_preserves::<A>() && M::obeys_associate_spec() && computes(g, f) ==> r
                    == #[trigger] seq_fold_map(f, container@),
    {
        let ghost c0 = container@;
        let (r, Ghost(run)) = fold_map_ref(&g, container);
        let ghost args = run.0;
        let ghost ms = run.1;
        assert(clones_seq(c0, args));
        assert forall|f: spec_fn(A) -> M|
            clone_preserves::<A>() && M::obeys_associate_spec() && computes(g, f) implies r
            == #[trigger] seq_fold_map(f, c0) by {
            lemma_clones_seq_eq(c0, args);
            assert forall|i: int| 0 <= i < ms.len() implies #[trigger] ms[i] == f(c0[i]) by {
                assert(call_ensures(g, (args[i],), ms[i]));
            }
            assert(ms =~= c0.map_values(f));
            lemma_fold_map_map(f, c0);
        }
        r
    }

    /// The monoid product of (clones of) the elements, in order.
    pub fn fold<M: Monoid + Clone>(container: List<M>) -> (r: M)
        ensures
            container@.len() == 0 ==> r == M::spec_empty(),
            exists|ms: Seq<M>|
                #[trigger] clones_seq(container@, ms) && (M::obeys_associate_spec() ==> r == seq_fold_map(
                    |m: M| m,
                    ms,
                )),
            clone_preserves::<M>() && M::obeys_associate_spec() ==> r == seq_fold_map(|m: M| m, container@),
    {
        let ghost c0 = container@;
        let (r, Ghost(ms)) = Self::fold_rec(container);
        proof {
            if clone_preserves::<M>() {
                lemma_clones_seq_eq(c0, ms);
            }
        }
        r
    }

    /// `fold` that also returns the clones it combined.
    fn fold_rec<M: Monoid + Clone>(container: List<M>) -> (r: (M, Ghost<Seq<M>>))
        ensures
            container@.len() == 0 ==> r.0 == M::spec_empty(),
            clones_seq(container@, r.1@),
            M::obeys_associate_spec() ==> r.0 == seq_fold_map(|m: M| m, r.1@),
        decreases container@.len(),
    {
        let ghost c0 = container@;
        match container.decompose() {
            Maybe::Just((x, rest)) => {
                let ghost xg = x;
                let (m, Ghost(ms1)) = Self::fold_rec(rest);
                let ghost ms = seq![xg] + ms1;
                proof {
                    assert(ms.drop_first() =~= ms1);
                    assert forall|i: int| 0 <= i < c0.len() implies cloned(c0[i], #[trigger] ms[i]) by {
                        if i > 0 {
                            assert(c0[i] == rest@[i - 1]);
                            assert(ms[i] == ms1[i - 1]);
                        }
                    }
                }
                (x.associate(m), Ghost(ms))
            },
            Maybe::Nothing => (M::empty(), Ghost(Seq::empty())),
        }
    }

    /// The number of elements.
    pub fn length<A: Clone>(container: List<A>) -> (r: usize)
        requires
            container@.len() <= usize::MAX,
        ensures
            r == container@.len(),
    {
        let mut n: usize = 0;
        let mut rest = container;
        let ghost total = container@.len();
        while n < usize::MAX
            invariant
                n + rest@.len() == total,
                total <= usize::MAX,
                total == container@.len(),
            decreases rest@.len(),
        {
            match rest.decompose() {
                Maybe::Just((_, tail)) => {
                    rest = tail;
                    n = n + 1;
                },
                Maybe::Nothing => {
                    return n;
                },
            }
        }
        n
    }

    /// Traverses `container` with the effectful `map` in the `Maybe`
    /// applicative: `Just` of all results when every element gives `Just`,
    /// `Nothing` otherwise. `map` is applied to (a clone of) every element, in
    /// order.
    pub fn traverse_maybe<A: Clone, B, G: Fn(A) -> Maybe<B>>(map: G, container: List<A>) -> (r: Maybe<List<B>>)
        requires
            callable_on_clones(map, container@),
        ensures
            exists|args: Seq<A>|
                {
                    &&& #[trigger] clones_seq(container@, args)
                    &&& r matches Maybe::Just(l) ==> {
                        &&& l@.len() == container@.len()
                        &&& forall|i: int|
                            0 <= i < container@.len() ==> call_ensures(map, (args[i],), Maybe::Just(#[trigger] l@[i]))
                    }
                    &&& r is Nothing ==> some_gives_nothing(map, args)
                },
            forall|f: spec_fn(A) -> Maybe<B>|
                clone_preserves::<A>() && computes(map, f) ==> r.spec_map(|l: List<B>| l@)
                    == #[trigger] seq_traverse_maybe(container@, f),
    {
        let ghost c0 = container@;
        let (r, Ghost(args)) = traverse_maybe_ref(&map, container);
        assert(clones_seq(c0, args));
        assert forall|f: spec_fn(A) -> Maybe<B>|
            clone_preserves::<A>() && computes(map, f) implies r.spec_map(|l: List<B>| l@)
            == #[trigger] seq_traverse_maybe(c0, f) by {
            let rv = r.spec_map(|l: List<B>| l@);
            if let Maybe::Just(l) = r {
                assert forall|i: int| 0 <= i < c0.len() implies call_ensures(map, (args[i],), Maybe::Just(#[trigger] l@[i])) by {}
            }
            lemma_traverse_maybe_model(map, c0, args, rv, f);
        }
        r
    }

    /// Traverses `container` with the effectful `map` in the `Either`
    /// applicative: `Right` of all results when every element gives `Right`,
    /// otherwise the first `Left`. `map` is applied to (a clone of) every
    /// element, in order.
    pub fn traverse_either<A: Clone, E, B, G: Fn(A) -> Either<E, B>>(map: G, container: List<A>) -> (r: Either<
        E,
        List<B>,
    >)
        requires
            callable_on_clones(map, container@),
        ensures
            exists|args: Seq<A>, outs: Seq<Either<E, B>>| #![trigger clones_seq(container@, args), outs.len()]
                {
                    &&& clones_seq(container@, args)
                    &&& outs.len() == container@.len()
                    &&& forall|i: int| 0 <= i < container@.len() ==> call_ensures(map, (args[i],), #[trigger] outs[i])
                    &&& r.spec_map(|l: List<B>| l@) == seq_sequence_either(outs)
                    &&& (r is Right) == (forall|j: int| 0 <= j < outs.len() ==> #[trigger] outs[j] is Right)
                    &&& r matches Either::Right(l) ==> l@.len() == outs.len() && forall|j: int|
                        0 <= j < outs.len() ==> outs[j] == Either::<E, B>::Right(#[trigger] l@[j])
                },
            forall|f: spec_fn(A) -> Either<E, B>|
                clone_preserves::<A>() && computes(map, f) ==> r.spec_map(|l: List<B>| l@)
                    == #[trigger] seq_traverse_either(container@, f),
    {
        let ghost c0 = container@;
        let (r, Ghost(run)) = traverse_either_ref(&map, container);
        let ghost args = run.0;
        let ghost outs = run.1;
        assert(clones_seq(c0, args));
        proof {
            law_sequence_either_right(outs);
        }
        assert forall|f: spec_fn(A) -> Either<E, B>|
            clone_preserves::<A>() && computes(map, f) implies r.spec_map(|l: List<B>| l@)
            == #[trigger] seq_traverse_either(c0, f) by {
            lemma_clones_seq_eq(c0, args);
            assert forall|i: int| 0 <= i < c0.len() implies #[trigger] outs[i] == c0.map_values(f)[i] by {
                assert(call_ensures(map, (args[i],), outs[i]));
            }
            assert(outs =~= c0.map_values(f));
        }
        r
    }

    /// Traverses `container` with the effectful `map` in the `Validation`
    /// applicative: `Success` of all results when every element gives a
    /// `Success`, otherwise the errors of all failures combined with
    /// `associate`, in order. `map` is applied to (a clone of) every element,
    /// in order.
    pub fn traverse_validation<A: Clone, E: Semigroup, B, G: Fn(A) -> Validation<E, B>>(
        map: G,
        container: List<A>,
    ) -> (r: Validation<E, List<B>>)
        requires
            callable_on_clones(map, container@),
        ensures
            exists|args: Seq<A>, outs: Seq<Validation<E, B>>| #![trigger clones_seq(container@, args), outs.len()]
                {
                    &&& clones_seq(container@, args)
                    &&& outs.len() == container@.len()
                    &&& forall|i: int| 0 <= i < container@.len() ==> call_ensures(map, (args[i],), #[trigger] outs[i])
                    &&& (r is Success) == (seq_sequence_validation(outs) is Success)
                    &&& r is Success || E::obeys_associate_spec() ==> r.spec_map(|l: List<B>| l@)
                        == seq_sequence_validation(outs)
                    &&& (r is Success) == (forall|j: int| 0 <= j < outs.len() ==> #[trigger] outs[j] is Success)
                    &&& r matches Validation::Success(l) ==> l@.len() == outs.len() && forall|j: int|
                        0 <= j < outs.len() ==> outs[j] == Validation::<E, B>::Success(#[trigger] l@[j])
                },
            forall|f: spec_fn(A) -> Validation<E, B>|
                clone_preserves::<A>() && E::obeys_associate_spec() && computes(map, f) ==> r.spec_map(
                    |l: List<B>| l@,
                ) == #[trigger] seq_traverse_validation(container@, f),
    {
        let ghost c0 = container@;
        let (r, Ghost(run)) = traverse_validation_ref(&map, container);
        let ghost args = run.0;
        let ghost outs = run.1;
        assert(clones_seq(c0, args));
        proof {
            law_sequence_validation_success(outs);
        }
        assert forall|f: spec_fn(A) -> Validation<E, B>|
            clone_preserves::<A>() && E::obeys_associate_spec() && computes(map, f) implies r.spec_map(
                |l: List<B>| l@,
            ) == #[trigger] seq_traverse_validation(c0, f) by {
            lemma_clones_seq_eq(c0, args);
            assert forall|i: int| 0 <= i < c0.len() implies #[trigger] outs[i] == c0.map_values(f)[i] by {
                assert(call_ensures(map, (args[i],), outs[i]));
            }
            assert(outs =~= c0.map_values(f));
        }
        r
    }

    /// Traverses `container` with `map` in the identity applicative.
    pub fn traverse_identity<A: Clone, B, G: Fn(A) -> Identity<B>>(map: G, container: List<A>) -> (r: Identity<List<B>>)
        requires
            callable_on_clones(map, container@),
        ensures
            r.0@.len() == container@.len(),
            exists|args: Seq<A>|
                #[trigger] clones_seq(container@, args) && forall|i: int|
                    0 <= i < container@.len() ==> call_ensures(map, (args[i],), Identity(#[trigger] r.0@[i])),
            forall|f: spec_fn(A) -> Identity<B>|
                clone_preserves::<A>() && computes(map, f) ==> r.0@ == #[trigger] seq_traverse_identity(container@, f),
    {
        let ghost c0 = container@;
        let (l, Ghost(args)) = unwrap_identity_ref(&map, container);
        proof {
            assert(clones_seq(c0, args));
            assert forall|f: spec_fn(A) -> Identity<B>|
                clone_preserves::<A>() && computes(map, f) implies l@ == #[trigger] seq_traverse_identity(c0, f) by {
                lemma_clones_seq_eq(c0, args);
                assert forall|i: int| 0 <= i < c0.len() implies #[trigger] l@[i] == seq_traverse_identity(c0, f)[i] by {
                    assert(call_ensures(map, (args[i],), Identity(l@[i])));
                }
                assert(l@ =~= seq_traverse_identity(c0, f));
            }
        }
        Identity(l)
    }
}

/// A run of the right fold that computes `acc` holds, at each position, the
/// model of the fold of the suffix from there.
proof fn lemma_foldr_suffix<A: Clone, B, F: Fn(A, B) -> B>(
    accum: F,
    acc: spec_fn(A, B) -> B,
    init: B,
    xs: Seq<A>,
    accs: Seq<B>,
    k: int,
)
    requires
        computes2(accum, acc),
        0 <= k <= xs.len(),
        accs.len() == xs.len() + 1,
        accs[xs.len() as int] == init,
        forall|i: int| 0 <= i < xs.len() ==> call_ensures(accum, (xs[i], accs[i + 1]), #[trigger] accs[i]),
    ensures
        accs[k] == seq_foldr(acc, init, xs.skip(k)),
    decreases xs.len() - k,
{
    if k == xs.len() {
        assert(xs.skip(k) =~= Seq::<A>::empty());
    } else {
        lemma_foldr_suffix(accum, acc, init, xs, accs, k + 1);
        assert(xs.skip(k).drop_first() =~= xs.skip(k + 1));
        assert(call_ensures(accum, (xs[k], accs[k + 1]), accs[k]));
    }
}

/// `fold_map f` is the fold of the identity over the images.
proof fn lemma_fold_map_map<A, M: Monoid>(f: spec_fn(A) -> M, xs: Seq<A>)
    ensures
        seq_fold_map(f, xs) == seq_fold_map(|m: M| m, xs.map_values(f)),
    decreases xs.len(),
{
    if xs.len() > 0 {
        lemma_fold_map_map(f, xs.drop_first());
        assert(xs.map_values(f).drop_first() =~= xs.drop_first().map_values(f));
    }
}

} // verus!
