//! `Validation`: like `Either`, but its applicative accumulates the errors of
//! both sides.
use std::marker::PhantomData;
use std::ops::ControlFlow;

use vstd::prelude::*;

use crate::algebra::{Monoid, Semigroup};
use crate::either::Either;
use crate::function::{clone_preserves, clones_seq, computes, computes2, interprets, lemma_clones_seq_eq};
use crate::list::{List, ListInstance};
use crate::identity::Identity;
use crate::maybe::Maybe;

verus! {

/// Either a `Success(a)` or a `Failure(e)`.
#[derive(Debug, Copy, PartialEq, Eq, PartialOrd, Ord, Hash)]
pub enum Validation<E, A> {
    Success(A),
    Failure(E),
}

impl<E: Clone, A: Clone> Clone for Validation<E, A> {
    /// The same variant, holding a clone of the value.
    fn clone(&self) -> (r: Self)
        ensures
            match (*self, r) {
                (Validation::Success(a), Validation::Success(b)) => cloned(a, b),
                (Validation::Failure(a), Validation::Failure(b)) => cloned(a, b),
                _ => false,
            },
    {
        match self {
            Validation::Success(x) => Validation::Success(x.clone()),
            Validation::Failure(x) => Validation::Failure(x.clone()),
        }
    }
}

impl<E: Clone, A: Clone> Validation<E, A> {
    /// Where cloning `A` and `E` gives back equal values, so does cloning a
    /// `Validation`.
    pub proof fn lemma_clone_preserves()
        requires
            clone_preserves::<A>() && clone_preserves::<E>(),
        ensures
            clone_preserves::<Validation<E, A>>(),
    {
        assert forall|a: Validation<E, A>, b: Validation<E, A>| #[trigger] cloned(a, b) implies a == b by {
            if vstd::pervasive::strictly_cloned(a, b) {
                assert(call_ensures(<Validation<E, A> as Clone>::clone, (&a,), b));
            }
        }
    }
}

impl<E, A> Validation<E, A> {
    /// Mathematical model of `fmap`: maps the `Success` value.
    pub open spec fn spec_map<B>(self, f: spec_fn(A) -> B) -> Validation<E, B> {
        match self {
            Validation::Success(a) => Validation::Success(f(a)),
            Validation::Failure(e) => Validation::Failure(e),
        }
    }

    /// Mathematical model of `try_foldr`.
    pub open spec fn spec_try_foldr<B>(
        self,
        acc: spec_fn(A, B) -> B,
        brk: spec_fn(A) -> ControlFlow<B, A>,
        init: B,
    ) -> B {
        match self {
            Validation::Success(a) => match brk(a) {
                ControlFlow::Break(b) => b,
                ControlFlow::Continue(a2) => acc(a2, init),
            },
            Validation::Failure(_) => init,
        }
    }

    /// Mathematical model of `foldr`.
    pub open spec fn spec_foldr<B>(self, acc: spec_fn(A, B) -> B, init: B) -> B {
        match self {
            Validation::Success(a) => acc(a, init),
            Validation::Failure(_) => init,
        }
    }

    /// Mathematical model of `fold_map`.
    pub open spec fn spec_fold_map<M: Monoid>(self, f: spec_fn(A) -> M) -> M {
        self.spec_foldr(|a: A, m: M| f(a).spec_associate(m), M::spec_empty())
    }

    /// Mathematical model of `traverse` into `Maybe`.
    pub open spec fn spec_traverse_maybe<B>(self, f: spec_fn(A) -> Maybe<B>) -> Maybe<Validation<E, B>> {
        match self {
            Validation::Success(a) => f(a).spec_map(|b: B| Validation::Success(b)),
            Validation::Failure(e) => Maybe::Just(Validation::Failure(e)),
        }
    }

    /// Mathematical model of `traverse` into `Identity`.
    pub open spec fn spec_traverse_identity<B>(self, f: spec_fn(A) -> Identity<B>) -> Identity<Validation<E, B>> {
        Identity(self.spec_map(|a: A| f(a).0))
    }

    /// Mathematical model of `traverse` into `Either`.
    pub open spec fn spec_traverse_either<X, B>(self, f: spec_fn(A) -> Either<X, B>) -> Either<X, Validation<E, B>> {
        match self {
            Validation::Success(a) => f(a).spec_map(|b: B| Validation::<E, B>::Success(b)),
            Validation::Failure(e) => Either::Right(Validation::<E, B>::Failure(e)),
        }
    }

    /// Mathematical model of `traverse` into `Validation`.
    pub open spec fn spec_traverse_validation<X, B>(self, f: spec_fn(A) -> Validation<X, B>) -> Validation<
        X,
        Validation<E, B>,
    > {
        match self {
            Validation::Success(a) => f(a).spec_map(|b: B| Validation::<E, B>::Success(b)),
            Validation::Failure(e) => Validation::Success(Validation::<E, B>::Failure(e)),
        }
    }

    /// Mathematical model of `traverse` into `List`, over the elements of the
    /// resulting list.
    pub open spec fn spec_traverse_list<B>(self, f: spec_fn(A) -> List<B>) -> Seq<Validation<E, B>> {
        match self {
            Validation::Success(a) => f(a)@.map_values(|b: B| Validation::<E, B>::Success(b)),
            Validation::Failure(e) => seq![Validation::<E, B>::Failure(e)],
        }
    }

    /// The conversion from `Result`.
    pub open spec fn spec_from_result(r: Result<A, E>) -> Validation<E, A> {
        match r {
            Ok(ok) => Validation::Success(ok),
            Err(err) => Validation::Failure(err),
        }
    }

    /// The conversion from `Either`.
    pub open spec fn spec_from_either(x: Either<E, A>) -> Validation<E, A> {
        match x {
            Either::Right(x) => Validation::Success(x),
            Either::Left(e) => Validation::Failure(e),
        }
    }

    /// The conversion to `Either`.
    pub open spec fn spec_either(self) -> Either<E, A> {
        match self {
            Validation::Success(x) => Either::Right(x),
            Validation::Failure(e) => Either::Left(e),
        }
    }

    /// The conversion to `Result`.
    pub open spec fn spec_result(self) -> Result<A, E> {
        match self {
            Validation::Success(x) => Ok(x),
            Validation::Failure(e) => Err(e),
        }
    }

    /// Converts to `Either`: `Success` to `Right`, `Failure` to `Left`.
    pub fn either(self) -> (r: Either<E, A>)
        ensures
            r == self.spec_either(),
    {
        match self {
            Validation::Success(x) => Either::Right(x),
            Validation::Failure(e) => Either::Left(e),
        }
    }

    /// Converts to `Result`: `Success` to `Ok`, `Failure` to `Err`.
    pub fn result(self) -> (r: Result<A, E>)
        ensures
            r == self.spec_result(),
    {
        match self {
            Validation::Success(x) => Ok(x),
            Validation::Failure(e) => Err(e),
        }
    }

    /// Applies `g` to the `Success` value; a `Failure` passes through.
    pub fn fmap<B, G: Fn(A) -> B>(self, g: G) -> (r: Validation<E, B>)
        requires
            self matches Validation::Success(a) ==> call_requires(g, (a,)),
        ensures
            match self {
                Validation::Success(a) => r matches Validation::Success(b) && call_ensures(g, (a,), b),
                Validation::Failure(e) => r == Validation::<E, B>::Failure(e),
            },
            forall|f: spec_fn(A) -> B| computes(g, f) ==> r == #[trigger] self.spec_map(f),
    {
        ValidationInstance::<E>::fmap(g, self)
    }
}

impl<E: Semigroup, A> Validation<E, A> {
    /// Applies the `Success` function of `self` to the `Success` value of `x`;
    /// two failures are combined, the error of `self` first.
    pub fn apply<X, B>(self, x: Validation<E, X>) -> (r: Validation<E, B>) where A: Fn(X) -> B
        requires
            self matches Validation::Success(h) ==> (x matches Validation::Success(a) ==> call_requires(
                h,
                (a,),
            )),
        ensures
            match (self, x) {
                (Validation::Success(h), Validation::Success(a)) => r matches Validation::Success(b)
                    && call_ensures(h, (a,), b),
                (Validation::Failure(e1), Validation::Failure(e2)) => r matches Validation::Failure(e)
                    && (E::obeys_associate_spec() ==> e == e1.spec_associate(e2)),
                (Validation::Failure(e), _) => r == Validation::<E, B>::Failure(e),
                (_, Validation::Failure(e)) => r == Validation::<E, B>::Failure(e),
            },
            forall|ev: spec_fn(A, X) -> B|
                E::obeys_associate_spec() && (self matches Validation::Success(h) ==> interprets(ev, h)) ==> r
                    == #[trigger] validation_ap(self, x, ev),
    {
        ValidationInstance::<E>::apply(self, x)
    }

    /// The first `Success`; two failures are combined, the error of `self` first.
    pub fn alt(self, another: Validation<E, A>) -> (r: Validation<E, A>)
        ensures
            match (self, another) {
                (Validation::Success(_), _) => r == self,
                (_, Validation::Success(_)) => r == another,
                (Validation::Failure(e1), Validation::Failure(e2)) => r matches Validation::Failure(e)
                    && (E::obeys_associate_spec() ==> e == e1.spec_associate(e2)),
            },
    {
        ValidationInstance::<E>::alt(self, another)
    }
}

/// Mathematical model of `apply`, where `ev` interprets the function values.
pub open spec fn validation_ap<E: Semigroup, G, A, B>(
    g: Validation<E, G>,
    x: Validation<E, A>,
    ev: spec_fn(G, A) -> B,
) -> Validation<E, B> {
    match (g, x) {
        (Validation::Success(h), Validation::Success(a)) => Validation::Success(ev(h, a)),
        (Validation::Failure(e1), Validation::Failure(e2)) => Validation::Failure(e1.spec_associate(e2)),
        (Validation::Failure(e), _) => Validation::Failure(e),
        (_, Validation::Failure(e)) => Validation::Failure(e),
    }
}

impl<E: Monoid, A> Default for Validation<E, A> {
    /// `Failure` of the identity error.
    fn default() -> (r: Self)
        ensures
            r == Validation::<E, A>::Failure(E::spec_empty()),
    {
        Validation::Failure(E::empty())
    }
}

/// Marker for the instances of `Validation` with errors of type `E`.
#[derive(Debug, Copy, PartialEq, Eq, PartialOrd, Ord, Hash, Default)]
pub struct ValidationInstance<E>(PhantomData<E>);

impl<E> Clone for ValidationInstance<E> {
    fn clone(&self) -> (r: Self)
        ensures
            r == *self,
    {
        ValidationInstance(PhantomData)
    }
}

impl<E> ValidationInstance<E> {
    /// Applies `g` to the `Success` value; a `Failure` passes through.
    pub fn fmap<A, B, G: Fn(A) -> B>(g: G, fx: Validation<E, A>) -> (r: Validation<E, B>)
        requires
            fx matches Validation::Success(a) ==> call_requires(g, (a,)),
        ensures
            match fx {
                Validation::Success(a) => r matches Validation::Success(b) && call_ensures(g, (a,), b),
                Validation::Failure(e) => r == Validation::<E, B>::Failure(e),
            },
            forall|f: spec_fn(A) -> B| computes(g, f) ==> r == #[trigger] fx.spec_map(f),
    {
        match fx {
            Validation::Success(x) => Validation::Success(g(x)),
            Validation::Failure(e) => Validation::Failure(e),
        }
    }

    /// Wraps `x` in `Success`.
    pub fn pure<A>(x: A) -> (r: Validation<E, A>)
        ensures
            r == Validation::<E, A>::Success(x),
    {
        Validation::Success(x)
    }

    /// Right fold over the `Success` value that `try_break` may cut short.
    pub fn try_foldr<A, B, F: Fn(A, B) -> B, T: Fn(A) -> ControlFlow<B, A>>(
        accum: F,
        try_break: T,
        init: B,
        container: Validation<E, A>,
    ) -> (r: B)
        requires
            container matches Validation::Success(a) ==> {
                &&& call_requires(try_break, (a,))
                &&& forall|y: A|
                    call_ensures(try_break, (a,), ControlFlow::<B, A>::Continue(y)) ==> call_requires(
                        accum,
                        (y, init),
                    )
            },
        ensures
            match container {
                Validation::Success(a) => exists|c: ControlFlow<B, A>|
                    #![trigger call_ensures(try_break, (a,), c)]
                    call_ensures(try_break, (a,), c) && match c {
                        ControlFlow::Break(b) => r == b,
                        ControlFlow::Continue(y) => call_ensures(accum, (y, init), r),
                    },
                Validation::Failure(_) => r == init,
            },
            forall|acc: spec_fn(A, B) -> B, brk: spec_fn(A) -> ControlFlow<B, A>|
                computes2(accum, acc) && computes(try_break, brk) ==> r
                    == #[trigger] container.spec_try_foldr(acc, brk, init),
    {
        match container {
            Validation::Failure(_) => init,
            Validation::Success(x) => match try_break(x) {
                ControlFlow::Continue(x) => accum(x, init),
                ControlFlow::Break(res) => res,
            },
        }
    }

    /// Right fold: `accum(a, init)` on `Success(a)`, `init` on `Failure`.
    pub fn foldr<A, B, F: Fn(A, B) -> B>(accum: F, init: B, container: Validation<E, A>) -> (r: B)
        requires
            container matches Validation::Success(a) ==> call_requires(accum, (a, init)),
        ensures
            match container {
                Validation::Success(a) => call_ensures(accum, (a, init), r),
                Validation::Failure(_) => r == init,
            },
            forall|acc: spec_fn(A, B) -> B| computes2(accum, acc) ==> r == #[trigger] container.spec_foldr(acc, init),
    {
        match container {
            Validation::Success(x) => accum(x, init),
            Validation::Failure(_) => init,
        }
    }

    /// Maps the `Success` value into a monoid; the monoid's identity on `Failure`.
    pub fn fold_map<A, M: Monoid, G: Fn(A) -> M>(g: G, container: Validation<E, A>) -> (r: M)
        requires
            container matches Validation::Success(a) ==> call_requires(g, (a,)),
        ensures
            match container {
                Validation::Success(a) => exists|m: M|
                    #[trigger] call_ensures(g, (a,), m) && (M::obeys_associate_spec() ==> r == m.spec_associate(M::spec_empty())),
                Validation::Failure(_) => r == M::spec_empty(),
            },
            forall|f: spec_fn(A) -> M|
                M::obeys_associate_spec() && computes(g, f) ==> r == #[trigger] container.spec_fold_map(f),
    {
        match container {
            Validation::Success(x) => {
                let m = g(x);
                m.associate(M::empty())
            },
            Validation::Failure(_) => M::empty(),
        }
    }

    /// The `Success` value, or the monoid's identity on `Failure`.
    pub fn fold<M: Monoid>(container: Validation<E, M>) -> (r: M)
        ensures
            M::obeys_associate_spec() ==> r == container.spec_fold_map(|m: M| m),
            container is Failure ==> r == M::spec_empty(),
    {
        match container {
            Validation::Success(x) => x.associate(M::empty()),
            Validation::Failure(_) => M::empty(),
        }
    }

    /// Traverses `container` with the effectful `map` in the `Maybe` applicative.
    pub fn traverse_maybe<A, B, G: Fn(A) -> Maybe<B>>(map: G, container: Validation<E, A>) -> (r: Maybe<
        Validation<E, B>,
    >)
        requires
            container matches Validation::Success(a) ==> call_requires(map, (a,)),
        ensures
            match container {
                Validation::Success(a) => exists|mb: Maybe<B>|
                    #[trigger] call_ensures(map, (a,), mb) && r == mb.spec_map(
                        |b: B| Validation::<E, B>::Success(b),
                    ),
                Validation::Failure(e) => r == Maybe::Just(Validation::<E, B>::Failure(e)),
            },
            forall|f: spec_fn(A) -> Maybe<B>| computes(map, f) ==> r == #[trigger] container.spec_traverse_maybe(f),
    {
        match container {
            Validation::Success(x) => {
                let mb = map(x);
                match mb {
                    Maybe::Just(b) => Maybe::Just(Validation::Success(b)),
                    Maybe::Nothing => Maybe::Nothing,
                }
            },
            Validation::Failure(e) => Maybe::Just(Validation::Failure(e)),
        }
    }

    /// Traverses `container` with `map` in the identity applicative.
    pub fn traverse_identity<A, B, G: Fn(A) -> Identity<B>>(map: G, container: Validation<E, A>) -> (r: Identity<
        Validation<E, B>,
    >)
        requires
            container matches Validation::Success(a) ==> call_requires(map, (a,)),
        ensures
            match container {
                Validation::Success(a) => exists|ib: Identity<B>|
                    #[trigger] call_ensures(map, (a,), ib) && r == Identity(Validation::<E, B>::Success(ib.0)),
                Validation::Failure(e) => r == Identity(Validation::<E, B>::Failure(e)),
            },
            forall|f: spec_fn(A) -> Identity<B>|
                computes(map, f) ==> r == #[trigger] container.spec_traverse_identity(f),
    {
        match container {
            Validation::Success(x) => {
                let Identity(b) = map(x);
                Identity(Validation::Success(b))
            },
            Validation::Failure(e) => Identity(Validation::Failure(e)),
        }
    }

    /// Traverses `container` with the effectful `map` in the `Either`
    /// applicative: the result of `map` on the `Success` value, its `Right`
    /// value wrapped; a `Failure` container gives `Right` of itself.
    pub fn traverse_either<A, X, B, G: Fn(A) -> Either<X, B>>(map: G, container: Validation<E, A>) -> (r: Either<X, Validation<E, B>>)
        requires
            container matches Validation::Success(a) ==> call_requires(map, (a,)),
        ensures
            match container {
                Validation::Success(a) => exists|eb: Either<X, B>|
                    #[trigger] call_ensures(map, (a,), eb) && r == eb.spec_map(|b: B| Validation::<E, B>::Success(b)),
                Validation::Failure(e) => r == Either::<X, Validation<E, B>>::Right(Validation::<E, B>::Failure(e)),
            },
            forall|f: spec_fn(A) -> Either<X, B>| computes(map, f) ==> r == #[trigger] container.spec_traverse_either(f),
    {
        match container {
            Validation::Success(x) => match map(x) {
                Either::Left(err) => Either::Left(err),
                Either::Right(b) => Either::Right(Validation::<E, B>::Success(b)),
            },
            Validation::Failure(e) => Either::Right(Validation::<E, B>::Failure(e)),
        }
    }

    /// Traverses `container` with the effectful `map` in the `Validation`
    /// applicative: the result of `map` on the `Success` value, its `Success`
    /// value wrapped; a `Failure` container gives `Success` of itself.
    pub fn traverse_validation<A, X, B, G: Fn(A) -> Validation<X, B>>(map: G, container: Validation<E, A>) -> (r: Validation<
        X,
        Validation<E, B>,
    >)
        requires
            container matches Validation::Success(a) ==> call_requires(map, (a,)),
        ensures
            match container {
                Validation::Success(a) => exists|vb: Validation<X, B>|
                    #[trigger] call_ensures(map, (a,), vb) && r == vb.spec_map(|b: B| Validation::<E, B>::Success(b)),
                Validation::Failure(e) => r == Validation::<X, Validation<E, B>>::Success(Validation::<E, B>::Failure(e)),
            },
            forall|f: spec_fn(A) -> Validation<X, B>|
                computes(map, f) ==> r == #[trigger] container.spec_traverse_validation(f),
    {
        match container {
            Validation::Success(x) => match map(x) {
                Validation::Success(b) => Validation::Success(Validation::<E, B>::Success(b)),
                Validation::Failure(err) => Validation::Failure(err),
            },
            Validation::Failure(e) => Validation::Success(Validation::<E, B>::Failure(e)),
        }
    }

    /// Traverses `container` with the effectful `map` in the `List`
    /// applicative: the values of the list that `map` gives on the `Success`
    /// value, each wrapped, in order (taken out of their cells as
    /// `List::decompose` does); a `Failure` container gives the list of itself
    /// alone.
    pub fn traverse_list<A, B: Clone, G: Fn(A) -> List<B>>(map: G, container: Validation<E, A>) -> (r: List<Validation<E, B>>)
        requires
            container matches Validation::Success(a) ==> call_requires(map, (a,)),
        ensures
            match container {
                Validation::Success(a) => exists|lb: List<B>, bs: Seq<B>|
                    #![trigger call_ensures(map, (a,), lb), clones_seq(lb@, bs)]
                    call_ensures(map, (a,), lb) && clones_seq(lb@, bs) && r@ == bs.map_values(|b: B| Validation::<E, B>::Success(b)),
                Validation::Failure(e) => r@ == seq![Validation::<E, B>::Failure(e)],
            },
            forall|f: spec_fn(A) -> List<B>|
                clone_preserves::<B>() && computes(map, f) ==> r@ == #[trigger] container.spec_traverse_list(f),
    {
        match container {
            Validation::Success(x) => {
                let ghost xg = x;
                let lb = map(x);
                let ghost lbg = lb;
                let wrap = |b: B| -> (c: Validation<E, B>)
                    ensures
                        c == Validation::<E, B>::Success(b),
                    { Validation::<E, B>::Success(b) };
                let r = ListInstance::fmap(wrap, lb);
                proof {
                    let bs = choose|args: Seq<B>|
                        #[trigger] clones_seq(lbg@, args) && forall|i: int|
                            0 <= i < lbg@.len() ==> call_ensures(wrap, (args[i],), #[trigger] r@[i]);
                    assert forall|i: int| 0 <= i < bs.len() implies #[trigger] r@[i] == bs.map_values(
                        |b: B| Validation::<E, B>::Success(b),
                    )[i] by {
                        assert(call_ensures(wrap, (bs[i],), r@[i]));
                    }
                    assert(r@ =~= bs.map_values(|b: B| Validation::<E, B>::Success(b)));
                    assert(call_ensures(map, (xg,), lbg) && clones_seq(lbg@, bs));
                    if clone_preserves::<B>() {
                        lemma_clones_seq_eq(lbg@, bs);
                    }
                }
                r
            },
            Validation::Failure(e) => {
                let r = List::singleton(Validation::<E, B>::Failure(e));
                r
            },
        }
    }
}

impl<E: Semigroup> ValidationInstance<E> {
    /// Applies the `Success` function of `fg` to the `Success` value of `fx`;
    /// two failures are combined, the error of `fg` first; a single failure
    /// passes through.
    pub fn apply<A, B, G: Fn(A) -> B>(fg: Validation<E, G>, fx: Validation<E, A>) -> (r: Validation<E, B>)
        requires
            fg matches Validation::Success(h) ==> (fx matches Validation::Success(a) ==> call_requires(
                h,
                (a,),
            )),
        ensures
            match (fg, fx) {
                (Validation::Success(h), Validation::Success(a)) => r matches Validation::Success(b)
                    && call_ensures(h, (a,), b),
                (Validation::Failure(e1), Validation::Failure(e2)) => r matches Validation::Failure(e)
                    && (E::obeys_associate_spec() ==> e == e1.spec_associate(e2)),
                (Validation::Failure(e), _) => r == Validation::<E, B>::Failure(e),
                (_, Validation::Failure(e)) => r == Validation::<E, B>::Failure(e),
            },
            forall|ev: spec_fn(G, A) -> B|
                E::obeys_associate_spec() && (fg matches Validation::Success(h) ==> interprets(ev, h)) ==> r
                    == #[trigger] validation_ap(fg, fx, ev),
    {
        match (fg, fx) {
            (Validation::Success(g), Validation::Success(x)) => Validation::Success(g(x)),
            (Validation::Failure(e1), Validation::Failure(e2)) => Validation::Failure(e1.associate(e2)),
            (Validation::Failure(e), _) => Validation::Failure(e),
            (_, Validation::Failure(e)) => Validation::Failure(e),
        }
    }

    /// The first `Success`; two failures are combined, the error of `one` first.
    pub fn alt<A>(one: Validation<E, A>, another: Validation<E, A>) -> (r: Validation<E, A>)
        ensures
            match (one, another) {
                (Validation::Success(_), _) => r == one,
                (_, Validation::Success(_)) => r == another,
                (Validation::Failure(e1), Validation::Failure(e2)) => r matches Validation::Failure(e)
                    && (E::obeys_associate_spec() ==> e == e1.spec_associate(e2)),
            },
    {
        one.associate(another)
    }
}

impl<E: Monoid> ValidationInstance<E> {
    /// The neutral element of `alt`: `Failure` of the identity error.
    pub fn fallback<A>() -> (r: Validation<E, A>)
        ensures
            r == Validation::<E, A>::Failure(E::spec_empty()),
    {
        Validation::Failure(E::empty())
    }
}

impl<E: Semigroup, A> Semigroup for Validation<E, A> {
    open spec fn obeys_associate_spec() -> bool {
        E::obeys_associate_spec()
    }

    /// The first `Success`; two failures are combined.
    open spec fn spec_associate(self, other: Self) -> Self {
        match (self, other) {
            (Validation::Success(_), _) => self,
            (_, Validation::Success(_)) => other,
            (Validation::Failure(e1), Validation::Failure(e2)) => Validation::Failure(e1.spec_associate(e2)),
        }
    }

    proof fn lemma_associative(a: Self, b: Self, c: Self) {
        if let (Validation::Failure(x), Validation::Failure(y), Validation::Failure(z)) = (a, b, c) {
            E::lemma_associative(x, y, z);
        }
    }

    fn associate(self, other: Self) -> (r: Self)
        ensures
            match (self, other) {
                (Validation::Success(_), _) => r == self,
                (_, Validation::Success(_)) => r == other,
                (Validation::Failure(e1), Validation::Failure(e2)) => r matches Validation::Failure(e)
                    && (E::obeys_associate_spec() ==> e == e1.spec_associate(e2)),
            },
    {
        match (self, other) {
            (Validation::Success(x), _) => Validation::Success(x),
            (_, Validation::Success(y)) => Validation::Success(y),
            (Validation::Failure(e1), Validation::Failure(e2)) => Validation::Failure(e1.associate(e2)),
        }
    }
}

impl<E: Monoid, A> Monoid for Validation<E, A> {
    open spec fn spec_empty() -> Self {
        Validation::Failure(E::spec_empty())
    }

    proof fn lemma_identity(a: Self) {
        if let Validation::Failure(e) = a {
            E::lemma_identity(e);
        }
    }

    fn empty() -> (r: Self) {
        Validation::Failure(E::empty())
    }
}

impl<E, A> From<Result<A, E>> for Validation<E, A> {
    /// `Ok` to `Success`, `Err` to `Failure`.
    fn from(value: Result<A, E>) -> (r: Self) {
        match value {
            Ok(ok) => Validation::Success(ok),
            Err(err) => Validation::Failure(err),
        }
    }
}

impl<E, A> vstd::std_specs::convert::FromSpecImpl<Result<A, E>> for Validation<E, A> {
    open spec fn obeys_from_spec() -> bool {
        true
    }

    open spec fn from_spec(v: Result<A, E>) -> Self {
        Validation::spec_from_result(v)
    }
}

impl<E, A> From<Validation<E, A>> for Result<A, E> {
    /// `Success` to `Ok`, `Failure` to `Err`.
    fn from(value: Validation<E, A>) -> (r: Self) {
        value.result()
    }
}

impl<E, A> vstd::std_specs::convert::FromSpecImpl<Validation<E, A>> for Result<A, E> {
    open spec fn obeys_from_spec() -> bool {
        true
    }

    open spec fn from_spec(v: Validation<E, A>) -> Self {
        v.spec_result()
    }
}

impl<E, A> From<Either<E, A>> for Validation<E, A> {
    /// `Right` to `Success`, `Left` to `Failure`.
    fn from(value: Either<E, A>) -> (r: Self) {
        match value {
            Either::Right(x) => Validation::Success(x),
            Either::Left(e) => Validation::Failure(e),
        }
    }
}

impl<E, A> vstd::std_specs::convert::FromSpecImpl<Either<E, A>> for Validation<E, A> {
    open spec fn obeys_from_spec() -> bool {
        true
    }

    open spec fn from_spec(v: Either<E, A>) -> Self {
        Validation::spec_from_either(v)
    }
}

impl<E, A> From<Validation<E, A>> for Either<E, A> {
    /// `Success` to `Right`, `Failure` to `Left`.
    fn from(value: Validation<E, A>) -> (r: Self) {
        value.either()
    }
}

impl<E, A> vstd::std_specs::convert::FromSpecImpl<Validation<E, A>> for Either<E, A> {
    open spec fn obeys_from_spec() -> bool {
        true
    }

    open spec fn from_spec(v: Validation<E, A>) -> Self {
        v.spec_either()
    }
}

} // verus!
