//! The sum type `Either`: a `Left` error or a `Right` value, and its instances.
use std::marker::PhantomData;
use std::ops::ControlFlow;

use vstd::prelude::*;

use crate::algebra::{Monoid, Semigroup};
use crate::function::{clone_preserves, clones_seq, computes, computes2, interprets, lemma_clones_seq_eq};
use crate::list::{List, ListInstance};
use crate::identity::Identity;
use crate::maybe::Maybe;
use crate::validation::Validation;

verus! {

/// Either a `Left(e)`, conventionally an error, or a `Right(a)`.
#[derive(Debug, Copy, PartialEq, Eq, PartialOrd, Ord, Hash)]
pub enum Either<E, A> {
    Left(E),
    Right(A),
}

impl<E: Clone, A: Clone> Clone for Either<E, A> {
    /// The same variant, holding a clone of the value.
    fn clone(&self) -> (r: Self)
        ensures
            match (*self, r) {
                (Either::Left(a), Either::Left(b)) => cloned(a, b),
                (Either::Right(a), Either::Right(b)) => cloned(a, b),
                _ => false,
            },
    {
        match self {
            Either::Left(x) => Either::Left(x.clone()),
            Either::Right(x) => Either::Right(x.clone()),
        }
    }
}

impl<E: Clone, A: Clone> Either<E, A> {
    /// Where cloning `E` and `A` gives back equal values, so does cloning a
    /// `Either`.
    pub proof fn lemma_clone_preserves()
        requires
            clone_preserves::<E>() && clone_preserves::<A>(),
        ensures
            clone_preserves::<Either<E, A>>(),
    {
        assert forall|a: Either<E, A>, b: Either<E, A>| #[trigger] cloned(a, b) implies a == b by {
            if vstd::pervasive::strictly_cloned(a, b) {
                assert(call_ensures(<Either<E, A> as Clone>::clone, (&a,), b));
            }
        }
    }
}

impl<E, A> Either<E, A> {
    /// Mathematical model of `fmap`: maps the `Right` value.
    pub open spec fn spec_map<B>(self, f: spec_fn(A) -> B) -> Either<E, B> {
        match self {
            Either::Right(a) => Either::Right(f(a)),
            Either::Left(e) => Either::Left(e),
        }
    }

    /// Mathematical model of `bind`.
    pub open spec fn spec_bind<B>(self, f: spec_fn(A) -> Either<E, B>) -> Either<E, B> {
        match self {
            Either::Right(a) => f(a),
            Either::Left(e) => Either::Left(e),
        }
    }

    /// Mathematical model of `try_foldr`.
    pub open spec fn spec_try_foldr<B>(
        self,
        acc: spec_fn(A, B) -> B,
        brk: spec_fn(A) -> ControlFlow<B, A>,
        init: B,
    ) -> B {
        match self {
            Either::Right(a) => match brk(a) {
                ControlFlow::Break(b) => b,
                ControlFlow::Continue(a2) => acc(a2, init),
            },
            Either::Left(_) => init,
        }
    }

    /// Mathematical model of `foldr`.
    pub open spec fn spec_foldr<B>(self, acc: spec_fn(A, B) -> B, init: B) -> B {
        match self {
            Either::Right(a) => acc(a, init),
            Either::Left(_) => init,
        }
    }

    /// Mathematical model of `fold_map`.
    pub open spec fn spec_fold_map<M: Monoid>(self, f: spec_fn(A) -> M) -> M {
        self.spec_foldr(|a: A, m: M| f(a).spec_associate(m), M::spec_empty())
    }

    /// Mathematical model of `traverse` into `Maybe`.
    pub open spec fn spec_traverse_maybe<B>(self, f: spec_fn(A) -> Maybe<B>) -> Maybe<Either<E, B>> {
        match self {
            Either::Right(a) => f(a).spec_map(|b: B| Either::Right(b)),
            Either::Left(e) => Maybe::Just(Either::Left(e)),
        }
    }

    /// Mathematical model of `traverse` into `Identity`.
    pub open spec fn spec_traverse_identity<B>(self, f: spec_fn(A) -> Identity<B>) -> Identity<Either<E, B>> {
        Identity(self.spec_map(|a: A| f(a).0))
    }

    /// Mathematical model of `traverse` into `Either`.
    pub open spec fn spec_traverse_either<X, B>(self, f: spec_fn(A) -> Either<X, B>) -> Either<X, Either<E, B>> {
        match self {
            Either::Right(a) => f(a).spec_map(|b: B| Either::<E, B>::Right(b)),
            Either::Left(e) => Either::Right(Either::<E, B>::Left(e)),
        }
    }

    /// Mathematical model of `traverse` into `Validation`.
    pub open spec fn spec_traverse_validation<X, B>(self, f: spec_fn(A) -> Validation<X, B>) -> Validation<
        X,
        Either<E, B>,
    > {
        match self {
            Either::Right(a) => f(a).spec_map(|b: B| Either::<E, B>::Right(b)),
            Either::Left(e) => Validation::Success(Either::<E, B>::Left(e)),
        }
    }

    /// Mathematical model of `traverse` into `List`, over the elements of the
    /// resulting list.
    pub open spec fn spec_traverse_list<B>(self, f: spec_fn(A) -> List<B>) -> Seq<Either<E, B>> {
        match self {
            Either::Right(a) => f(a)@.map_values(|b: B| Either::<E, B>::Right(b)),
            Either::Left(e) => seq![Either::<E, B>::Left(e)],
        }
    }

    /// The conversion from `Result`.
    pub open spec fn spec_from_result(r: Result<A, E>) -> Either<E, A> {
        match r {
            Ok(ok) => Either::Right(ok),
            Err(err) => Either::Left(err),
        }
    }

    /// The conversion to `Result`.
    pub open spec fn spec_result(self) -> Result<A, E> {
        match self {
            Either::Left(err) => Err(err),
            Either::Right(ok) => Ok(ok),
        }
    }

    /// Converts to the corresponding `Result`: `Left` to `Err`, `Right` to `Ok`.
    pub fn result(self) -> (r: Result<A, E>)
        ensures
            r == self.spec_result(),
    {
        match self {
            Either::Left(err) => Err(err),
            Either::Right(ok) => Ok(ok),
        }
    }

    /// Applies `g` to the `Right` value; a `Left` passes through.
    pub fn fmap<B, G: Fn(A) -> B>(self, g: G) -> (r: Either<E, B>)
        requires
            self matches Either::Right(a) ==> call_requires(g, (a,)),
        ensures
            match self {
                Either::Right(a) => r matches Either::Right(b) && call_ensures(g, (a,), b),
                Either::Left(e) => r == Either::<E, B>::Left(e),
            },
            forall|f: spec_fn(A) -> B| computes(g, f) ==> r == #[trigger] self.spec_map(f),
    {
        EitherInstance::<E>::fmap(g, self)
    }

    /// Applies the `Right` function of `self` to the `Right` value of `x`; the
    /// first `Left` passes through.
    pub fn apply<X, B>(self, x: Either<E, X>) -> (r: Either<E, B>) where A: Fn(X) -> B
        requires
            self matches Either::Right(h) ==> (x matches Either::Right(a) ==> call_requires(h, (a,))),
        ensures
            match (self, x) {
                (Either::Right(h), Either::Right(a)) => r matches Either::Right(b) && call_ensures(h, (a,), b),
                (Either::Left(e), _) => r == Either::<E, B>::Left(e),
                (_, Either::Left(e)) => r == Either::<E, B>::Left(e),
            },
            forall|ev: spec_fn(A, X) -> B|
                (self matches Either::Right(h) ==> interprets(ev, h)) ==> r == #[trigger] either_ap(self, x, ev),
    {
        EitherInstance::<E>::apply(self, x)
    }

    /// Passes the `Right` value to `g`; a `Left` passes through.
    pub fn bind<B, G: Fn(A) -> Either<E, B>>(self, g: G) -> (r: Either<E, B>)
        requires
            self matches Either::Right(a) ==> call_requires(g, (a,)),
        ensures
            match self {
                Either::Right(a) => call_ensures(g, (a,), r),
                Either::Left(e) => r == Either::<E, B>::Left(e),
            },
            forall|f: spec_fn(A) -> Either<E, B>| computes(g, f) ==> r == #[trigger] self.spec_bind(f),
    {
        EitherInstance::<E>::bind(self, g)
    }
}

/// Mathematical model of `apply`, where `ev` interprets the function values.
pub open spec fn either_ap<E, G, A, B>(g: Either<E, G>, x: Either<E, A>, ev: spec_fn(G, A) -> B) -> Either<E, B> {
    match (g, x) {
        (Either::Right(h), Either::Right(a)) => Either::Right(ev(h, a)),
        (Either::Left(e), _) => Either::Left(e),
        (_, Either::Left(e)) => Either::Left(e),
    }
}

impl<E: Default, A> Default for Either<E, A> {
    /// `Left` of the default error.
    fn default() -> (r: Self)
        ensures
            r matches Either::Left(e) && call_ensures(E::default, (), e),
    {
        Either::Left(E::default())
    }
}

/// Marker for the instances of `Either` with errors of type `E`.
#[derive(Debug, Copy, PartialEq, Eq, PartialOrd, Ord, Hash)]
pub struct EitherInstance<E>(PhantomData<E>);

impl<E> Clone for EitherInstance<E> {
    fn clone(&self) -> (r: Self)
        ensures
            r == *self,
    {
        EitherInstance(PhantomData)
    }
}

impl<E> Default for EitherInstance<E> {
    fn default() -> (r: Self)
        ensures
            r == EitherInstance::<E>::marker(),
    {
        Self::new()
    }
}

impl<E> EitherInstance<E> {
    /// The one value of the marker type.
    pub closed spec fn marker() -> Self {
        EitherInstance(PhantomData)
    }

    /// The marker.
    pub fn new() -> (r: Self)
        ensures
            r == EitherInstance::<E>::marker(),
    {
        EitherInstance(PhantomData)
    }

    /// Applies `g` to the `Right` value; a `Left` passes through.
    pub fn fmap<A, B, G: Fn(A) -> B>(g: G, fx: Either<E, A>) -> (r: Either<E, B>)
        requires
            fx matches Either::Right(a) ==> call_requires(g, (a,)),
        ensures
            match fx {
                Either::Right(a) => r matches Either::Right(b) && call_ensures(g, (a,), b),
                Either::Left(e) => r == Either::<E, B>::Left(e),
            },
            forall|f: spec_fn(A) -> B| computes(g, f) ==> r == #[trigger] fx.spec_map(f),
    {
        match fx {
            Either::Right(x) => Either::Right(g(x)),
            Either::Left(e) => Either::Left(e),
        }
    }

    /// Wraps `x` in `Right`.
    pub fn pure<A>(x: A) -> (r: Either<E, A>)
        ensures
            r == Either::<E, A>::Right(x),
    {
        Either::Right(x)
    }

    /// Wraps `x` in `Right` (the monadic return).
    pub fn ret<A>(x: A) -> (r: Either<E, A>)
        ensures
            r == Either::<E, A>::Right(x),
    {
        Either::Right(x)
    }

    /// Applies the `Right` function of `fg` to the `Right` value of `fx`; the
    /// first `Left`, that of `fg` before that of `fx`, passes through.
    pub fn apply<A, B, G: Fn(A) -> B>(fg: Either<E, G>, fx: Either<E, A>) -> (r: Either<E, B>)
        requires
            fg matches Either::Right(h) ==> (fx matches Either::Right(a) ==> call_requires(h, (a,))),
        ensures
            match (fg, fx) {
                (Either::Right(h), Either::Right(a)) => r matches Either::Right(b) && call_ensures(h, (a,), b),
                (Either::Left(e), _) => r == Either::<E, B>::Left(e),
                (_, Either::Left(e)) => r == Either::<E, B>::Left(e),
            },
            forall|ev: spec_fn(G, A) -> B|
                (fg matches Either::Right(h) ==> interprets(ev, h)) ==> r == #[trigger] either_ap(fg, fx, ev),
    {
        match (fg, fx) {
            (Either::Right(g), Either::Right(x)) => Either::Right(g(x)),
            (Either::Left(e), _) => Either::Left(e),
            (_, Either::Left(e)) => Either::Left(e),
        }
    }

    /// Passes the `Right` value to `g`; a `Left` passes through.
    pub fn bind<A, B, G: Fn(A) -> Either<E, B>>(mx: Either<E, A>, g: G) -> (r: Either<E, B>)
        requires
            mx matches Either::Right(a) ==> call_requires(g, (a,)),
        ensures
            match mx {
                Either::Right(a) => call_ensures(g, (a,), r),
                Either::Left(e) => r == Either::<E, B>::Left(e),
            },
            forall|f: spec_fn(A) -> Either<E, B>| computes(g, f) ==> r == #[trigger] mx.spec_bind(f),
    {
        match mx {
            Either::Right(x) => g(x),
            Either::Left(e) => Either::Left(e),
        }
    }

    /// Right fold over the `Right` value that `try_break` may cut short.
    pub fn try_foldr<A, B, F: Fn(A, B) -> B, T: Fn(A) -> ControlFlow<B, A>>(
        accum: F,
        try_break: T,
        init: B,
        container: Either<E, A>,
    ) -> (r: B)
        requires
            container matches Either::Right(a) ==> {
                &&& call_requires(try_break, (a,))
                &&& forall|y: A|
                    call_ensures(try_break, (a,), ControlFlow::<B, A>::Continue(y)) ==> call_requires(
                        accum,
                        (y, init),
                    )
            },
        ensures
            match container {
                Either::Right(a) => exists|c: ControlFlow<B, A>|
                    #![trigger call_ensures(try_break, (a,), c)]
                    call_ensures(try_break, (a,), c) && match c {
                        ControlFlow::Break(b) => r == b,
                        ControlFlow::Continue(y) => call_ensures(accum, (y, init), r),
                    },
                Either::Left(_) => r == init,
            },
            forall|acc: spec_fn(A, B) -> B, brk: spec_fn(A) -> ControlFlow<B, A>|
                computes2(accum, acc) && computes(try_break, brk) ==> r
                    == #[trigger] container.spec_try_foldr(acc, brk, init),
    {
        match container {
            Either::Right(x) => match try_break(x) {
                ControlFlow::Continue(x) => accum(x, init),
                ControlFlow::Break(res) => res,
            },
            Either::Left(_) => init,
        }
    }

    /// Right fold: `accum(a, init)` on `Right(a)`, `init` on `Left`.
    pub fn foldr<A, B, F: Fn(A, B) -> B>(accum: F, init: B, container: Either<E, A>) -> (r: B)
        requires
            container matches Either::Right(a) ==> call_requires(accum, (a, init)),
        ensures
            match container {
                Either::Right(a) => call_ensures(accum, (a, init), r),
                Either::Left(_) => r == init,
            },
            forall|acc: spec_fn(A, B) -> B| computes2(accum, acc) ==> r == #[trigger] container.spec_foldr(acc, init),
    {
        match container {
            Either::Right(x) => accum(x, init),
            Either::Left(_) => init,
        }
    }

    /// Maps the `Right` value into a monoid; the monoid's identity on `Left`.
    pub fn fold_map<A, M: Monoid, G: Fn(A) -> M>(g: G, container: Either<E, A>) -> (r: M)
        requires
            container matches Either::Right(a) ==> call_requires(g, (a,)),
        ensures
            match container {
                Either::Right(a) => exists|m: M| #[trigger] call_ensures(g, (a,), m) && (M::obeys_associate_spec() ==> r == m.spec_associate(M::spec_empty())),
                Either::Left(_) => r == M::spec_empty(),
            },
            forall|f: spec_fn(A) -> M|
                M::obeys_associate_spec() && computes(g, f) ==> r == #[trigger] container.spec_fold_map(f),
    {
        match container {
            Either::Right(x) => {
                let m = g(x);
                m.associate(M::empty())
            },
            Either::Left(_) => M::empty(),
        }
    }

    /// The `Right` value, or the monoid's identity on `Left`.
    pub fn fold<M: Monoid>(container: Either<E, M>) -> (r: M)
        ensures
            M::obeys_associate_spec() ==> r == container.spec_fold_map(|m: M| m),
            container is Left ==> r == M::spec_empty(),
    {
        match container {
            Either::Right(x) => x.associate(M::empty()),
            Either::Left(_) => M::empty(),
        }
    }

    /// Traverses `container` with the effectful `map` in the `Maybe` applicative.
    pub fn traverse_maybe<A, B, G: Fn(A) -> Maybe<B>>(map: G, container: Either<E, A>) -> (r: Maybe<Either<E, B>>)
        requires
            container matches Either::Right(a) ==> call_requires(map, (a,)),
        ensures
            match container {
                Either::Right(a) => exists|mb: Maybe<B>|
                    #[trigger] call_ensures(map, (a,), mb) && r == mb.spec_map(|b: B| Either::<E, B>::Right(b)),
                Either::Left(e) => r == Maybe::Just(Either::<E, B>::Left(e)),
            },
            forall|f: spec_fn(A) -> Maybe<B>| computes(map, f) ==> r == #[trigger] container.spec_traverse_maybe(f),
    {
        match container {
            Either::Right(x) => {
                let mb = map(x);
                match mb {
                    Maybe::Just(b) => Maybe::Just(Either::Right(b)),
                    Maybe::Nothing => Maybe::Nothing,
                }
            },
            Either::Left(e) => Maybe::Just(Either::Left(e)),
        }
    }

    /// Traverses `container` with `map` in the identity applicative.
    pub fn traverse_identity<A, B, G: Fn(A) -> Identity<B>>(map: G, container: Either<E, A>) -> (r: Identity<Either<E, B>>)
        requires
            container matches Either::Right(a) ==> call_requires(map, (a,)),
        ensures
            match container {
                Either::Right(a) => exists|ib: Identity<B>|
                    #[trigger] call_ensures(map, (a,), ib) && r == Identity(Either::<E, B>::Right(ib.0)),
                Either::Left(e) => r == Identity(Either::<E, B>::Left(e)),
            },
            forall|f: spec_fn(A) -> Identity<B>|
                computes(map, f) ==> r == #[trigger] container.spec_traverse_identity(f),
    {
        match container {
            Either::Right(x) => {
                let Identity(b) = map(x);
                Identity(Either::Right(b))
            },
            Either::Left(e) => Identity(Either::Left(e)),
        }
    }

    /// Traverses `container` with the effectful `map` in the `Either`
    /// applicative: the result of `map` on the `Right` value, its `Right`
    /// value wrapped; a `Left` container gives `Right` of itself.
    pub fn traverse_either<A, X, B, G: Fn(A) -> Either<X, B>>(map: G, container: Either<E, A>) -> (r: Either<X, Either<E, B>>)
        requires
            container matches Either::Right(a) ==> call_requires(map, (a,)),
        ensures
            match container {
                Either::Right(a) => exists|eb: Either<X, B>|
                    #[trigger] call_ensures(map, (a,), eb) && r == eb.spec_map(|b: B| Either::<E, B>::Right(b)),
                Either::Left(e) => r == Either::<X, Either<E, B>>::Right(Either::<E, B>::Left(e)),
            },
            forall|f: spec_fn(A) -> Either<X, B>| computes(map, f) ==> r == #[trigger] container.spec_traverse_either(f),
    {
        match container {
            Either::Right(x) => match map(x) {
                Either::Left(err) => Either::Left(err),
                Either::Right(b) => Either::Right(Either::<E, B>::Right(b)),
            },
            Either::Left(e) => Either::Right(Either::<E, B>::Left(e)),
        }
    }

    /// Traverses `container` with the effectful `map` in the `Validation`
    /// applicative: the result of `map` on the `Right` value, its `Success`
    /// value wrapped; a `Left` container gives `Success` of itself.
    pub fn traverse_validation<A, X, B, G: Fn(A) -> Validation<X, B>>(map: G, container: Either<E, A>) -> (r: Validation<
        X,
        Either<E, B>,
    >)
        requires
            container matches Either::Right(a) ==> call_requires(map, (a,)),
        ensures
            match container {
                Either::Right(a) => exists|vb: Validation<X, B>|
                    #[trigger] call_ensures(map, (a,), vb) && r == vb.spec_map(|b: B| Either::<E, B>::Right(b)),
                Either::Left(e) => r == Validation::<X, Either<E, B>>::Success(Either::<E, B>::Left(e)),
            },
            forall|f: spec_fn(A) -> Validation<X, B>|
                computes(map, f) ==> r == #[trigger] container.spec_traverse_validation(f),
    {
        match container {
            Either::Right(x) => match map(x) {
                Validation::Success(b) => Validation::Success(Either::<E, B>::Right(b)),
                Validation::Failure(err) => Validation::Failure(err),
            },
            Either::Left(e) => Validation::Success(Either::<E, B>::Left(e)),
        }
    }

    /// Traverses `container` with the effectful `map` in the `List`
    /// applicative: the values of the list that `map` gives on the `Right`
    /// value, each wrapped, in order (taken out of their cells as
    /// `List::decompose` does); a `Left` container gives the list of itself
    /// alone.
    pub fn traverse_list<A, B: Clone, G: Fn(A) -> List<B>>(map: G, container: Either<E, A>) -> (r: List<Either<E, B>>)
        requires
            container matches Either::Right(a) ==> call_requires(map, (a,)),
        ensures
            match container {
                Either::Right(a) => exists|lb: List<B>, bs: Seq<B>|
                    #![trigger call_ensures(map, (a,), lb), clones_seq(lb@, bs)]
                    call_ensures(map, (a,), lb) && clones_seq(lb@, bs) && r@ == bs.map_values(|b: B| Either::<E, B>::Right(b)),
                Either::Left(e) => r@ == seq![Either::<E, B>::Left(e)],
            },
            forall|f: spec_fn(A) -> List<B>|
                clone_preserves::<B>() && computes(map, f) ==> r@ == #[trigger] container.spec_traverse_list(f),
    {
        match container {
            Either::Right(x) => {
                let ghost xg = x;
                let lb = map(x);
                let ghost lbg = lb;
                let wrap = |b: B| -> (c: Either<E, B>)
                    ensures
                        c == Either::<E, B>::Right(b),
                    { Either::<E, B>::Right(b) };
                let r = ListInstance::fmap(wrap, lb);
                proof {
                    let bs = choose|args: Seq<B>|
                        #[trigger] clones_seq(lbg@, args) && forall|i: int|
                            0 <= i < lbg@.len() ==> call_ensures(wrap, (args[i],), #[trigger] r@[i]);
                    assert forall|i: int| 0 <= i < bs.len() implies #[trigger] r@[i] == bs.map_values(
                        |b: B| Either::<E, B>::Right(b),
                    )[i] by {
                        assert(call_ensures(wrap, (bs[i],), r@[i]));
                    }
                    assert(r@ =~= bs.map_values(|b: B| Either::<E, B>::Right(b)));
                    assert(call_ensures(map, (xg,), lbg) && clones_seq(lbg@, bs));
                    if clone_preserves::<B>() {
                        lemma_clones_seq_eq(lbg@, bs);
                    }
                }
                r
            },
            Either::Left(e) => {
                let r = List::singleton(Either::<E, B>::Left(e));
                r
            },
        }
    }
}

impl<E, A> Semigroup for Either<E, A> {
    open spec fn obeys_associate_spec() -> bool {
        true
    }

    /// The first `Right`, else the second value.
    open spec fn spec_associate(self, other: Self) -> Self {
        match self {
            Either::Right(_) => self,
            Either::Left(_) => other,
        }
    }

    proof fn lemma_associative(a: Self, b: Self, c: Self) {
    }

    fn associate(self, other: Self) -> (r: Self) {
        match self {
            Either::Right(_) => self,
            Either::Left(_) => other,
        }
    }
}

impl<E, A> From<Result<A, E>> for Either<E, A> {
    /// `Ok` to `Right`, `Err` to `Left`.
    fn from(value: Result<A, E>) -> (r: Self) {
        match value {
            Ok(ok) => Either::Right(ok),
            Err(err) => Either::Left(err),
        }
    }
}

impl<E, A> vstd::std_specs::convert::FromSpecImpl<Result<A, E>> for Either<E, A> {
    open spec fn obeys_from_spec() -> bool {
        true
    }

    open spec fn from_spec(v: Result<A, E>) -> Self {
        Either::spec_from_result(v)
    }
}

impl<E, A> From<Either<E, A>> for Result<A, E> {
    /// `Right` to `Ok`, `Left` to `Err`.
    fn from(value: Either<E, A>) -> (r: Self) {
        value.result()
    }
}

impl<E, A> vstd::std_specs::convert::FromSpecImpl<Either<E, A>> for Result<A, E> {
    open spec fn obeys_from_spec() -> bool {
        true
    }

    open spec fn from_spec(v: Either<E, A>) -> Self {
        v.spec_result()
    }
}

} // verus!
