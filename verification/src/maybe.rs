//! The optional value `Maybe` and its instances.
use std::ops::ControlFlow;

use vstd::prelude::*;

use crate::algebra::{Monoid, Semigroup};
use crate::function::{clone_preserves, clones_seq, computes, computes2, interprets, lemma_clones_seq_eq};
use crate::list::{List, ListInstance};
use crate::either::Either;
use crate::identity::Identity;
use crate::validation::Validation;

verus! {

/// An optional value: `Just(x)` or `Nothing`.
#[derive(Debug, Copy, PartialEq, Eq, PartialOrd, Ord, Hash, Default)]
pub enum Maybe<T> {
    Just(T),
    #[default]
    Nothing,
}

impl<T: Clone> Clone for Maybe<T> {
    /// The same variant, holding a clone of the value.
    fn clone(&self) -> (r: Self)
        ensures
            match (*self, r) {
                (Maybe::Just(a), Maybe::Just(b)) => cloned(a, b),
                (Maybe::Nothing, Maybe::Nothing) => true,
                _ => false,
            },
    {
        match self {
            Maybe::Just(x) => Maybe::Just(x.clone()),
            Maybe::Nothing => Maybe::Nothing,
        }
    }
}

impl<T: Clone> Maybe<T> {
    /// Where cloning `T` gives back equal values, so does cloning a
    /// `Maybe`.
    pub proof fn lemma_clone_preserves()
        requires
            clone_preserves::<T>(),
        ensures
            clone_preserves::<Maybe<T>>(),
    {
        assert forall|a: Maybe<T>, b: Maybe<T>| #[trigger] cloned(a, b) implies a == b by {
            if vstd::pervasive::strictly_cloned(a, b) {
                assert(call_ensures(<Maybe<T> as Clone>::clone, (&a,), b));
            }
        }
    }
}

impl<T> Maybe<T> {
    /// Mathematical model of `fmap`.
    pub open spec fn spec_map<B>(self, f: spec_fn(T) -> B) -> Maybe<B> {
        match self {
            Maybe::Just(a) => Maybe::Just(f(a)),
            Maybe::Nothing => Maybe::Nothing,
        }
    }

    /// Mathematical model of `bind`.
    pub open spec fn spec_bind<B>(self, f: spec_fn(T) -> Maybe<B>) -> Maybe<B> {
        match self {
            Maybe::Just(a) => f(a),
            Maybe::Nothing => Maybe::Nothing,
        }
    }

    /// Mathematical model of `alt`: the first `Just`, if any.
    pub open spec fn spec_alt(self, other: Maybe<T>) -> Maybe<T> {
        match self {
            Maybe::Just(_) => self,
            Maybe::Nothing => other,
        }
    }

    /// Mathematical model of `try_foldr`.
    pub open spec fn spec_try_foldr<B>(
        self,
        acc: spec_fn(T, B) -> B,
        brk: spec_fn(T) -> ControlFlow<B, T>,
        init: B,
    ) -> B {
        match self {
            Maybe::Just(a) => match brk(a) {
                ControlFlow::Break(b) => b,
                ControlFlow::Continue(a2) => acc(a2, init),
            },
            Maybe::Nothing => init,
        }
    }

    /// Mathematical model of `foldr`.
    pub open spec fn spec_foldr<B>(self, acc: spec_fn(T, B) -> B, init: B) -> B {
        match self {
            Maybe::Just(a) => acc(a, init),
            Maybe::Nothing => init,
        }
    }

    /// Mathematical model of `fold_map`.
    pub open spec fn spec_fold_map<M: Monoid>(self, f: spec_fn(T) -> M) -> M {
        self.spec_foldr(|a: T, m: M| f(a).spec_associate(m), M::spec_empty())
    }

    /// Mathematical model of `traverse` into `Maybe`.
    pub open spec fn spec_traverse_maybe<B>(self, f: spec_fn(T) -> Maybe<B>) -> Maybe<Maybe<B>> {
        match self {
            Maybe::Just(a) => f(a).spec_map(|b: B| Maybe::Just(b)),
            Maybe::Nothing => Maybe::Just(Maybe::Nothing),
        }
    }

    /// Mathematical model of `traverse` into `Identity`.
    pub open spec fn spec_traverse_identity<B>(self, f: spec_fn(T) -> Identity<B>) -> Identity<Maybe<B>> {
        Identity(self.spec_map(|a: T| f(a).0))
    }

    /// Mathematical model of `traverse` into `Either`.
    pub open spec fn spec_traverse_either<X, B>(self, f: spec_fn(T) -> Either<X, B>) -> Either<X, Maybe<B>> {
        match self {
            Maybe::Just(a) => f(a).spec_map(|b: B| Maybe::<B>::Just(b)),
            Maybe::Nothing => Either::Right(Maybe::<B>::Nothing),
        }
    }

    /// Mathematical model of `traverse` into `Validation`.
    pub open spec fn spec_traverse_validation<X, B>(self, f: spec_fn(T) -> Validation<X, B>) -> Validation<
        X,
        Maybe<B>,
    > {
        match self {
            Maybe::Just(a) => f(a).spec_map(|b: B| Maybe::<B>::Just(b)),
            Maybe::Nothing => Validation::Success(Maybe::<B>::Nothing),
        }
    }

    /// Mathematical model of `traverse` into `List`, over the elements of the
    /// resulting list.
    pub open spec fn spec_traverse_list<B>(self, f: spec_fn(T) -> List<B>) -> Seq<Maybe<B>> {
        match self {
            Maybe::Just(a) => f(a)@.map_values(|b: B| Maybe::<B>::Just(b)),
            Maybe::Nothing => seq![Maybe::<B>::Nothing],
        }
    }

    /// The elements of the value seen as a list: one or none.
    pub open spec fn spec_to_seq(self) -> Seq<T> {
        match self {
            Maybe::Just(a) => seq![a],
            Maybe::Nothing => Seq::empty(),
        }
    }

    /// The conversion from `Option`.
    pub open spec fn spec_from_option(o: Option<T>) -> Maybe<T> {
        match o {
            Some(x) => Maybe::Just(x),
            None => Maybe::Nothing,
        }
    }

    /// The conversion to `Option`.
    pub open spec fn spec_option(self) -> Option<T> {
        match self {
            Maybe::Just(x) => Some(x),
            Maybe::Nothing => None,
        }
    }

    /// Converts from the corresponding `Option`: `Some` to `Just`, `None` to
    /// `Nothing`.
    pub fn from_option(o: Option<T>) -> (r: Maybe<T>)
        ensures
            r == Maybe::spec_from_option(o),
    {
        match o {
            Some(x) => Maybe::Just(x),
            None => Maybe::Nothing,
        }
    }

    /// Converts to the corresponding `Option`.
    pub fn option(self) -> (r: Option<T>)
        ensures
            r == self.spec_option(),
    {
        match self {
            Self::Just(x) => Some(x),
            Self::Nothing => None,
        }
    }

    /// Applies `g` to the value inside, if any.
    pub fn fmap<B, G: Fn(T) -> B>(self, g: G) -> (r: Maybe<B>)
        requires
            self matches Maybe::Just(a) ==> call_requires(g, (a,)),
        ensures
            match self {
                Maybe::Just(a) => r matches Maybe::Just(b) && call_ensures(g, (a,), b),
                Maybe::Nothing => r == Maybe::<B>::Nothing,
            },
            forall|f: spec_fn(T) -> B| computes(g, f) ==> r == #[trigger] self.spec_map(f),
    {
        MaybeInstance::fmap(g, self)
    }

    /// Applies the function inside `self` to the value inside `x`, when both are present.
    pub fn apply<A, B>(self, x: Maybe<A>) -> (r: Maybe<B>) where T: Fn(A) -> B
        requires
            self matches Maybe::Just(h) ==> (x matches Maybe::Just(a) ==> call_requires(h, (a,))),
        ensures
            match (self, x) {
                (Maybe::Just(h), Maybe::Just(a)) => r matches Maybe::Just(b) && call_ensures(h, (a,), b),
                _ => r == Maybe::<B>::Nothing,
            },
            forall|ev: spec_fn(T, A) -> B|
                (self matches Maybe::Just(h) ==> interprets(ev, h)) ==> r == #[trigger] maybe_ap(self, x, ev),
    {
        MaybeInstance::apply(self, x)
    }

    /// Passes the value inside, if any, to `g`.
    pub fn bind<B, G: Fn(T) -> Maybe<B>>(self, g: G) -> (r: Maybe<B>)
        requires
            self matches Maybe::Just(a) ==> call_requires(g, (a,)),
        ensures
            match self {
                Maybe::Just(a) => call_ensures(g, (a,), r),
                Maybe::Nothing => r == Maybe::<B>::Nothing,
            },
            forall|f: spec_fn(T) -> Maybe<B>| computes(g, f) ==> r == #[trigger] self.spec_bind(f),
    {
        MaybeInstance::bind(self, g)
    }

    /// `self` if it is `Just`, else `another`.
    pub fn alt(self, another: Maybe<T>) -> (r: Maybe<T>)
        ensures
            r == self.spec_alt(another),
    {
        MaybeInstance::alt(self, another)
    }
}

/// Mathematical model of `apply`, where `ev` interprets the function values.
pub open spec fn maybe_ap<G, A, B>(g: Maybe<G>, x: Maybe<A>, ev: spec_fn(G, A) -> B) -> Maybe<B> {
    match (g, x) {
        (Maybe::Just(h), Maybe::Just(a)) => Maybe::Just(ev(h, a)),
        _ => Maybe::Nothing,
    }
}

/// Marker for the instances of `Maybe`.
#[derive(Debug, Clone, Copy, PartialEq, Eq, PartialOrd, Ord, Hash, Default)]
pub struct MaybeInstance;

impl MaybeInstance {
    /// Applies `g` to the value inside `x`, if any.
    pub fn fmap<A, B, G: Fn(A) -> B>(g: G, x: Maybe<A>) -> (r: Maybe<B>)
        requires
            x matches Maybe::Just(a) ==> call_requires(g, (a,)),
        ensures
            match x {
                Maybe::Just(a) => r matches Maybe::Just(b) && call_ensures(g, (a,), b),
                Maybe::Nothing => r == Maybe::<B>::Nothing,
            },
            forall|f: spec_fn(A) -> B| computes(g, f) ==> r == #[trigger] x.spec_map(f),
    {
        match x {
            Maybe::Just(a) => Maybe::Just(g(a)),
            Maybe::Nothing => Maybe::Nothing,
        }
    }

    /// Wraps `x` in `Just`.
    pub fn pure<A>(x: A) -> (r: Maybe<A>)
        ensures
            r == Maybe::Just(x),
    {
        Maybe::Just(x)
    }

    /// Wraps `x` in `Just` (the monadic return).
    pub fn ret<A>(x: A) -> (r: Maybe<A>)
        ensures
            r == Maybe::Just(x),
    {
        Self::pure(x)
    }

    /// Applies the function inside `g` to the value inside `x`, when both are present.
    pub fn apply<A, B, G: Fn(A) -> B>(g: Maybe<G>, x: Maybe<A>) -> (r: Maybe<B>)
        requires
            g matches Maybe::Just(h) ==> (x matches Maybe::Just(a) ==> call_requires(h, (a,))),
        ensures
            match (g, x) {
                (Maybe::Just(h), Maybe::Just(a)) => r matches Maybe::Just(b) && call_ensures(h, (a,), b),
                _ => r == Maybe::<B>::Nothing,
            },
            forall|ev: spec_fn(G, A) -> B|
                (g matches Maybe::Just(h) ==> interprets(ev, h)) ==> r == #[trigger] maybe_ap(g, x, ev),
    {
        match (g, x) {
            (Maybe::Just(g), Maybe::Just(x)) => Maybe::Just(g(x)),
            _ => Maybe::Nothing,
        }
    }

    /// Passes the value inside `x`, if any, to `g`.
    pub fn bind<A, B, G: Fn(A) -> Maybe<B>>(x: Maybe<A>, g: G) -> (r: Maybe<B>)
        requires
            x matches Maybe::Just(a) ==> call_requires(g, (a,)),
        ensures
            match x {
                Maybe::Just(a) => call_ensures(g, (a,), r),
                Maybe::Nothing => r == Maybe::<B>::Nothing,
            },
            forall|f: spec_fn(A) -> Maybe<B>| computes(g, f) ==> r == #[trigger] x.spec_bind(f),
    {
        match x {
            Maybe::Just(x) => g(x),
            Maybe::Nothing => Maybe::Nothing,
        }
    }

    /// The neutral element of `alt`.
    pub fn fallback<A>() -> (r: Maybe<A>)
        ensures
            r == Maybe::<A>::Nothing,
    {
        Maybe::Nothing
    }

    /// `one` if it is `Just`, else `another`.
    pub fn alt<A>(one: Maybe<A>, another: Maybe<A>) -> (r: Maybe<A>)
        ensures
            r == one.spec_alt(another),
    {
        match one {
            Maybe::Just(_) => one,
            _ => another,
        }
    }

    /// Right fold that `try_break` may cut short: on `Just(x)`, a `Break(b)` from
    /// `try_break(x)` gives `b`, a `Continue(y)` gives `accum(y, init)`.
    pub fn try_foldr<A, B, F: Fn(A, B) -> B, T: Fn(A) -> ControlFlow<B, A>>(
        accum: F,
        try_break: T,
        init: B,
        container: Maybe<A>,
    ) -> (r: B)
        requires
            container matches Maybe::Just(a) ==> {
                &&& call_requires(try_break, (a,))
                &&& forall|y: A|
                    call_ensures(try_break, (a,), ControlFlow::<B, A>::Continue(y)) ==> call_requires(
                        accum,
                        (y, init),
                    )
            },
        ensures
            match container {
                Maybe::Just(a) => exists|c: ControlFlow<B, A>|
                    #![trigger call_ensures(try_break, (a,), c)]
                    call_ensures(try_break, (a,), c) && match c {
                        ControlFlow::Break(b) => r == b,
                        ControlFlow::Continue(y) => call_ensures(accum, (y, init), r),
                    },
                Maybe::Nothing => r == init,
            },
            forall|acc: spec_fn(A, B) -> B, brk: spec_fn(A) -> ControlFlow<B, A>|
                computes2(accum, acc) && computes(try_break, brk) ==> r
                    == #[trigger] container.spec_try_foldr(acc, brk, init),
    {
        match container {
            Maybe::Just(x) => match try_break(x) {
                ControlFlow::Break(res) => res,
                ControlFlow::Continue(x) => accum(x, init),
            },
            Maybe::Nothing => init,
        }
    }

    /// Right fold: `accum(x, init)` on `Just(x)`, `init` on `Nothing`.
    pub fn foldr<A, B, F: Fn(A, B) -> B>(accum: F, init: B, container: Maybe<A>) -> (r: B)
        requires
            container matches Maybe::Just(a) ==> call_requires(accum, (a, init)),
        ensures
            match container {
                Maybe::Just(a) => call_ensures(accum, (a, init), r),
                Maybe::Nothing => r == init,
            },
            forall|acc: spec_fn(A, B) -> B| computes2(accum, acc) ==> r == #[trigger] container.spec_foldr(acc, init),
    {
        match container {
            Maybe::Just(x) => accum(x, init),
            Maybe::Nothing => init,
        }
    }

    /// Maps the value, if any, into a monoid; the monoid's identity on `Nothing`.
    pub fn fold_map<A, M: Monoid, G: Fn(A) -> M>(g: G, container: Maybe<A>) -> (r: M)
        requires
            container matches Maybe::Just(a) ==> call_requires(g, (a,)),
        ensures
            match container {
                Maybe::Just(a) => exists|m: M| #[trigger] call_ensures(g, (a,), m) && (M::obeys_associate_spec() ==> r == m.spec_associate(M::spec_empty())),
                Maybe::Nothing => r == M::spec_empty(),
            },
            forall|f: spec_fn(A) -> M|
                M::obeys_associate_spec() && computes(g, f) ==> r == #[trigger] container.spec_fold_map(f),
    {
        match container {
            Maybe::Just(x) => {
                let m = g(x);
                m.associate(M::empty())
            },
            Maybe::Nothing => M::empty(),
        }
    }

    /// The value inside, or the monoid's identity on `Nothing`.
    pub fn fold<M: Monoid>(container: Maybe<M>) -> (r: M)
        ensures
            M::obeys_associate_spec() ==> r == container.spec_fold_map(|m: M| m),
            container is Nothing ==> r == M::spec_empty(),
    {
        match container {
            Maybe::Just(x) => x.associate(M::empty()),
            Maybe::Nothing => M::empty(),
        }
    }

    /// Traverses `container` with the effectful `map` in the `Maybe` applicative.
    pub fn traverse_maybe<A, B, G: Fn(A) -> Maybe<B>>(map: G, container: Maybe<A>) -> (r: Maybe<Maybe<B>>)
        requires
            container matches Maybe::Just(a) ==> call_requires(map, (a,)),
        ensures
            match container {
                Maybe::Just(a) => exists|mb: Maybe<B>|
                    #[trigger] call_ensures(map, (a,), mb) && r == mb.spec_map(|b: B| Maybe::Just(b)),
                Maybe::Nothing => r == Maybe::Just(Maybe::<B>::Nothing),
            },
            forall|f: spec_fn(A) -> Maybe<B>| computes(map, f) ==> r == #[trigger] container.spec_traverse_maybe(f),
    {
        match container {
            Maybe::Just(x) => {
                let mb = map(x);
                MaybeInstance::fmap(|b: B| -> (r: Maybe<B>) ensures r == Maybe::Just(b) { Maybe::Just(b) }, mb)
            },
            Maybe::Nothing => Maybe::Just(Maybe::Nothing),
        }
    }

    /// Traverses `container` with `map` in the identity applicative.
    pub fn traverse_identity<A, B, G: Fn(A) -> Identity<B>>(map: G, container: Maybe<A>) -> (r: Identity<Maybe<B>>)
        requires
            container matches Maybe::Just(a) ==> call_requires(map, (a,)),
        ensures
            match container {
                Maybe::Just(a) => exists|ib: Identity<B>|
                    #[trigger] call_ensures(map, (a,), ib) && r == Identity(Maybe::Just(ib.0)),
                Maybe::Nothing => r == Identity(Maybe::<B>::Nothing),
            },
            forall|f: spec_fn(A) -> Identity<B>|
                computes(map, f) ==> r == #[trigger] container.spec_traverse_identity(f),
    {
        match container {
            Maybe::Just(x) => {
                let Identity(b) = map(x);
                Identity(Maybe::Just(b))
            },
            Maybe::Nothing => Identity(Maybe::Nothing),
        }
    }

    /// Traverses `container` with the effectful `map` in the `Either`
    /// applicative: the result of `map` on the `Just` value, its `Right`
    /// value wrapped; a `Nothing` container gives `Right` of itself.
    pub fn traverse_either<A, X, B, G: Fn(A) -> Either<X, B>>(map: G, container: Maybe<A>) -> (r: Either<X, Maybe<B>>)
        requires
            container matches Maybe::Just(a) ==> call_requires(map, (a,)),
        ensures
            match container {
                Maybe::Just(a) => exists|eb: Either<X, B>|
                    #[trigger] call_ensures(map, (a,), eb) && r == eb.spec_map(|b: B| Maybe::<B>::Just(b)),
                Maybe::Nothing => r == Either::<X, Maybe<B>>::Right(Maybe::<B>::Nothing),
            },
            forall|f: spec_fn(A) -> Either<X, B>| computes(map, f) ==> r == #[trigger] container.spec_traverse_either(f),
    {
        match container {
            Maybe::Just(x) => match map(x) {
                Either::Left(err) => Either::Left(err),
                Either::Right(b) => Either::Right(Maybe::<B>::Just(b)),
            },
            Maybe::Nothing => Either::Right(Maybe::<B>::Nothing),
        }
    }

    /// Traverses `container` with the effectful `map` in the `Validation`
    /// applicative: the result of `map` on the `Just` value, its `Success`
    /// value wrapped; a `Nothing` container gives `Success` of itself.
    pub fn traverse_validation<A, X, B, G: Fn(A) -> Validation<X, B>>(map: G, container: Maybe<A>) -> (r: Validation<
        X,
        Maybe<B>,
    >)
        requires
            container matches Maybe::Just(a) ==> call_requires(map, (a,)),
        ensures
            match container {
                Maybe::Just(a) => exists|vb: Validation<X, B>|
                    #[trigger] call_ensures(map, (a,), vb) && r == vb.spec_map(|b: B| Maybe::<B>::Just(b)),
                Maybe::Nothing => r == Validation::<X, Maybe<B>>::Success(Maybe::<B>::Nothing),
            },
            forall|f: spec_fn(A) -> Validation<X, B>|
                computes(map, f) ==> r == #[trigger] container.spec_traverse_validation(f),
    {
        match container {
            Maybe::Just(x) => match map(x) {
                Validation::Success(b) => Validation::Success(Maybe::<B>::Just(b)),
                Validation::Failure(err) => Validation::Failure(err),
            },
            Maybe::Nothing => Validation::Success(Maybe::<B>::Nothing),
        }
    }

    /// Traverses `container` with the effectful `map` in the `List`
    /// applicative: the values of the list that `map` gives on the `Just`
    /// value, each wrapped, in order (taken out of their cells as
    /// `List::decompose` does); a `Nothing` container gives the list of itself
    /// alone.
    pub fn traverse_list<A, B: Clone, G: Fn(A) -> List<B>>(map: G, container: Maybe<A>) -> (r: List<Maybe<B>>)
        requires
            container matches Maybe::Just(a) ==> call_requires(map, (a,)),
        ensures
            match container {
                Maybe::Just(a) => exists|lb: List<B>, bs: Seq<B>|
                    #![trigger call_ensures(map, (a,), lb), clones_seq(lb@, bs)]
                    call_ensures(map, (a,), lb) && clones_seq(lb@, bs) && r@ == bs.map_values(|b: B| Maybe::<B>::Just(b)),
                Maybe::Nothing => r@ == seq![Maybe::<B>::Nothing],
            },
            forall|f: spec_fn(A) -> List<B>|
                clone_preserves::<B>() && computes(map, f) ==> r@ == #[trigger] container.spec_traverse_list(f),
    {
        match container {
            Maybe::Just(x) => {
                let ghost xg = x;
                let lb = map(x);
                let ghost lbg = lb;
                let wrap = |b: B| -> (c: Maybe<B>)
                    ensures
                        c == Maybe::<B>::Just(b),
                    { Maybe::<B>::Just(b) };
                let r = ListInstance::fmap(wrap, lb);
                proof {
                    let bs = choose|args: Seq<B>|
                        #[trigger] clones_seq(lbg@, args) && forall|i: int|
                            0 <= i < lbg@.len() ==> call_ensures(wrap, (args[i],), #[trigger] r@[i]);
                    assert forall|i: int| 0 <= i < bs.len() implies #[trigger] r@[i] == bs.map_values(
                        |b: B| Maybe::<B>::Just(b),
                    )[i] by {
                        assert(call_ensures(wrap, (bs[i],), r@[i]));
                    }
                    assert(r@ =~= bs.map_values(|b: B| Maybe::<B>::Just(b)));
                    assert(call_ensures(map, (xg,), lbg) && clones_seq(lbg@, bs));
                    if clone_preserves::<B>() {
                        lemma_clones_seq_eq(lbg@, bs);
                    }
                }
                r
            },
            Maybe::Nothing => {
                let r = List::singleton(Maybe::<B>::Nothing);
                r
            },
        }
    }
}

impl<T: Semigroup> Semigroup for Maybe<T> {
    open spec fn obeys_associate_spec() -> bool {
        T::obeys_associate_spec()
    }

    open spec fn spec_associate(self, other: Self) -> Self {
        match (self, other) {
            (Maybe::Nothing, y) => y,
            (x, Maybe::Nothing) => x,
            (Maybe::Just(x), Maybe::Just(y)) => Maybe::Just(x.spec_associate(y)),
        }
    }

    proof fn lemma_associative(a: Self, b: Self, c: Self) {
        if let (Maybe::Just(x), Maybe::Just(y), Maybe::Just(z)) = (a, b, c) {
            T::lemma_associative(x, y, z);
        }
    }

    fn associate(self, other: Self) -> (r: Self)
        ensures
            match (self, other) {
                (Maybe::Nothing, y) => r == y,
                (x, Maybe::Nothing) => r == x,
                (Maybe::Just(x), Maybe::Just(y)) => r matches Maybe::Just(z) && (T::obeys_associate_spec()
                    ==> z == x.spec_associate(y)),
            },
    {
        match (self, other) {
            (Maybe::Nothing, y) => y,
            (x, Maybe::Nothing) => x,
            (Maybe::Just(x), Maybe::Just(y)) => Maybe::Just(x.associate(y)),
        }
    }
}

impl<T: Monoid> Monoid for Maybe<T> {
    open spec fn spec_empty() -> Self {
        Maybe::Nothing
    }

    proof fn lemma_identity(a: Self) {
    }

    fn empty() -> (r: Self) {
        Maybe::Nothing
    }
}

impl<T, U: Into<T>> From<Option<U>> for Maybe<T> {
    /// `Some(u)` to `Just` of `u` converted, `None` to `Nothing`.
    fn from(value: Option<U>) -> (r: Self) {
        match value {
            Some(x) => Maybe::Just(x.into()),
            None => Maybe::Nothing,
        }
    }
}

impl<T, U: Into<T>> vstd::std_specs::convert::FromSpecImpl<Option<U>> for Maybe<T> {
    /// Exact where the conversion of `U` into `T` is.
    open spec fn obeys_from_spec() -> bool {
        <U as vstd::std_specs::convert::IntoSpec<T>>::obeys_into_spec()
    }

    open spec fn from_spec(v: Option<U>) -> Self {
        match v {
            Some(x) => Maybe::Just(<U as vstd::std_specs::convert::IntoSpec<T>>::into_spec(x)),
            None => Maybe::Nothing,
        }
    }
}

impl<T> From<Maybe<T>> for Option<T> {
    /// `Just` to `Some`, `Nothing` to `None`.
    fn from(value: Maybe<T>) -> (r: Self) {
        value.option()
    }
}

impl<T> vstd::std_specs::convert::FromSpecImpl<Maybe<T>> for Option<T> {
    open spec fn obeys_from_spec() -> bool {
        true
    }

    open spec fn from_spec(v: Maybe<T>) -> Self {
        v.spec_option()
    }
}

} // verus!
