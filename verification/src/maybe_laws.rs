//! The laws of the `Maybe` instances, over the models that the operations'
//! contracts use.
use vstd::prelude::*;

use crate::algebra::Monoid;
use crate::function::{app, compose};
use crate::identity::Identity;
use crate::maybe::{maybe_ap, Maybe};
use crate::maybe_util::seq_head;

verus! {

/// Functor identity: mapping the identity function changes nothing.
pub proof fn law_maybe_functor_identity<A>(x: Maybe<A>)
    ensures
        x.spec_map(|a: A| a) == x,
{
}

/// Functor composition: mapping `g ∘ f` is mapping `f`, then `g`.
pub proof fn law_maybe_functor_composition<A, B, C>(x: Maybe<A>, f: spec_fn(A) -> B, g: spec_fn(B) -> C)
    ensures
        x.spec_map(|a: A| g(f(a))) == x.spec_map(f).spec_map(g),
{
}

/// Applicative identity: applying the pure identity function changes nothing.
pub proof fn law_maybe_applicative_identity<A>(x: Maybe<A>)
    ensures
        maybe_ap(Maybe::Just(|a: A| a), x, app()) == x,
{
}

/// Applicative homomorphism: a pure function applied to a pure value is the
/// pure result.
pub proof fn law_maybe_applicative_homomorphism<A, B>(f: spec_fn(A) -> B, x: A)
    ensures
        maybe_ap(Maybe::Just(f), Maybe::Just(x), app()) == Maybe::Just(f(x)),
{
}

/// Applicative interchange.
pub proof fn law_maybe_applicative_interchange<A, B>(u: Maybe<spec_fn(A) -> B>, y: A)
    ensures
        maybe_ap(u, Maybe::Just(y), app()) == maybe_ap(Maybe::Just(|g: spec_fn(A) -> B| g(y)), u, app()),
{
}

/// Applicative composition: `pure (∘) <*> u <*> v <*> w == u <*> (v <*> w)`.
pub proof fn law_maybe_applicative_composition<A, B, C>(
    u: Maybe<spec_fn(B) -> C>,
    v: Maybe<spec_fn(A) -> B>,
    w: Maybe<A>,
)
    ensures
        maybe_ap(maybe_ap(maybe_ap(Maybe::Just(compose::<A, B, C>()), u, app()), v, app()), w, app())
            == maybe_ap(u, maybe_ap(v, w, app()), app()),
{
}

/// Monad left identity.
pub proof fn law_maybe_monad_left_identity<A, B>(a: A, f: spec_fn(A) -> Maybe<B>)
    ensures
        Maybe::Just(a).spec_bind(f) == f(a),
{
}

/// Monad right identity.
pub proof fn law_maybe_monad_right_identity<A>(m: Maybe<A>)
    ensures
        m.spec_bind(|a: A| Maybe::Just(a)) == m,
{
}

/// Monad associativity.
pub proof fn law_maybe_monad_associativity<A, B, C>(
    m: Maybe<A>,
    f: spec_fn(A) -> Maybe<B>,
    g: spec_fn(B) -> Maybe<C>,
)
    ensures
        m.spec_bind(f).spec_bind(g) == m.spec_bind(|a: A| f(a).spec_bind(g)),
{
}

/// Alternative identity: `Nothing` is neutral on both sides of `alt`.
pub proof fn law_maybe_alternative_identity<A>(x: Maybe<A>)
    ensures
        Maybe::<A>::Nothing.spec_alt(x) == x,
        x.spec_alt(Maybe::<A>::Nothing) == x,
{
}

/// Alternative associativity.
pub proof fn law_maybe_alternative_associativity<A>(a: Maybe<A>, b: Maybe<A>, c: Maybe<A>)
    ensures
        a.spec_alt(b).spec_alt(c) == a.spec_alt(b.spec_alt(c)),
{
}

/// Alternative left distributivity: mapping over a choice maps the options.
pub proof fn law_maybe_alternative_left_distributivity<A, B>(a: Maybe<A>, b: Maybe<A>, f: spec_fn(A) -> B)
    ensures
        a.spec_alt(b).spec_map(f) == a.spec_map(f).spec_alt(b.spec_map(f)),
{
}

/// Alternative right distributivity: applying a choice of functions is the
/// choice of the applications.
pub proof fn law_maybe_alternative_right_distributivity<G, A, B>(
    f: Maybe<G>,
    g: Maybe<G>,
    x: Maybe<A>,
    ev: spec_fn(G, A) -> B,
)
    ensures
        maybe_ap(f.spec_alt(g), x, ev) == maybe_ap(f, x, ev).spec_alt(maybe_ap(g, x, ev)),
{
}

/// Alternative annihilation: applying `Nothing`, or applying to `Nothing`,
/// gives `Nothing`.
pub proof fn law_maybe_alternative_annihilation<G, A, B>(f: Maybe<G>, x: Maybe<A>, ev: spec_fn(G, A) -> B)
    ensures
        maybe_ap(Maybe::<G>::Nothing, x, ev) == Maybe::<B>::Nothing,
        maybe_ap(f, Maybe::<A>::Nothing, ev) == Maybe::<B>::Nothing,
{
}

/// Folding with `cons` from the empty list gives the list of the value.
pub proof fn law_maybe_foldr_to_list<A>(x: Maybe<A>)
    ensures
        x.spec_foldr(|a: A, l: Seq<A>| seq![a] + l, Seq::<A>::empty()) == x.spec_to_seq(),
{
    if let Maybe::Just(a) = x {
        assert(seq![a] + Seq::<A>::empty() =~= seq![a]);
    }
}

/// `fold_map` fusion.
pub proof fn law_maybe_fold_map_fusion<A, B, M: Monoid>(x: Maybe<A>, f: spec_fn(B) -> M, g: spec_fn(A) -> B)
    ensures
        x.spec_fold_map(|a: A| f(g(a))) == x.spec_map(g).spec_fold_map(f),
{
}

/// `fold_map` of a `Just` is the mapped value itself.
pub proof fn law_maybe_fold_map_just<A, M: Monoid>(a: A, f: spec_fn(A) -> M)
    ensures
        Maybe::Just(a).spec_fold_map(f) == f(a),
{
    M::lemma_identity(f(a));
}

/// Traversable identity.
pub proof fn law_maybe_traverse_identity<A>(x: Maybe<A>)
    ensures
        x.spec_traverse_identity(|a: A| Identity(a)) == Identity(x),
{
}

/// Traversable naturality for pure effects: traversing with `Just ∘ f` succeeds
/// with the mapped value.
pub proof fn law_maybe_traverse_pure<A, B>(x: Maybe<A>, f: spec_fn(A) -> B)
    ensures
        x.spec_traverse_maybe(|a: A| Maybe::Just(f(a))) == Maybe::Just(x.spec_map(f)),
{
}

/// Traversable composition in `Maybe`.
pub proof fn law_maybe_traverse_composition<A, B, C>(
    x: Maybe<A>,
    f: spec_fn(A) -> Maybe<B>,
    g: spec_fn(B) -> Maybe<C>,
)
    ensures
        x.spec_traverse_maybe(f).spec_bind(|y: Maybe<B>| y.spec_traverse_maybe(g)) == x.spec_traverse_maybe(
            |a: A| f(a).spec_bind(g),
        ),
{
}

/// Converting to `Option` and back gives the value back, and conversely.
pub proof fn law_maybe_option_round_trip<A>(x: Maybe<A>, o: Option<A>)
    ensures
        Maybe::spec_from_option(x.spec_option()) == x,
        Maybe::spec_from_option(o).spec_option() == o,
{
}

/// A `Maybe` turned into a list and back (`maybe_to_list`, then
/// `list_to_maybe`) is itself.
pub proof fn law_maybe_list_round_trip<A>(x: Maybe<A>)
    ensures
        seq_head(x.spec_to_seq()) == x,
{
}

} // verus!
