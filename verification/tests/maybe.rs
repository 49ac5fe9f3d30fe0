#![allow(unused_imports)]

use std::ops::ControlFlow;

use functional::algebra::{Monoid, Semigroup};
use functional::either::{Either, EitherInstance};
use functional::identity::Identity;
use functional::list::{List, ListInstance};
use functional::maybe::{Maybe, MaybeInstance};
use functional::validation::{Validation, ValidationInstance};
use functional::maybe_util::{
    cat_maybes, from_just, from_maybe, is_just, is_nothing, list_to_maybe, map_maybes, maybe,
    maybe_to_list,
};

#[test]
fn alternative_test_alternative_associativity_law() {
    let a = Maybe::Just(1);
    let b = Maybe::Just(2);
    let c = Maybe::Just(3);
    let lhs = a.alt(b).alt(c);
    let rhs = a.alt(b.alt(c));
    assert_eq!(lhs, rhs);

    let a = Maybe::Nothing;
    let b = Maybe::Just(2);
    let c = Maybe::Nothing;
    let lhs = a.alt(b).alt(c);
    let rhs = a.alt(b.alt(c));
    assert_eq!(lhs, rhs);
}

#[test]
fn alternative_test_alternative_left_distributivity_law() {
    let f = |x| x * 2;
    let a = Maybe::Just(1);
    let b = Maybe::Just(2);
    let lhs = MaybeInstance::fmap(f, a.clone().alt(b.clone()));
    let rhs = MaybeInstance::fmap(f, a).alt(MaybeInstance::fmap(f, b));
    assert_eq!(lhs, rhs);

    let f = |x| x * 2;
    let a = Maybe::Nothing;
    let b = Maybe::Just(2);
    let lhs = MaybeInstance::fmap(f, a.clone().alt(b.clone()));
    let rhs = MaybeInstance::fmap(f, a).alt(MaybeInstance::fmap(f, b));
    assert_eq!(lhs, rhs);
}

#[test]
fn alternative_test_alternative_left_identity_law() {
    let x = Maybe::Just(1).alt(MaybeInstance::fallback());
    assert_eq!(x, Maybe::Just(1));

    let x: Maybe<i32> = MaybeInstance::fallback().alt(MaybeInstance::fallback());
    assert_eq!(x, Maybe::Nothing);
}

#[test]
fn alternative_test_alternative_right_identity_law() {
    let x = MaybeInstance::fallback::<i32>().alt(Maybe::Just(1));
    assert_eq!(x, Maybe::Just(1));

    let x: Maybe<i32> = MaybeInstance::fallback().alt(MaybeInstance::fallback());
    assert_eq!(x, Maybe::Nothing);
}

#[test]
fn alternative_test_chained_alt() {
    let x = MaybeInstance::fallback::<i32>()
        .alt(Maybe::Just(1))
        .alt(Maybe::Just(2));
    assert_eq!(x, Maybe::Just(1));

    let x = Maybe::Just(10)
        .alt(Maybe::Just(20))
        .alt(MaybeInstance::fallback());
    assert_eq!(x, Maybe::Just(10));
}

#[test]
fn maybe_test_applicative_composition_law() {
    let g = |x| x * 2;
    let h = |x| x + 3;
    let composed = move |x| g(h(x));

    let lhs = Maybe::Just(composed.clone()).apply(Maybe::Just(4));
    let rhs = Maybe::Just(g).apply(Maybe::Just(h).apply(Maybe::Just(4)));
    assert_eq!(lhs, rhs);
    assert_eq!(lhs, Maybe::Just(14));
}

#[test]
fn maybe_test_applicative_homomorphism_law() {
    let h = |x| x * 2;
    assert_eq!(
        MaybeInstance::pure(h).apply(MaybeInstance::pure(3)),
        MaybeInstance::pure(h(3))
    );
}

#[test]
fn maybe_test_applicative_identity_law() {
    let id = |x| x;

    let f = Maybe::Just(42);
    assert_eq!(Maybe::Just(id).apply(f), Maybe::Just(42),);

    let f: Maybe<i32> = Maybe::Nothing;
    assert_eq!(Maybe::Just(id).apply(f), Maybe::Nothing,);
}

#[test]
fn maybe_test_applicative_interchange_law() {
    let h: fn(i32) -> i32 = |x| x + 10;
    let x = 5;

    let lhs = Maybe::Just(h).apply(MaybeInstance::pure(x));
    let rhs = MaybeInstance::pure(move |g: fn(i32) -> i32| g(x)).apply(Maybe::Just(h));
    assert_eq!(lhs, rhs);

    let lhs: Maybe<i32> = Maybe::<fn(i32) -> i32>::Nothing.apply(MaybeInstance::pure(x));
    let rhs = MaybeInstance::pure(move |g: fn(i32) -> i32| g(x)).apply(Maybe::<fn(i32) -> i32>::Nothing);
    assert_eq!(lhs, rhs);
}

#[test]
fn applicative_test_apply() {
    let f = Maybe::Just(&|x| x + 1).apply(Maybe::Just(1));
    assert_eq!(f, Maybe::Just(2));

    let f: Maybe<i32> = Maybe::<fn(i32) -> i32>::Nothing.apply(Maybe::Just(1));
    assert_eq!(f, Maybe::Nothing);

    let f: Maybe<i32> = Maybe::Just(&|x: i32| x + 1).apply(Maybe::Nothing);
    assert_eq!(f, Maybe::Nothing);
}

#[test]
fn maybe_test_pure() {
    assert_eq!(MaybeInstance::pure(42), Maybe::Just(42));
}

#[test]
fn maybe_test_foldable_fold_fold_map_id_law() {
    let lhs = MaybeInstance::fold(Maybe::Just(List::from(vec![1, 2])));
    let rhs = MaybeInstance::fold_map(|x| x, Maybe::Just(List::from(vec![1, 2])));
    assert_eq!(lhs, rhs);
}

#[test]
fn maybe_test_foldable_fold_map_fmap_fusion_law() {
    let to_monoid = |x: i32| List::singleton(x);
    let elem_map = |x: i32| x + 1;
    let composed = move |x| to_monoid(elem_map(x));
    let lhs = MaybeInstance::fold_map(composed, Maybe::Just(2));
    let rhs = MaybeInstance::fold_map(to_monoid, MaybeInstance::fmap(elem_map, Maybe::Just(2)));
    assert_eq!(lhs, rhs);
}

#[test]
fn maybe_test_foldable_foldr_to_list_law() {
    let xs = Maybe::Just(1);
    let via_foldr = MaybeInstance::foldr(List::cons, List::empty(), xs.clone());
    assert_eq!(via_foldr, List::from(vec![1]));
}

#[test]
fn maybe_test_functor_composition_law() {
    let h = |x: i32| (x as i64) * 2;
    let g = |x: i64| x + 3;
    let composed = move |x| g(h(x));

    let f = Maybe::Just(4i32);
    let lhs = MaybeInstance::fmap(composed.clone(), f);
    let rhs = MaybeInstance::fmap(g, MaybeInstance::fmap(h, Maybe::Just(4i32)));
    assert_eq!(lhs, Maybe::Just(11i64));
    assert_eq!(lhs, rhs);

    let f: Maybe<i32> = Maybe::Nothing;
    let lhs = MaybeInstance::fmap(composed, f);
    let rhs = MaybeInstance::fmap(g, MaybeInstance::fmap(h, Maybe::Nothing));
    assert_eq!(lhs, Maybe::Nothing);
    assert_eq!(lhs, rhs);
}

#[test]
fn maybe_test_functor_identity_law() {
    let id = |x| x;

    let f = Maybe::Just(42);
    assert_eq!(MaybeInstance::fmap(id, f), Maybe::Just(42));

    let f: Maybe<i32> = Maybe::Nothing;
    assert_eq!(MaybeInstance::fmap(id, f), Maybe::Nothing,);
}

#[test]
fn monad_test_bind() {
    let m = MaybeInstance::bind(Maybe::Just(1), |x| Maybe::Just(x + 1));
    assert_eq!(m, Maybe::Just(2));

    let m: Maybe<i32> = MaybeInstance::bind(Maybe::Nothing, |x: i32| Maybe::Just(x + 1));
    assert_eq!(m, Maybe::Nothing);

    let m = MaybeInstance::bind(Maybe::Just(42), |x: i32| Maybe::Just(x.to_string()));
    assert_eq!(m, Maybe::Just("42".to_string()));
}

#[test]
fn maybe_test_monad_associativity_law() {
    let g = |x| Maybe::Just(x + 1);
    let h = |x| Maybe::Just(x * 2);

    let m = Maybe::Just(3);
    let lhs = MaybeInstance::bind(MaybeInstance::bind(m, g), h);
    let rhs = MaybeInstance::bind(m, move |x| MaybeInstance::bind(g(x), h));
    assert_eq!(lhs, rhs);
    assert_eq!(lhs, Maybe::Just(8));

    let m: Maybe<i32> = Maybe::Nothing;
    let lhs = MaybeInstance::bind(MaybeInstance::bind(m, g), h);
    let rhs = MaybeInstance::bind(m, move |x| MaybeInstance::bind(g(x), h));
    assert_eq!(lhs, rhs);
    assert_eq!(lhs, Maybe::Nothing);
}

#[test]
fn maybe_test_monad_left_identity_law() {
    let g = |x| Maybe::Just(x * 2);
    let lhs = MaybeInstance::bind(MaybeInstance::ret(3), g);
    let rhs = g(3);
    assert_eq!(lhs, rhs);
}

#[test]
fn maybe_test_monad_right_identity_law() {
    let m = Maybe::Just(42);
    let lhs = MaybeInstance::bind(m, MaybeInstance::ret);
    assert_eq!(lhs, Maybe::Just(42));

    let m: Maybe<i32> = Maybe::Nothing;
    let lhs = MaybeInstance::bind(m, MaybeInstance::ret);
    assert_eq!(lhs, Maybe::Nothing);
}

#[test]
fn monoid_test_monoid_left_identity_law() {
    let xs: Maybe<List<i32>> = Maybe::Just(List::from(vec![1, 2]));
    assert_eq!(Maybe::empty().associate(xs.clone()), xs);

    let xs: Maybe<List<i32>> = Maybe::Nothing;
    assert_eq!(Maybe::empty().associate(xs.clone()), xs);
}

#[test]
fn monoid_test_monoid_right_identity_law() {
    let xs: Maybe<List<i32>> = Maybe::Just(List::from(vec![1, 2]));
    assert_eq!(xs.clone().associate(Maybe::empty()), xs);

    let xs: Maybe<List<i32>> = Maybe::Nothing;
    assert_eq!(xs.clone().associate(Maybe::empty()), xs);
}

#[test]
fn semigroup_test_associate() {
    let xs: Maybe<List<i32>> = Maybe::Just(List::from(vec![1, 2]));
    let ys: Maybe<List<i32>> = Maybe::Just(List::singleton(3));
    assert_eq!(
        xs.associate(ys.clone()),
        Maybe::Just(List::from(vec![1, 2, 3]))
    );

    let xs: Maybe<List<i32>> = Maybe::Nothing;
    let ys: Maybe<List<i32>> = Maybe::Just(List::singleton(1));
    assert_eq!(xs.associate(ys), Maybe::Just(List::singleton(1)));

    let xs: Maybe<List<i32>> = Maybe::Just(List::singleton(1));
    let ys: Maybe<List<i32>> = Maybe::Nothing;
    assert_eq!(xs.associate(ys), Maybe::Just(List::singleton(1)));

    let xs: Maybe<List<i32>> = Maybe::Nothing;
    let ys: Maybe<List<i32>> = Maybe::Nothing;
    assert_eq!(xs.associate(ys), Maybe::Nothing);
}

#[test]
fn maybe_test_semigroup_associativity_law() {
    let xs: Maybe<List<i32>> = Maybe::Just(List::singleton(1));
    let ys: Maybe<List<i32>> = Maybe::Just(List::singleton(2));
    let zs: Maybe<List<i32>> = Maybe::Just(List::singleton(3));
    let lhs = xs.clone().associate(ys.clone()).associate(zs.clone());
    let rhs = xs.associate(ys.associate(zs));
    assert_eq!(lhs, rhs);

    let xs: Maybe<List<i32>> = Maybe::Nothing;
    let ys: Maybe<List<i32>> = Maybe::Just(List::singleton(2));
    let zs: Maybe<List<i32>> = Maybe::Just(List::singleton(3));
    let lhs = xs.clone().associate(ys.clone()).associate(zs.clone());
    let rhs = xs.associate(ys.associate(zs));
    assert_eq!(lhs, rhs);

    let xs: Maybe<List<i32>> = Maybe::Just(List::singleton(1));
    let ys: Maybe<List<i32>> = Maybe::Nothing;
    let zs: Maybe<List<i32>> = Maybe::Just(List::singleton(3));
    let lhs = xs.clone().associate(ys.clone()).associate(zs.clone());
    let rhs = xs.associate(ys.associate(zs));
    assert_eq!(lhs, rhs);

    let xs: Maybe<List<i32>> = Maybe::Just(List::singleton(1));
    let ys: Maybe<List<i32>> = Maybe::Just(List::singleton(2));
    let zs: Maybe<List<i32>> = Maybe::Nothing;
    let lhs = xs.clone().associate(ys.clone()).associate(zs.clone());
    let rhs = xs.associate(ys.associate(zs));
    assert_eq!(lhs, rhs);

    let xs: Maybe<List<i32>> = Maybe::Nothing;
    let ys: Maybe<List<i32>> = Maybe::Nothing;
    let zs: Maybe<List<i32>> = Maybe::Nothing;
    let lhs = xs.clone().associate(ys.clone()).associate(zs.clone());
    let rhs = xs.associate(ys.associate(zs));
    assert_eq!(lhs, rhs);
}

#[test]
fn maybe_test_traverse() {
    let res = MaybeInstance::traverse_maybe(|x| Maybe::Just(x * 2), Maybe::Just(3));
    assert_eq!(res, Maybe::Just(Maybe::Just(6)));

    let res = MaybeInstance::traverse_maybe(|x: i32| Maybe::Just(x * 2), Maybe::Nothing);
    assert_eq!(res, Maybe::Just(Maybe::Nothing));
}

#[test]
fn maybe_test_traverse_composition_law() {
    let xs = Maybe::Just(3);
    let f = |x| Maybe::Just(x);
    let g = |x| Maybe::Just(x * 2);

    let lhs = MaybeInstance::traverse_maybe(
        move |x| MaybeInstance::traverse_maybe(g, f(x)),
        xs.clone(),
    );

    let rhs = MaybeInstance::traverse_maybe(g, xs);

    assert_eq!(lhs, Maybe::Just(rhs));
}

#[test]
fn maybe_test_traverse_effect_fail() {
    let res: Maybe<Maybe<i32>> = MaybeInstance::traverse_maybe(|_| Maybe::Nothing, Maybe::Just(3));
    assert_eq!(res, Maybe::Nothing);
}

#[test]
fn maybe_test_traverse_foldable_consistency() {
    let xs = Maybe::Just(5);
    let via_traverse = MaybeInstance::traverse_identity(|x| Identity(x), xs.clone());
    let via_foldr = MaybeInstance::foldr(|x, acc| x + acc, 0, xs);
    assert_eq!(Identity::run(via_traverse), Maybe::Just(via_foldr));
}

#[test]
fn maybe_test_traverse_identity_law() {
    let res = MaybeInstance::traverse_identity(|x| Identity(x), Maybe::Just(42));
    assert_eq!(res, Identity(Maybe::Just(42)));

    let res = MaybeInstance::traverse_identity(|x: i32| Identity(x), Maybe::Nothing);
    assert_eq!(res, Identity(Maybe::Nothing));
}

#[test]
fn traversable_test_traverse_naturality_law() {
    let xs = Maybe::Just(3);

    let lhs = MaybeInstance::traverse_maybe(|x| Maybe::Just(x + 1), xs);
    let rhs = MaybeInstance::fmap(|x| Maybe::Just(x + 1), Maybe::Just(3));
    assert_eq!(lhs, rhs);
}

#[test]
fn traversable_test_traverse_pure_law() {
    let xs = Maybe::Just(42);
    let res = MaybeInstance::traverse_maybe(Maybe::Just, xs.clone());
    assert_eq!(res, Maybe::Just(xs));

    let res: Maybe<Maybe<i32>> = MaybeInstance::traverse_maybe(Maybe::Just, Maybe::Nothing);
    assert_eq!(res, Maybe::Just(Maybe::Nothing));
}

#[test]
fn test_alternative_right_distributivity_law() {
    let f: fn(i32) -> i32 = |x| x + 1;
    let g: fn(i32) -> i32 = |x| x * 2;
    let x = Maybe::Just(3);

    let lhs = Maybe::Just(f).alt(Maybe::Just(g)).apply(x);
    let rhs = Maybe::Just(f).apply(x).alt(Maybe::Just(g).apply(x));
    assert_eq!(lhs, rhs);

    let lhs = Maybe::Nothing.alt(Maybe::Just(g)).apply(x);
    let rhs = Maybe::<fn(i32) -> i32>::Nothing.apply(x).alt(Maybe::Just(g).apply(x));
    assert_eq!(lhs, rhs);
}

#[test]
fn test_alternative_annihilativity_law() {
    let res: Maybe<i32> = Maybe::<fn(i32) -> i32>::Nothing.apply(Maybe::Just(3));
    assert_eq!(res, Maybe::Nothing);

    let res: Maybe<i32> = Maybe::Just(|x: i32| x + 1).apply(Maybe::<i32>::Nothing);
    assert_eq!(res, Maybe::Nothing);
}

#[test]
fn test_maybe_option_conversions() {
    assert_eq!(Maybe::Just(3).option(), Some(3));
    assert_eq!(Maybe::<i32>::Nothing.option(), None);
    assert_eq!(Maybe::from(Some(4)), Maybe::Just(4));
    assert_eq!(Maybe::<i32>::from(None::<i32>), Maybe::Nothing);
    assert_eq!(Option::from(Maybe::Just(5)), Some(5));
    assert_eq!(Maybe::<i32>::default(), Maybe::Nothing);
}

#[test]
fn test_maybe_try_foldr_break_and_continue() {
    let r = MaybeInstance::try_foldr(
        |x: i32, acc: i32| x + acc,
        |x: i32| if x > 5 { ControlFlow::Break(100) } else { ControlFlow::Continue(x * 10) },
        1,
        Maybe::Just(3),
    );
    assert_eq!(r, 31);
    let r = MaybeInstance::try_foldr(
        |x: i32, acc: i32| x + acc,
        |x: i32| if x > 5 { ControlFlow::Break(100) } else { ControlFlow::Continue(x * 10) },
        1,
        Maybe::Just(7),
    );
    assert_eq!(r, 100);
    let r = MaybeInstance::try_foldr(
        |x: i32, acc: i32| x + acc,
        |x: i32| ControlFlow::<i32, i32>::Continue(x),
        1,
        Maybe::Nothing,
    );
    assert_eq!(r, 1);
}

#[test]
fn test_fmap_just() {
    let g = |x| x + 1;
    let f = Maybe::Just(1);
    assert_eq!(MaybeInstance::fmap(g, f), Maybe::Just(2));
}

#[test]
fn test_fmap_nothing() {
    let g = |x: i32| x + 1;
    let f: Maybe<i32> = Maybe::Nothing;
    assert_eq!(MaybeInstance::fmap(g, f), Maybe::Nothing);
}

#[test]
fn test_fmap_just_func() {
    fn g(h: Box<dyn Fn(i32) -> i32>) -> Box<dyn Fn(i32) -> i32> {
        Box::new(move |x| h(x) * 2)
    }

    let f: Maybe<Box<dyn Fn(i32) -> i32>> = Maybe::Just(Box::new(|x: i32| x + 1));
    match MaybeInstance::fmap(g, f) {
        Maybe::Just(h) => assert_eq!(h(1), 4),
        Maybe::Nothing => unreachable!(),
    }
}

#[test]
fn test_chained_bind() {
    let m = MaybeInstance::ret(1)
        .bind(|x| Maybe::Just(x + 1))
        .bind(|x| Maybe::Just(x * 3));
    assert_eq!(m, Maybe::Just(6));

    let m = Maybe::Nothing.bind(|x: i32| Maybe::Just(x + 1));
    assert_eq!(m, Maybe::Nothing);

    let m = Maybe::Just(10)
        .bind(|x| Maybe::Just(x + 5))
        .bind(|x| if x > 12 { Maybe::Just(x) } else { Maybe::Nothing });
    assert_eq!(m, Maybe::Just(15));
}

#[test]
fn test_maybe() {
    assert_eq!(maybe(0, |x| x * 2, Maybe::Just(3)), 6);
    assert_eq!(maybe(0, |x: i32| x * 2, Maybe::Nothing), 0);
}

#[test]
fn test_is_just_is_nothing() {
    let x = Maybe::Just(42);
    assert!(is_just(&x));
    assert!(!is_nothing(&x));

    let x = Maybe::<i32>::Nothing;
    assert!(!is_just(&x));
    assert!(is_nothing(&x));
}

#[test]
fn test_from_just() {
    assert_eq!(from_just(Maybe::Just(42)), 42);
}

#[test]
fn test_from_maybe() {
    assert_eq!(from_maybe("default", Maybe::Just("a")), "a");
    assert_eq!(from_maybe("default", Maybe::Nothing), "default");
}

#[test]
fn test_list_to_maybe() {
    assert_eq!(list_to_maybe(List::from(vec![1, 2, 3])), Maybe::Just(1));
    assert_eq!(list_to_maybe(List::<i32>::empty()), Maybe::Nothing);
}

#[test]
fn test_maybe_to_list() {
    assert_eq!(maybe_to_list(Maybe::Just(1)), List::from(vec![1]));
    assert_eq!(maybe_to_list(Maybe::<i32>::Nothing), List::empty());
}

#[test]
fn test_cat_maybes() {
    let xs = List::from(vec![Maybe::Just(1), Maybe::Nothing, Maybe::Just(3)]);
    assert_eq!(cat_maybes(xs), List::from(vec![1, 3]));
}

#[test]
fn test_map_maybes() {
    let xs = List::from(vec![1, 2, 3, 4]);
    let result = map_maybes(
        |x| {
            if x % 2 == 0 {
                Maybe::Just(x)
            } else {
                Maybe::Nothing
            }
        },
        xs,
    );
    assert_eq!(result, List::from(vec![2, 4]));
}

#[test]
fn test_maybe_from_option_converts_the_value() {
    assert_eq!(Maybe::<i64>::from(Some(4i32)), Maybe::Just(4i64));
    assert_eq!(Maybe::<String>::from(Some("a")), Maybe::Just("a".to_string()));
    assert_eq!(Maybe::<String>::from(None::<&str>), Maybe::Nothing);
}

#[test]
fn test_maybe_from_option_exact() {
    assert_eq!(Maybe::from_option(Some(3)), Maybe::Just(3));
    assert_eq!(Maybe::<i32>::from_option(None), Maybe::Nothing);
    let m = Maybe::Just(7);
    assert_eq!(Maybe::from_option(m.option()), m);
}

#[test]
fn test_maybe_either_validation_clone() {
    let m = Maybe::Just("a".to_string());
    assert_eq!(m.clone(), m);
    assert_eq!(Maybe::<String>::Nothing.clone(), Maybe::Nothing);
    let e: Either<String, i32> = Either::Left("e".to_string());
    assert_eq!(e.clone(), e);
    let e: Either<String, i32> = Either::Right(2);
    assert_eq!(e.clone(), Either::Right(2));
    let v: Validation<String, String> = Validation::Failure("bad".to_string());
    assert_eq!(v.clone(), v);
    let v: Validation<String, String> = Validation::Success("ok".to_string());
    assert_eq!(v.clone(), Validation::Success("ok".to_string()));
}
