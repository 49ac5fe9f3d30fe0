#![allow(unused_imports)]

use std::ops::ControlFlow;

use functional::algebra::{Monoid, Semigroup};
use functional::either::{Either, EitherInstance};
use functional::identity::Identity;
use functional::list::{List, ListInstance};
use functional::maybe::{Maybe, MaybeInstance};
use functional::validation::{Validation, ValidationInstance};
use functional::validation_util::{ealt, either_to_validation, validation_to_either};

#[test]
fn validation_test_alternative_associativity_law() {
    let a: Validation<List<i32>, i32> = Validation::Success(1);
    let b: Validation<List<i32>, i32> = Validation::Success(2);
    let c: Validation<List<i32>, i32> = Validation::Success(3);
    let lhs = a.clone().alt(b.clone()).alt(c.clone());
    let rhs = a.alt(b.alt(c));
    assert_eq!(lhs, rhs);

    let a: Validation<List<i32>, i32> = Validation::Failure(List::singleton(1));
    let b: Validation<List<i32>, i32> = Validation::Failure(List::singleton(2));
    let c: Validation<List<i32>, i32> = Validation::Failure(List::singleton(3));
    let lhs = a.clone().alt(b.clone()).alt(c.clone());
    let rhs = a.alt(b.alt(c));
    assert_eq!(lhs, rhs);
}

#[test]
fn validation_test_alternative_left_distributivity_law() {
    let f = |x| x * 2;

    let a: Validation<List<i32>, i32> = Validation::Success(1);
    let b: Validation<List<i32>, i32> = Validation::Success(2);
    let lhs = a.clone().alt(b.clone()).fmap(f.clone());
    let rhs = a.fmap(f.clone()).alt(b.fmap(f.clone()));
    assert_eq!(lhs, rhs);

    let a: Validation<List<i32>, i32> = Validation::Failure(List::singleton(1));
    let b: Validation<List<i32>, i32> = Validation::Failure(List::singleton(2));
    let lhs = a.clone().alt(b.clone()).fmap(f.clone());
    let rhs = a.fmap(f.clone()).alt(b.fmap(f));
    assert_eq!(lhs, rhs);
}

#[test]
fn validation_test_alternative_left_identity_law() {
    let x: Validation<List<i32>, i32> = Validation::Success(1);
    assert_eq!(x.clone().alt(ValidationInstance::fallback()), x);

    let x: Validation<List<i32>, i32> = ValidationInstance::fallback();
    assert_eq!(x.clone().alt(ValidationInstance::fallback()), x);
}

#[test]
fn validation_test_alternative_right_identity_law() {
    let x: Validation<List<i32>, i32> = Validation::Success(1);
    assert_eq!(ValidationInstance::fallback().alt(x.clone()), x);

    let x: Validation<List<i32>, i32> = ValidationInstance::fallback();
    assert_eq!(ValidationInstance::fallback().alt(x.clone()), x);
}

#[test]
fn validation_test_chained_alt() {
    let x: Validation<List<i32>, i32> = ValidationInstance::fallback()
        .alt(Validation::Success(1))
        .alt(Validation::Success(2));
    assert_eq!(x, Validation::Success(1));

    let x: Validation<List<i32>, i32> = Validation::Failure(List::singleton(1))
        .alt(Validation::Failure(List::singleton(2)))
        .alt(Validation::Failure(List::singleton(3)));
    assert_eq!(x, Validation::Failure(List::from(vec![1, 2, 3])));
}

#[test]
fn validation_test_applicative_composition_law() {
    let g: fn(i32) -> i32 = |x| x * 2;
    let h: fn(i32) -> i32 = |x| x + 3;
    let compose = |g: fn(i32) -> i32| move |h: fn(i32) -> i32| move |x: i32| g(h(x));
    let composed = ValidationInstance::pure(compose)
        .apply(Validation::Success(g))
        .apply(Validation::Success(h));

    let xs = Validation::Success(4);
    let lhs = composed.clone().apply(xs.clone());
    let rhs = ValidationInstance::pure(g).apply(Validation::Success(h).apply(xs));
    assert_eq!(lhs, Validation::<List<i32>, i32>::Success(14));
    assert_eq!(lhs, rhs);

    let xs = Validation::Failure(List::singleton(1));
    let lhs = composed.apply(xs.clone());
    let rhs = ValidationInstance::pure(|x: i32| x * 2)
        .apply(Validation::Success(|x: i32| x + 3).apply(xs));
    assert_eq!(lhs, Validation::Failure(List::singleton(1)));
    assert_eq!(lhs, rhs);
}

#[test]
fn validation_test_applicative_homomorphism_law() {
    let g = |x| x * 2;
    assert_eq!(
        ValidationInstance::<List<i32>>::pure(g.clone()).apply(ValidationInstance::pure(3)),
        ValidationInstance::pure(g(3))
    );
}

#[test]
fn validation_test_applicative_identity_law() {
    let fid = ValidationInstance::pure(|x| x);

    let fx = Validation::Success(42);
    assert_eq!(fid.clone().apply(fx), Validation::Success(42));

    let fx: Validation<List<i32>, i32> = Validation::Failure(List::singleton(1));
    assert_eq!(fid.apply(fx), Validation::Failure(List::singleton(1)));
}

#[test]
fn validation_test_applicative_interchange_law() {
    let g: fn(i32) -> i32 = |x| x + 10;
    let x = 5;

    let lhs: Validation<List<i32>, i32> =
        Validation::Success(g.clone()).apply(ValidationInstance::pure(x));
    let rhs = ValidationInstance::pure(move |g: fn(i32) -> i32| g(x)).apply(Validation::Success(g));
    assert_eq!(lhs, rhs);

    let lhs: Validation<List<i32>, i32> = Validation::Failure(List::singleton(1));
    let rhs = ValidationInstance::pure(move |g: fn(i32) -> i32| g(x))
        .apply(Validation::Failure(List::singleton(1)));
    assert_eq!(lhs, rhs);
}

#[test]
fn validation_test_apply() {
    let fg = Validation::<List<i32>, _>::Success(|x| x + 1);
    assert_eq!(fg.apply(Validation::Success(1)), Validation::Success(2));

    let fg: Validation<List<i32>, fn(i32) -> i32> = Validation::Failure(List::singleton(1));
    assert_eq!(
        fg.apply(Validation::Success(1)),
        Validation::Failure(List::singleton(1))
    );

    let fg = Validation::Success(|x: i32| x + 1);
    assert_eq!(
        fg.apply(Validation::Failure(List::singleton(2))),
        Validation::Failure(List::singleton(2))
    );

    let fg: Validation<List<i32>, fn(i32) -> i32> = Validation::Failure(List::singleton(1));
    assert_eq!(
        fg.apply(Validation::<List<i32>, i32>::Failure(List::singleton(2))),
        Validation::Failure(List::from(vec![1, 2]))
    );
}

#[test]
fn validation_test_pure() {
    assert_eq!(
        ValidationInstance::pure(42),
        Validation::<List<i32>, i32>::Success(42)
    );
}

#[test]
fn validation_test_foldable_fold_fold_map_id_law() {
    let xs = Validation::<List<i32>, List<i32>>::Success(List::from(vec![1, 2]));
    let lhs = ValidationInstance::fold(xs.clone());
    let rhs = ValidationInstance::fold_map(|x| x, xs);
    assert_eq!(lhs, rhs);

    let xs = Validation::<List<i32>, List<i32>>::Failure(List::singleton(0));
    let lhs = ValidationInstance::fold(xs.clone());
    let rhs = ValidationInstance::fold_map(|x| x, xs);
    assert_eq!(lhs, rhs);
}

#[test]
fn validation_test_foldable_fold_map_fmap_fusion_law() {
    let to_monoid = |x: i32| List::singleton(x);
    let elem_map = |x: i32| x + 1;
    let composed = move |x| to_monoid(elem_map(x));

    let xs = Validation::<List<i32>, i32>::Success(2);
    let lhs = ValidationInstance::fold_map(composed, xs.clone());
    let rhs = ValidationInstance::fold_map(to_monoid, xs.fmap(elem_map));
    assert_eq!(lhs, rhs);
}

#[test]
fn validation_test_foldable_foldr_to_list_law() {
    let xs = Validation::<List<i32>, i32>::Success(1);
    let via_foldr = ValidationInstance::foldr(List::cons, List::empty(), xs.clone());
    assert_eq!(via_foldr, List::from(vec![1]));

    let xs = Validation::<List<i32>, i32>::Failure(List::singleton(99));
    let via_foldr = ValidationInstance::foldr(List::cons, List::empty(), xs);
    assert_eq!(via_foldr, List::empty());
}

#[test]
fn validation_test_functor_composition_law() {
    let h = |x| x * 2;
    let g = |x| x + 3;
    let composed = move |x| g(h(x));

    let fx = Validation::<&str, i32>::Success(4);
    let lhs = fx.clone().fmap(composed.clone());
    let rhs = fx.fmap(h.clone()).fmap(g.clone());
    assert_eq!(lhs, Validation::Success(11));
    assert_eq!(lhs, rhs);

    let fx: Validation<&str, i32> = Validation::Failure("err");
    let lhs = fx.clone().fmap(composed);
    let rhs = fx.fmap(h).fmap(g);
    assert_eq!(lhs, Validation::Failure("err"));
    assert_eq!(lhs, rhs);
}

#[test]
fn validation_test_functor_identity_law() {
    let id = |x| x;

    let fx = Validation::<&str, i32>::Success(42);
    assert_eq!(fx.fmap(id.clone()), Validation::Success(42));

    let fx: Validation<&str, i32> = Validation::Failure("err");
    assert_eq!(fx.fmap(id), Validation::Failure("err"));
}

#[test]
fn validation_test_monoid_left_identity_law() {
    let xs = Validation::<List<i32>, i32>::Success(42);
    assert_eq!(Validation::empty().associate(xs.clone()), xs);

    let xs = Validation::<List<i32>, i32>::Failure(List::singleton(1));
    assert_eq!(Validation::empty().associate(xs.clone()), xs);
}

#[test]
fn validation_test_monoid_right_identity_law() {
    let xs = Validation::<List<i32>, i32>::Success(42);
    assert_eq!(xs.clone().associate(Validation::empty()), xs);

    let xs = Validation::<List<i32>, i32>::Failure(List::singleton(1));
    assert_eq!(xs.clone().associate(Validation::empty()), xs);
}

#[test]
fn validation_test_associate() {
    let xs: Validation<List<i32>, i32> = Validation::Success(1);
    let ys: Validation<List<i32>, i32> = Validation::Success(2);
    assert_eq!(xs.associate(ys), Validation::Success(1));

    let xs: Validation<List<i32>, i32> = Validation::Success(1);
    let ys: Validation<List<i32>, i32> = Validation::Failure(List::singleton(2));
    assert_eq!(xs.associate(ys), Validation::Success(1));

    let xs: Validation<List<i32>, i32> = Validation::Failure(List::singleton(1));
    let ys: Validation<List<i32>, i32> = Validation::Success(2);
    assert_eq!(xs.associate(ys), Validation::Success(2));

    let xs: Validation<List<i32>, i32> = Validation::Failure(List::singleton(1));
    let ys: Validation<List<i32>, i32> = Validation::Failure(List::singleton(2));
    assert_eq!(
        xs.associate(ys),
        Validation::Failure(List::from(vec![1, 2]))
    );
}

#[test]
fn validation_test_semigroup_associativity_law() {
    let xs: Validation<List<i32>, i32> = Validation::Success(1);
    let ys: Validation<List<i32>, i32> = Validation::Success(2);
    let zs: Validation<List<i32>, i32> = Validation::Success(3);
    let lhs = xs.clone().associate(ys.clone()).associate(zs.clone());
    let rhs = xs.associate(ys.associate(zs));
    assert_eq!(lhs, rhs);

    let xs: Validation<List<i32>, i32> = Validation::Failure(List::singleton(1));
    let ys: Validation<List<i32>, i32> = Validation::Success(2);
    let zs: Validation<List<i32>, i32> = Validation::Success(3);
    let lhs = xs.clone().associate(ys.clone()).associate(zs.clone());
    let rhs = xs.associate(ys.associate(zs));
    assert_eq!(lhs, rhs);

    let xs: Validation<List<i32>, i32> = Validation::Failure(List::singleton(1));
    let ys: Validation<List<i32>, i32> = Validation::Failure(List::singleton(2));
    let zs: Validation<List<i32>, i32> = Validation::Failure(List::singleton(3));
    let lhs = xs.clone().associate(ys.clone()).associate(zs.clone());
    let rhs = xs.associate(ys.associate(zs));
    assert_eq!(lhs, rhs);

    let xs: Validation<List<i32>, i32> = Validation::Failure(List::singleton(1));
    let ys: Validation<List<i32>, i32> = Validation::Success(2);
    let zs: Validation<List<i32>, i32> = Validation::Failure(List::singleton(3));
    let lhs = xs.clone().associate(ys.clone()).associate(zs.clone());
    let rhs = xs.associate(ys.associate(zs));
    assert_eq!(lhs, rhs);
}

#[test]
fn validation_test_traverse() {
    let res = ValidationInstance::<List<i32>>::traverse_maybe(|x| Maybe::Just(x * 2), Validation::Success(3));
    assert_eq!(res, Maybe::Just(Validation::Success(6)));

    let res: Maybe<Validation<List<i32>, i32>> = ValidationInstance::traverse_maybe(
        |x: i32| Maybe::Just(x * 2),
        Validation::Failure(List::singleton(1)),
    );
    assert_eq!(res, Maybe::Just(Validation::Failure(List::singleton(1))));
}

#[test]
fn validation_test_traverse_composition_law() {
    let xs = Validation::<List<i32>, i32>::Success(3);
    let g = |x| x * 2;
    let h = |x| x + 1;
    let composed = move |x| h(g(x));

    let lhs = ValidationInstance::<List<i32>>::traverse_maybe(move |x| Maybe::Just(composed(x)), xs.clone());
    let rhs = ValidationInstance::<List<i32>>::traverse_maybe(move |x| Maybe::Just(h(g(x))), xs);
    assert_eq!(lhs, rhs);
}

#[test]
fn validation_test_traverse_effect_fail() {
    let res: Maybe<Validation<List<i32>, i32>> = ValidationInstance::traverse_maybe(
        |_| Maybe::<i32>::Nothing,
        Validation::<List<i32>, i32>::Success(3),
    );
    assert_eq!(res, Maybe::Nothing);
}

#[test]
fn validation_test_traverse_foldable_consistency() {
    let xs = Validation::<List<i32>, i32>::Success(5);
    let via_traverse = ValidationInstance::<List<i32>>::traverse_identity(Identity, xs.clone());
    let via_foldr = ValidationInstance::foldr(|x, acc| x + acc, 0, xs);
    assert_eq!(Identity::run(via_traverse), Validation::Success(via_foldr));
}

#[test]
fn validation_test_traverse_identity_law() {
    let res = ValidationInstance::<List<i32>>::traverse_identity(Identity, Validation::Success(42));
    assert_eq!(res, Identity(Validation::Success(42)));

    let res = ValidationInstance::<List<i32>>::traverse_identity(
        |x: i32| Identity(x),
        Validation::Failure(List::singleton(1)),
    );
    assert_eq!(res, Identity(Validation::Failure(List::singleton(1))));
}

#[test]
fn validation_test_traverse_pure_law() {
    let xs = Validation::<List<i32>, i32>::Success(42);
    let res = ValidationInstance::<List<i32>>::traverse_maybe(Maybe::Just, xs.clone());
    assert_eq!(res, Maybe::Just(xs));

    let xs = Validation::<List<i32>, i32>::Failure(List::singleton(1));
    let res = ValidationInstance::<List<i32>>::traverse_maybe(Maybe::Just, xs);
    assert_eq!(res, Maybe::Just(Validation::Failure(List::singleton(1))));
}

#[test]
fn test_alt_accumulates_errors() {
    let a = Validation::Failure(List::from(vec![1, 2]));
    let b = Validation::Failure(List::from(vec![3, 4]));
    assert_eq!(
        a.alt(b),
        Validation::<_, i32>::Failure(List::from(vec![1, 2, 3, 4]))
    );
}

#[test]
fn test_apply_accumulates_errors() {
    let fg: Validation<List<i32>, fn(i32) -> i32> = Validation::Failure(List::from(vec![10, 20]));
    let fx = Validation::Failure(List::from(vec![30]));
    assert_eq!(
        fg.apply(fx),
        Validation::Failure(List::from(vec![10, 20, 30]))
    );
}

#[test]
fn test_fmap_success() {
    let fx = Validation::<&str, i32>::Success(10);
    assert_eq!(fx.fmap(|x| x + 1), Validation::Success(11));
}

#[test]
fn test_fmap_failure() {
    let fx = Validation::Failure("err");
    assert_eq!(fx.fmap(|x: i32| x + 1), Validation::Failure("err"));
}

#[test]
fn test_empty() {
    let m = Validation::<List<i32>, i32>::empty();
    assert_eq!(m, Validation::Failure(List::empty()));
}

#[test]
fn test_ealt() {
    let s1 = Validation::Success(1);
    let s2 = Validation::Success(2);
    let f1 = Validation::Failure("err1");
    let f2 = Validation::Failure("err2");

    assert_eq!(ealt(s1, s2), s1);
    assert_eq!(ealt(s1, f1), s1);
    assert_eq!(ealt(f1, s1), s1);
    assert_eq!(ealt(f1, f2), f2);
}

#[test]
fn test_validation_conversions() {
    let v: Validation<&str, i32> = Validation::Success(1);
    assert_eq!(v.either(), Either::Right(1));
    assert_eq!(v.result(), Ok(1));
    let v: Validation<&str, i32> = Validation::Failure("e");
    assert_eq!(v.either(), Either::Left("e"));
    assert_eq!(v.result(), Err("e"));
    assert_eq!(either_to_validation(Either::<&str, i32>::Right(5)), Validation::Success(5));
    assert_eq!(either_to_validation(Either::<&str, i32>::Left("x")), Validation::Failure("x"));
    assert_eq!(validation_to_either(Validation::<&str, i32>::Success(6)), Either::Right(6));
    assert_eq!(validation_to_either(Validation::<&str, i32>::Failure("y")), Either::Left("y"));
    assert_eq!(Validation::from(Ok::<i32, &str>(7)), Validation::Success(7));
    assert_eq!(Result::from(Validation::<&str, i32>::Failure("z")), Err("z"));
    assert_eq!(Validation::<List<i32>, i32>::default(), Validation::Failure(List::empty()));
}

#[test]
fn test_validation_apply_failure_sides() {
    let fg: Validation<List<i32>, fn(i32) -> i32> = Validation::Success(|x| x);
    assert_eq!(fg.apply(Validation::Failure(List::singleton(3))), Validation::Failure(List::singleton(3)));
    let fg: Validation<List<i32>, fn(i32) -> i32> = Validation::Failure(List::singleton(4));
    assert_eq!(fg.apply(Validation::Success(1)), Validation::Failure(List::singleton(4)));
}
