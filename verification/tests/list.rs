#![allow(unused_imports)]

use std::ops::ControlFlow;

use functional::algebra::{Monoid, Semigroup};
use functional::either::{Either, EitherInstance};
use functional::identity::Identity;
use functional::list::{List, ListInstance};
use functional::maybe::{Maybe, MaybeInstance};
use functional::validation::{Validation, ValidationInstance};

#[test]
fn test_alternative_associativity_law() {
    let a = List::from(vec![1]);
    let b = List::from(vec![2]);
    let c = List::from(vec![3]);
    let lhs = a.clone().alt(b.clone()).alt(c.clone());
    let rhs = a.alt(b.alt(c));
    assert_eq!(lhs, rhs);

    let a = List::empty();
    let b = List::from(vec![2]);
    let c = List::from(vec![3]);
    let lhs = a.clone().alt(b.clone()).alt(c.clone());
    let rhs = a.alt(b.alt(c));
    assert_eq!(lhs, rhs);
}

#[test]
fn test_alternative_left_distributivity_law() {
    let a = List::from(vec![1, 2]);
    let b = List::from(vec![3, 4]);
    let f = |x| x * 10;

    let lhs = ListInstance::fmap(f.clone(), a.clone().alt(b.clone()));
    let rhs = ListInstance::fmap(f.clone(), a).alt(ListInstance::fmap(f.clone(), b));
    assert_eq!(lhs, rhs);

    let a = List::empty();
    let b = List::from(vec![3, 4]);

    let lhs = ListInstance::fmap(f.clone(), a.clone().alt(b.clone()));
    let rhs = ListInstance::fmap(f.clone(), a).alt(ListInstance::fmap(f, b));
    assert_eq!(lhs, rhs);
}

#[test]
fn test_alternative_left_identity_law() {
    let xs = List::from(vec![1, 2]).alt(ListInstance::fallback());
    assert_eq!(xs, List::from(vec![1, 2]));

    let xs: List<i32> = ListInstance::fallback().alt(ListInstance::fallback());
    assert_eq!(xs, List::empty());
}

#[test]
fn test_alternative_right_identity_law() {
    let xs = ListInstance::fallback().alt(List::from(vec![1, 2]));
    assert_eq!(xs, List::from(vec![1, 2]));

    let xs: List<i32> = ListInstance::fallback().alt(ListInstance::fallback());
    assert_eq!(xs, List::empty());
}

#[test]
fn test_chained_alt() {
    let xs = List::from(vec![1, 2])
        .alt(List::from(vec![3]))
        .alt(ListInstance::fallback())
        .alt(List::from(vec![4, 5]));
    assert_eq!(xs, List::from(vec![1, 2, 3, 4, 5]));
}

#[test]
fn applicative_test_applicative_composition_law() {
    let add3: fn(i32) -> i32 = |x| x + 3;
    let mul2: fn(i32) -> i32 = |x| x * 2;
    let inc: fn(i32) -> i32 = |x| x + 1;
    let compose = |g: fn(i32) -> i32| move |h: fn(i32) -> i32| move |x: i32| g(h(x));

    let xs = List::from(vec![1, 2]);
    let gs = List::from(vec![add3, mul2]);
    let hs = List::from(vec![inc, mul2]);

    let composed = ListInstance::apply(ListInstance::apply(ListInstance::pure(compose), gs.clone()), hs.clone());
    let lhs = ListInstance::apply(composed, xs.clone());
    let rhs = ListInstance::apply(gs, ListInstance::apply(hs, xs));
    assert_eq!(lhs, rhs);
}

#[test]
fn applicative_test_applicative_homomorphism_law() {
    let h = |x| x * 2;
    assert_eq!(
        ListInstance::apply(ListInstance::pure(h), ListInstance::pure(3)),
        ListInstance::pure(h(3)),
    );
}

#[test]
fn applicative_test_applicative_identity_law() {
    let id = |x| x;
    let gs = List::singleton(id);

    let xs = List::from(vec![1, 2, 3]);
    assert_eq!(ListInstance::apply(gs.clone(), xs.clone()), xs);

    let xs: List<i32> = List::empty();
    assert_eq!(ListInstance::apply(gs, xs), List::empty());
}

#[test]
fn applicative_test_applicative_interchange_law() {
    let add10: fn(i32) -> i32 = |x| x + 10;
    let mul2: fn(i32) -> i32 = |x| x * 2;
    let x = 5;

    let gs = List::from(vec![add10, mul2]);
    let lhs = ListInstance::apply(gs.clone(), ListInstance::pure(x));
    let rhs = ListInstance::apply(ListInstance::pure(move |g: fn(i32) -> i32| g(x)), gs);
    assert_eq!(lhs, rhs);

    let gs: List<fn(i32) -> i32> = List::empty();
    let lhs = ListInstance::apply(gs.clone(), ListInstance::pure(x));
    let rhs = ListInstance::apply(ListInstance::pure(move |g: fn(i32) -> i32| g(x)), gs);
    assert_eq!(lhs, rhs);
}

#[test]
fn applicative_test_pure() {
    assert_eq!(ListInstance::pure(42), List::singleton(42));
}

#[test]
fn foldable_test_foldable_fold_fold_map_id_law() {
    let xs = List::from(vec![
        List::from(vec![1]),
        List::from(vec![2, 3]),
        List::empty(),
        List::from(vec![4, 5]),
    ]);
    let lhs = ListInstance::fold(xs.clone());
    let rhs = ListInstance::fold_map(|x| x, xs);
    assert_eq!(lhs, rhs);
}

#[test]
fn foldable_test_foldable_fold_map_fmap_fusion_law() {
    let xs = List::from(vec![1, 2, 3]);
    let to_monoid = |x: i32| List::singleton(x);
    let elem_map = |x: i32| x + 1;
    let composed = move |x| to_monoid(elem_map(x));
    let lhs = ListInstance::fold_map(composed, xs.clone());
    let rhs = ListInstance::fold_map(to_monoid, ListInstance::fmap(elem_map, xs));
    assert_eq!(lhs, rhs);
}

#[test]
fn foldable_test_foldable_foldr_to_list_law() {
    let xs = List::from(vec![1, 2, 3]);
    let via_foldr = ListInstance::foldr(List::cons, List::empty(), xs.clone());
    assert_eq!(via_foldr, xs);
}

#[test]
fn functor_test_functor_composition_law() {
    let h = |x: i32| (x as i64) * 2;
    let g = |x: i64| x + 3;
    let composed = move |x| g(h(x));

    let xs = List::cons(1, List::cons(2, List::empty()));
    let lhs = ListInstance::fmap(composed.clone(), xs.clone());
    let rhs = ListInstance::fmap(g.clone(), ListInstance::fmap(h.clone(), xs));
    assert_eq!(lhs, rhs);

    let xs: List<i32> = List::empty();
    let lhs = ListInstance::fmap(composed, xs.clone());
    let rhs = ListInstance::fmap(g, ListInstance::fmap(h, xs));
    assert_eq!(lhs, rhs);
}

#[test]
fn functor_test_functor_identity_law() {
    let id = |x| x;

    let xs = List::cons(1, List::cons(2, List::cons(3, List::empty())));
    assert_eq!(ListInstance::fmap(id, xs.clone()), xs);

    let xs: List<i32> = List::empty();
    assert_eq!(ListInstance::fmap(id, xs), List::empty());
}

#[test]
fn test_bind() {
    let xs: List<i32> = List::empty();
    let g = |x| List::singleton(x + 1);
    let ys = xs.bind(g);
    assert_eq!(ys, List::empty());

    let xs = List::from(vec![1, 2, 3]);
    let g = |x| List::singleton(x + 1);
    let ys = xs.bind(g);
    assert_eq!(ys, List::from(vec![2, 3, 4]));

    let xs = List::from(vec![1, 2]);
    let g = |x| List::from(vec![x as i64, x as i64 * 10]);
    let ys = xs.bind(g);
    assert_eq!(ys, List::from(vec![1i64, 10i64, 2i64, 20i64]));
}

#[test]
fn monad_test_monad_associativity_law() {
    let g = |x| List::from(vec![x, x * 10]);
    let h = |x| List::singleton(x + 1);

    let xs = List::from(vec![1, 2]);
    let lhs = xs.clone().bind(g).bind(h);
    let k = move |x| g(x).bind(h);
    let rhs = xs.bind(k);
    assert_eq!(lhs, rhs);

    let xs: List<i32> = List::empty();
    let lhs = xs.clone().bind(g).bind(h);
    let k = move |x| g(x).bind(h);
    let rhs = xs.bind(k);
    assert_eq!(lhs, rhs);
}

#[test]
fn monad_test_monad_left_identity_law() {
    let g = |x: i32| List::from(vec![x * 2, x * 3]);

    let lhs = ListInstance::ret(3).bind(g);
    let rhs = g(3);
    assert_eq!(lhs, rhs);

    let g = |_x: i32| -> List<i32> { List::empty() };
    let lhs = ListInstance::ret(5).bind(g);
    let rhs = g(5);
    assert_eq!(lhs, rhs);
}

#[test]
fn monad_test_monad_right_identity_law() {
    let xs = List::from(vec![1, 2, 3]);
    let ys = xs.clone().bind(|x| ListInstance::ret(x));
    assert_eq!(ys, xs);

    let xs: List<i32> = List::empty();
    let ys = xs.clone().bind(|x| ListInstance::ret(x));
    assert_eq!(ys, xs);
}

#[test]
fn test_monoid_left_identity_law() {
    let xs = List::from(vec![1, 2]);
    assert_eq!(List::empty().associate(xs.clone()), xs);

    let xs: List<i32> = List::empty();
    assert_eq!(List::empty().associate(xs.clone()), xs);
}

#[test]
fn test_monoid_right_identity_law() {
    let xs = List::from(vec![1, 2]);
    assert_eq!(xs.clone().associate(List::empty()), xs);

    let xs: List<i32> = List::empty();
    assert_eq!(xs.clone().associate(List::empty()), xs);
}

#[test]
fn semigroup_test_semigroup_associativity_law() {
    let xs = List::singleton(1);
    let ys = List::singleton(2);
    let zs = List::singleton(3);
    let lhs = xs.clone().associate(ys.clone()).associate(zs.clone());
    let rhs = xs.associate(ys.associate(zs));
    assert_eq!(lhs, rhs);

    let xs: List<i32> = List::empty();
    let ys = List::singleton(1);
    let zs = List::singleton(2);
    let lhs = xs.clone().associate(ys.clone()).associate(zs.clone());
    let rhs = xs.associate(ys.associate(zs));
    assert_eq!(lhs, rhs);

    let xs: List<i32> = List::empty();
    let ys: List<i32> = List::empty();
    let zs: List<i32> = List::empty();
    let lhs = xs.clone().associate(ys.clone()).associate(zs.clone());
    let rhs = xs.associate(ys.associate(zs));
    assert_eq!(lhs, rhs);
}

#[test]
fn traversable_test_traverse() {
    let res = ListInstance::traverse_maybe(|x: i32| Maybe::Just(x + 1), List::empty());
    assert_eq!(res, Maybe::Just(List::empty()));

    let xs = List::from(vec![1, 2, 3]);
    let res = ListInstance::traverse_maybe(|x| Maybe::Just(x * 2), xs);
    assert_eq!(res, Maybe::Just(List::from(vec![2, 4, 6])));
}

#[test]
fn traversable_test_traverse_composition_law() {
    let xs = List::from(vec![1, 2]);
    let f = |x| x * 2;
    let g = |x| x + 1;

    let composed = move |x| f(g(x));
    let via_composed = ListInstance::traverse_maybe(move |x| Maybe::Just(composed(x)), xs.clone());

    let via_separate = ListInstance::traverse_maybe(move |x| Maybe::Just(f(g(x))), xs);

    assert_eq!(via_composed, via_separate);
}

#[test]
fn traversable_test_traverse_effect_fail() {
    let xs = List::from(vec![1, 2, 3]);
    let res = ListInstance::traverse_maybe(
        |x| {
            if x == 2 {
                Maybe::Nothing
            } else {
                Maybe::Just(x)
            }
        },
        xs,
    );
    assert_eq!(res, Maybe::Nothing);
}

#[test]
fn traversable_test_traverse_foldable_consistency() {
    let xs = List::from(vec![1, 2, 3]);
    let via_traverse = ListInstance::traverse_identity(|x: i32| Identity(x), xs.clone());
    assert_eq!(ListInstance::length(Identity::run(via_traverse)), 3);

    let sum = ListInstance::foldr(|x, a| x + a, 0, xs);
    assert_eq!(sum, 6);
}

#[test]
fn traversable_test_traverse_identity_law() {
    let xs = List::from(vec![1, 2, 3]);

    let res = ListInstance::traverse_identity(|x| Identity(x), xs.clone());
    assert_eq!(res, Identity(xs));

    let res = ListInstance::traverse_identity(|x: i32| Identity(x), List::empty());
    assert_eq!(res, Identity(List::empty()));
}

#[test]
fn test_traverse_naturality_law() {
    let xs = List::from(vec![1, 2, 3]);

    let via_traverse = ListInstance::traverse_maybe(|x| Maybe::Just(x + 1), xs.clone());
    let via_fmap_then_wrap = Maybe::Just(ListInstance::fmap(|x| x + 1, xs));
    assert_eq!(via_traverse, via_fmap_then_wrap);
}

#[test]
fn test_apply_nil_gs() {
    let gs: List<fn(i32) -> i32> = List::empty();
    let xs = List::from(vec![1, 2]);
    assert_eq!(ListInstance::apply(gs, xs), List::empty());
}

#[test]
fn test_apply_nil_xs() {
    let gs = List::singleton(&|x: i32| x + 1);
    let xs: List<i32> = List::empty();
    assert_eq!(ListInstance::apply(gs, xs), List::empty());
}

#[test]
fn test_apply_cartesian() {
    let add1: fn(i32) -> i32 = |x| x + 1;
    let mul2: fn(i32) -> i32 = |x| x * 2;
    let gs = List::from(vec![add1, mul2]);
    let xs = List::from(vec![1, 2]);
    let result = ListInstance::apply(gs, xs);
    let expected = List::from(vec![2, 3, 2, 4]);
    assert_eq!(result, expected);
}

#[test]
fn test_list_cons() {
    let xs = List::cons(1, List::cons(2, List::cons(3, List::empty())));
    let mut cur = xs.clone();
    for x in [1, 2, 3] {
        assert_eq!(cur.head(), Maybe::Just(&x));
        cur = match cur.tail() {
            Maybe::Just(tail) => tail.clone(),
            _ => unreachable!(),
        };
    }
}

#[test]
fn test_list_from_vec() {
    let xs = List::from(vec![1, 2, 3]);
    let (x1, xs) = xs.decompose().option().unwrap();
    assert_eq!(x1, 1);
    let (x2, xs) = xs.decompose().option().unwrap();
    assert_eq!(x2, 2);
    let (x3, xs) = xs.decompose().option().unwrap();
    assert_eq!(x3, 3);
    assert!(xs.decompose().option().is_none());
}

#[test]
fn test_fmap() {
    let xs: List<i32> = List::empty();
    let ys = ListInstance::fmap(&|x| x + 1, xs);
    assert_eq!(ys, List::empty());

    let xs = List::cons(1, List::cons(2, List::cons(3, List::empty())));
    let ys = ListInstance::fmap(&|x| x + 1, xs);
    let expected = List::cons(2, List::cons(3, List::cons(4, List::empty())));
    assert_eq!(ys, expected);
}

#[test]
fn test_append() {
    let xs = List::from(vec![1, 2]);
    let ys = List::singleton(3);
    assert_eq!(xs.associate(ys), List::from(vec![1, 2, 3]));

    let xs: List<i32> = List::empty();
    let ys = List::singleton(1);
    assert_eq!(xs.associate(ys), List::singleton(1));
}

#[test]
fn test_list_head_tail_of_empty() {
    let xs: List<i32> = List::empty();
    assert_eq!(xs.head(), Maybe::Nothing);
    assert!(xs.tail() == Maybe::Nothing);
    assert_eq!(List::<i32>::default(), List::empty());
}

#[test]
fn test_list_node_accessors() {
    let xs = List::from(vec![7, 8]);
    match &xs {
        List::Cons(node) => {
            assert_eq!(*node.head(), 7);
            assert_eq!(*node.tail(), List::singleton(8));
        },
        List::Nil => unreachable!(),
    }
}

#[test]
fn test_list_try_foldr_stops_at_first_break() {
    let xs = List::from(vec![1, 2, 30, 4]);
    let seen = std::cell::Cell::new(0);
    let r = ListInstance::try_foldr(
        |x: i32, acc: i32| x + acc,
        |x: i32| {
            seen.set(seen.get() + 1);
            if x > 10 { ControlFlow::Break(x * 100) } else { ControlFlow::Continue(x) }
        },
        0,
        xs,
    );
    assert_eq!(r, 1 + 2 + 3000);
    assert_eq!(seen.get(), 3);
    let r = ListInstance::try_foldr(|x: i32, acc: i32| x - acc, |x: i32| ControlFlow::<i32, i32>::Continue(x), 0, List::from(vec![10, 4, 1]));
    assert_eq!(r, 10 - (4 - (1 - 0)));
}

#[test]
fn test_list_fold_map_and_length() {
    let xs = List::from(vec![1, 2, 3]);
    let m = ListInstance::fold_map(|x: i32| List::from(vec![x, x]), xs.clone());
    assert_eq!(m, List::from(vec![1, 1, 2, 2, 3, 3]));
    assert_eq!(ListInstance::fold_map(|x: i32| List::singleton(x), List::<i32>::empty()), List::empty());
    assert_eq!(ListInstance::length(xs), 3);
    assert_eq!(ListInstance::length(List::<i32>::empty()), 0);
}

#[test]
fn test_list_apply_uses_clones_of_values() {
    let gs = List::from(vec![|s: String| s + "!", |s: String| s + "?"]);
    let xs = List::from(vec!["a".to_string(), "b".to_string()]);
    let r = ListInstance::apply(gs, xs);
    assert_eq!(r, List::from(vec!["a!".to_string(), "b!".to_string(), "a?".to_string(), "b?".to_string()]));
}
