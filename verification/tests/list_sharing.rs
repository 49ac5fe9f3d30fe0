use std::cell::Cell;

use functional::algebra::Semigroup;
use functional::either::Either;
use functional::list::{List, ListInstance};
use functional::maybe::Maybe;
use functional::validation::Validation;

/// A value whose clones remember how often they were cloned.
#[derive(Debug, PartialEq)]
struct Counted {
    value: i32,
    copies: u32,
}

impl Clone for Counted {
    fn clone(&self) -> Self {
        Counted { value: self.value, copies: self.copies + 1 }
    }
}

fn counted(value: i32) -> Counted {
    Counted { value, copies: 0 }
}

#[test]
fn test_list_clone_shares_cells() {
    let xs = List::from(vec![counted(1), counted(2)]);
    let ys = xs.clone();
    assert_eq!(ys, xs);
    match (&xs, &ys) {
        (List::Cons(a), List::Cons(b)) => assert!(std::sync::Arc::ptr_eq(a, b)),
        _ => unreachable!(),
    }
    assert_eq!(ys.head(), Maybe::Just(&counted(1)));
}

#[test]
fn test_list_decompose_moves_unshared_and_clones_shared() {
    let xs = List::from(vec![counted(1), counted(2)]);
    let (h, rest) = xs.decompose().option().unwrap();
    assert_eq!(h, counted(1));
    assert_eq!(rest, List::singleton(counted(2)));

    let xs = List::from(vec![counted(1), counted(2)]);
    let keep = xs.clone();
    let (h, _) = xs.decompose().option().unwrap();
    assert_eq!(h, Counted { value: 1, copies: 1 });
    assert_eq!(keep.head(), Maybe::Just(&counted(1)));
}

#[test]
fn test_list_append_clones_only_shared_cells() {
    let xs = List::from(vec![counted(1), counted(2)]);
    let r = xs.append(List::singleton(counted(3)));
    assert_eq!(r, List::from(vec![counted(1), counted(2), counted(3)]));

    let xs = List::from(vec![counted(1), counted(2)]);
    let keep = xs.clone();
    let r = xs.append(List::singleton(counted(3)));
    assert_eq!(
        r,
        List::from(vec![Counted { value: 1, copies: 1 }, Counted { value: 2, copies: 1 }, counted(3)])
    );
    assert_eq!(keep, List::from(vec![counted(1), counted(2)]));
}

#[test]
fn test_law_list_semigroup_associativity_with_clones() {
    let a = List::from(vec![1, 2]);
    let b = List::from(vec![3]);
    let c = List::from(vec![4, 5]);
    let lhs = a.clone().associate(b.clone()).associate(c.clone());
    let rhs = a.clone().associate(b.associate(c));
    assert_eq!(lhs, rhs);
    assert_eq!(lhs, List::from(vec![1, 2, 3, 4, 5]));
    assert_eq!(a, List::from(vec![1, 2]));
}

#[test]
fn test_list_traverse_either_all_right() {
    let r = ListInstance::traverse_either(|x: i32| Either::<String, i32>::Right(x * 10), List::from(vec![1, 2, 3]));
    assert_eq!(r, Either::Right(List::from(vec![10, 20, 30])));
    let r = ListInstance::traverse_either(|x: i32| Either::<String, i32>::Right(x), List::empty());
    assert_eq!(r, Either::Right(List::empty()));
}

#[test]
fn test_list_traverse_either_first_left() {
    let calls = Cell::new(0);
    let r = ListInstance::traverse_either(
        |x: i32| {
            calls.set(calls.get() + 1);
            if x % 2 == 0 { Either::Left(format!("even {}", x)) } else { Either::Right(x) }
        },
        List::from(vec![1, 2, 3, 4]),
    );
    assert_eq!(r, Either::Left("even 2".to_string()));
    assert_eq!(calls.get(), 4);
}

#[test]
fn test_list_traverse_validation_success() {
    let r = ListInstance::traverse_validation(
        |x: i32| Validation::<List<i32>, i32>::Success(x + 1),
        List::from(vec![1, 2]),
    );
    assert_eq!(r, Validation::Success(List::from(vec![2, 3])));
    let r = ListInstance::traverse_validation(|x: i32| Validation::<List<i32>, i32>::Success(x), List::empty());
    assert_eq!(r, Validation::Success(List::empty()));
}

#[test]
fn test_list_traverse_validation_accumulates_errors() {
    let check = |x: i32| {
        if x < 0 { Validation::Failure(List::singleton(x)) } else { Validation::Success(x * 2) }
    };
    let r = ListInstance::traverse_validation(check, List::from(vec![-1, 2, -3, 4, -5]));
    assert_eq!(r, Validation::Failure(List::from(vec![-1, -3, -5])));
    let r = ListInstance::traverse_validation(check, List::from(vec![1, -2]));
    assert_eq!(r, Validation::Failure(List::singleton(-2)));
    let r = ListInstance::traverse_validation(check, List::from(vec![1, 2]));
    assert_eq!(r, Validation::Success(List::from(vec![2, 4])));
}

#[test]
fn test_list_from_array() {
    let xs = List::from([1, 2, 3]);
    assert_eq!(xs, List::from(vec![1, 2, 3]));
    let (h, rest) = xs.decompose().option().unwrap();
    assert_eq!(h, 1);
    assert_eq!(rest, List::from([2, 3]));
    let empty: [i32; 0] = [];
    assert_eq!(List::from(empty), List::empty());
}
