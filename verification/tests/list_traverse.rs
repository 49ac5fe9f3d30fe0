use functional::list::{List, ListInstance};

#[test]
fn test_list_traverse_list_cartesian() {
    let r = ListInstance::traverse_list(|x: i32| List::from(vec![x, x * 10]), List::from(vec![1, 2]));
    let expected = List::from(vec![
        List::from(vec![1, 2]),
        List::from(vec![1, 20]),
        List::from(vec![10, 2]),
        List::from(vec![10, 20]),
    ]);
    assert_eq!(r, expected);
}

#[test]
fn test_list_traverse_list_empty_container() {
    let r = ListInstance::traverse_list(|x: i32| List::singleton(x), List::empty());
    assert_eq!(r, List::singleton(List::empty()));
}

#[test]
fn test_list_traverse_list_pure_effect() {
    let r = ListInstance::traverse_list(|x: i32| List::singleton(x + 1), List::from(vec![1, 2, 3]));
    assert_eq!(r, List::singleton(List::from(vec![2, 3, 4])));
}

#[test]
fn test_list_traverse_list_empty_effect() {
    let r = ListInstance::traverse_list(
        |x: i32| if x == 2 { List::empty() } else { List::from(vec![x, -x]) },
        List::from(vec![1, 2, 3]),
    );
    assert_eq!(r, List::empty());
}

#[test]
fn test_list_traverse_list_uneven_choices() {
    let r = ListInstance::traverse_list(
        |x: i32| if x == 1 { List::from(vec![1, 2, 3]) } else { List::singleton(x) },
        List::from(vec![1, 5]),
    );
    assert_eq!(
        r,
        List::from(vec![List::from(vec![1, 5]), List::from(vec![2, 5]), List::from(vec![3, 5])])
    );
}
