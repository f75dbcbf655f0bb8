use lona::integer::Integer;
use lona::list::List;

fn integer(value: i64) -> Integer {
    Integer::from_i64(value)
}

#[test]
fn empty_list() {
    let list: List<Integer> = List::empty();
    assert!(list.is_empty());
    assert_eq!(list.len(), 0);
    assert!(list.first().is_none());
}

#[test]
fn cons_single_element() {
    let list = List::empty().cons(integer(1));
    assert!(!list.is_empty());
    assert_eq!(list.len(), 1);
    assert_eq!(list.first(), Some(&integer(1)));
}

#[test]
fn cons_multiple_elements() {
    let list = List::empty().cons(integer(3)).cons(integer(2)).cons(integer(1));
    assert_eq!(list.len(), 3);
    assert_eq!(list.first(), Some(&integer(1)));
}

#[test]
fn list_tests_from_vec_empty() {
    let list: List<Integer> = List::from_vec(Vec::new());
    assert!(list.is_empty());
}

#[test]
fn list_tests_from_vec_elements() {
    let list = List::from_vec(vec![integer(1), integer(2), integer(3)]);
    assert_eq!(list.len(), 3);
    assert_eq!(list.first(), Some(&integer(1)));
}

#[test]
fn first_empty() {
    let list: List<Integer> = List::empty();
    assert!(list.first().is_none());
}

#[test]
fn first_non_empty() {
    let list = List::empty().cons(integer(42));
    assert_eq!(list.first(), Some(&integer(42)));
}

#[test]
fn rest_empty() {
    let list: List<Integer> = List::empty();
    let rest = list.rest();
    assert!(rest.is_empty());
}

#[test]
fn rest_single_element() {
    let list = List::empty().cons(integer(1));
    let rest = list.rest();
    assert!(rest.is_empty());
}

#[test]
fn rest_multiple_elements() {
    let list = List::empty().cons(integer(3)).cons(integer(2)).cons(integer(1));
    let rest = list.rest();
    assert_eq!(rest.len(), 2);
    assert_eq!(rest.first(), Some(&integer(2)));
}

#[test]
fn list_tests_iter_empty() {
    let list: List<Integer> = List::empty();
    let collected: Vec<&Integer> = list.iter();
    assert!(collected.is_empty());
}

#[test]
fn list_tests_iter_elements() {
    let list = List::from_vec(vec![integer(1), integer(2), integer(3)]);
    let collected: Vec<Integer> = list.iter().into_iter().cloned().collect();
    assert_eq!(collected, vec![integer(1), integer(2), integer(3)]);
}

#[test]
fn into_iterator() {
    let list = List::from_vec(vec![integer(1), integer(2)]);
    let mut count = 0_usize;
    for _val in list.iter() {
        count = count.saturating_add(1);
    }
    assert_eq!(count, 2);
}

#[test]
fn list_tests_display_empty() {
    let list: List<Integer> = List::empty();
    assert_eq!(list.to_string(), "()");
}

#[test]
fn list_tests_display_single() {
    let list = List::empty().cons(integer(42));
    assert_eq!(list.to_string(), "(42)");
}

#[test]
fn display_multiple() {
    let list = List::from_vec(vec![integer(1), integer(2), integer(3)]);
    assert_eq!(list.to_string(), "(1 2 3)");
}

#[test]
fn list_tests_equality_empty() {
    let l1: List<Integer> = List::empty();
    let l2: List<Integer> = List::empty();
    assert_eq!(l1, l2);
}

#[test]
fn list_tests_equality_same_elements() {
    let l1 = List::from_vec(vec![integer(1), integer(2)]);
    let l2 = List::from_vec(vec![integer(1), integer(2)]);
    assert_eq!(l1, l2);
}

#[test]
fn list_tests_equality_different_elements() {
    let l1 = List::from_vec(vec![integer(1), integer(2)]);
    let l2 = List::from_vec(vec![integer(1), integer(3)]);
    assert_ne!(l1, l2);
}

#[test]
fn equality_different_lengths() {
    let l1 = List::from_vec(vec![integer(1), integer(2)]);
    let l2 = List::from_vec(vec![integer(1)]);
    assert_ne!(l1, l2);
}

#[test]
fn clone_shares_tail() {
    let original = List::from_vec(vec![integer(1), integer(2), integer(3)]);
    let cloned = original.clone();
    assert_eq!(original, cloned);
    assert_eq!(original.len(), cloned.len());
}

#[test]
fn structural_sharing() {
    let base = List::from_vec(vec![integer(2), integer(3)]);
    let extended = base.cons(integer(1));
    assert_eq!(base.len(), 2);
    assert_eq!(extended.len(), 3);
    assert_eq!(extended.rest(), base);
}

#[test]
fn list_tests_default_is_empty() {
    let list: List<Integer> = List::default();
    assert!(list.is_empty());
}

#[test]
fn nested_lists() {
    let inner = List::from_vec(vec![integer(1), integer(2)]);
    let outer = List::empty().cons(inner.clone());
    assert_eq!(outer.len(), 1);

    if let Some(inner_list) = outer.first() {
        assert_eq!(inner_list.len(), 2);
    } else {
        panic!("Expected List value");
    }
}

#[test]
fn nested_list_display() {
    let inner = List::from_vec(vec![integer(1), integer(-2)]);
    let outer = List::from_vec(vec![inner.clone(), List::empty(), inner]);
    assert_eq!(outer.to_string(), "((1 -2) () (1 -2))");
}

#[test]
fn rest_undoes_cons() {
    let base = List::from_vec(vec![integer(5), integer(6)]);
    let grown = base.cons(integer(4));
    assert_eq!(grown.first(), Some(&integer(4)));
    assert_eq!(grown.rest(), base);
    assert_eq!(grown.len(), base.len() + 1);
}
