use temper_core::list_builder::{add, add_all, clear, new_builder, remove_last, reverse, sort, splice};
use temper_core::listed::{
    filter, for_each, join, list_for_each, reduce, reduce_from, slice, sorted, List, ListBuilder,
    Listed, ListedTrait, ToList, ToListBuilder, ToListed,
};
use std::cell::RefCell;

#[test]
fn reading_through_the_listed_trait() {
    let list = List::with_vec(vec![10, 20, 30]);
    assert_eq!(list.len(), 3);
    assert!(!list.is_empty());
    assert_eq!(list.get(1), 20);
    assert_eq!(list.get_or(2, -1), 30);
    assert_eq!(list.get_or(9, -1), -1);
    assert_eq!(list.get_or(-4, -1), -1);
    assert_eq!(list.to_vec(), vec![10, 20, 30]);
    let snapshot = Listed::new(list);
    assert_eq!(snapshot.get(0), 10);
}

#[test]
fn filtering_keeps_order() {
    let list = List::with_vec(vec![1, 2, 3, 4, 5, 6]);
    let even = filter(&list, |x: i32| x % 2 == 0);
    assert_eq!(even.to_vec(), vec![2, 4, 6]);
}

#[test]
fn mapping_transforms_each_element() {
    let list = List::with_vec(vec![1, 2, 3]);
    let doubled = temper_core::listed::map(&list, |x: i32| x * 2);
    assert_eq!(doubled.to_vec(), vec![2, 4, 6]);
}

#[test]
fn joining_renders_with_separators() {
    let list = List::with_vec(vec![1, 2, 3]);
    assert_eq!(join(&list, ", ", |x: i32| x.to_string()).as_str(), "1, 2, 3");
    let one = List::with_vec(vec![7]);
    assert_eq!(join(&one, ", ", |x: i32| x.to_string()).as_str(), "7");
    let empty = List::with_vec(Vec::<i32>::new());
    assert_eq!(join(&empty, ", ", |x: i32| x.to_string()).as_str(), "");
    let method = Listed::new(List::with_vec(vec![4, 5]));
    assert_eq!(method.join("-", |x: i32| x.to_string()).as_str(), "4-5");
}

#[test]
fn reducing_folds_in_order() {
    let list = List::with_vec(vec![1, 2, 3, 4]);
    assert_eq!(reduce(&list, |a: i32, b: i32| a + b), 10);
    assert_eq!(reduce_from(&list, 100, |a: i32, b: i32| a - b), 90);
    assert_eq!(reduce(&List::with_vec(vec![5]), |a: i32, b: i32| a * b), 5);
}

#[test]
fn slicing_clamps_both_ends() {
    let list = List::with_vec(vec![0, 1, 2, 3, 4]);
    assert_eq!(slice(&list, 1, 3).to_vec(), vec![1, 2]);
    assert_eq!(slice(&list, -5, 2).to_vec(), vec![0, 1]);
    assert_eq!(slice(&list, 3, 99).to_vec(), vec![3, 4]);
    assert_eq!(slice(&list, 2, 2).to_vec(), Vec::<i32>::new());
}

#[test]
fn sorting_by_a_comparator() {
    let list = List::with_vec(vec![3, 1, 2]);
    let ascending = sorted(&list, |a: i32, b: i32| a - b);
    assert_eq!(ascending.to_vec(), vec![1, 2, 3]);
    let descending = Listed::new(list).sorted(|a: i32, b: i32| b - a);
    assert_eq!(descending.to_vec(), vec![3, 2, 1]);
}

#[test]
fn visiting_each_element() {
    let list = List::with_vec(vec![1, 2, 3]);
    let seen = RefCell::new(Vec::new());
    for_each(&list, |x: i32| seen.borrow_mut().push(x));
    assert_eq!(*seen.borrow(), vec![1, 2, 3]);
    let direct = RefCell::new(0);
    list_for_each(&vec![4, 5], |x: i32| *direct.borrow_mut() += x);
    assert_eq!(*direct.borrow(), 9);
}

#[test]
fn building_lists() {
    let mut b = new_builder();
    add(&mut b, 1, None);
    add(&mut b, 3, None);
    add(&mut b, 2, Some(1));
    assert_eq!(b.to_vec(), vec![1, 2, 3]);
    temper_core::list_builder::set(&mut b, 0, 9);
    assert_eq!(b.to_vec(), vec![9, 2, 3]);
    assert_eq!(remove_last(&mut b), 3);
    reverse(&mut b);
    assert_eq!(b.to_vec(), vec![2, 9]);
    add_all(&mut b, vec![7, 8], Some(1));
    assert_eq!(b.to_vec(), vec![2, 7, 8, 9]);
    add_all(&mut b, vec![0], None);
    assert_eq!(b.to_vec(), vec![2, 7, 8, 9, 0]);
    sort(&mut b, |a: i32, c: i32| a - c);
    assert_eq!(b.to_vec(), vec![0, 2, 7, 8, 9]);
    clear(&mut b);
    assert!(b.is_empty());
}

#[test]
fn splicing_replaces_a_stretch() {
    let mut b = ListBuilder::with_vec(vec![0, 1, 2, 3, 4]);
    let removed = splice(&mut b, Some(1), Some(2), Some(vec![9, 9, 9]));
    assert_eq!(removed.to_vec(), vec![1, 2]);
    assert_eq!(b.to_vec(), vec![0, 9, 9, 9, 3, 4]);
    let rest = splice(&mut b, Some(2), None, None::<Vec<i32>>);
    assert_eq!(rest.to_vec(), vec![9, 9, 3, 4]);
    assert_eq!(b.to_vec(), vec![0, 9]);
    let nothing = splice(&mut b, None, Some(0), None::<Vec<i32>>);
    assert_eq!(nothing.to_vec(), Vec::<i32>::new());
    assert_eq!(b.to_vec(), vec![0, 9]);
}

#[test]
fn conversions_between_shapes() {
    let list = vec![1, 2].to_list();
    assert_eq!(list.to_vec(), vec![1, 2]);
    let builder = vec![3, 4].to_list_builder();
    assert_eq!(builder.to_vec(), vec![3, 4]);
    let listed = vec![5].to_listed();
    assert_eq!(listed.to_vec(), vec![5]);
    let back: List<i32> = ListedTrait::to_list(&listed);
    assert_eq!(back.to_vec(), vec![5]);
    let again: ListBuilder<i32> = ListedTrait::to_list_builder(&back);
    assert_eq!(again.to_vec(), vec![5]);
}
