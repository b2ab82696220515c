use temper_core::listed::{List, ListedTrait};
use temper_core::strings::{
    cast_as_index, cast_as_no_index, cast_none_as_index_option, count_between, for_each,
    from_code_point, from_code_points, get, has_at_least, has_index, index_of, next, prev, slice,
    split, step, to_float64_ok, to_int, to_int64, AsStr,
};
use temper_core::strings::builder::{append, append_between, append_code_point, to_string};
use temper_core::regex_support::push_code_to;
use std::cell::RefCell;

#[test]
fn index_casts_are_plain() {
    assert_eq!(cast_none_as_index_option(()), None);
    assert_eq!(cast_as_index(Some(3)), Some(3));
    assert_eq!(cast_as_no_index(Some(3)), None);
    assert_eq!(cast_as_no_index(None), Some(()));
}

#[test]
fn builder_appends() {
    let mut b = String::new();
    append(&mut b, "hel");
    append(&mut b, "lo");
    assert_eq!(to_string(&b).as_str(), "hello");
    append_between(&mut b, "worlds", 1, 4);
    assert_eq!(b.as_str(), "helloorl");
    assert!(append_code_point(&mut b, 33).is_ok());
    assert_eq!(b.as_str(), "helloorl!");
    assert!(append_code_point(&mut b, 0xD800).is_err());
    assert!(append_code_point(&mut b, -1).is_err());
    assert_eq!(b.as_str(), "helloorl!");
}

#[test]
fn counting_respects_boundaries() {
    // "aéb" is four bytes: 'a', two for 'é', 'b'.
    let text = "a\u{e9}b";
    assert_eq!(count_between(text, 0, 4), 3);
    assert_eq!(count_between(text, 1, 4), 2);
    // An end inside 'é' snaps down, an inverted range counts nothing.
    assert_eq!(count_between(text, 0, 2), 1);
    assert_eq!(count_between(text, 3, 1), 0);
}

#[test]
fn reading_code_points() {
    let text = "a\u{e9}b";
    assert_eq!(get(text, 0), 97);
    assert_eq!(get(text, 1), 0xe9);
    // An index inside 'é' snaps down to its start.
    assert_eq!(get(text, 2), 0xe9);
    assert_eq!(get(text, 3), 98);
    assert!(has_index(text, 3));
    assert!(!has_index(text, 4));
}

#[test]
fn stepping_by_characters() {
    let text = "a\u{e9}b";
    assert_eq!(next(text, 0), 1);
    assert_eq!(next(text, 1), 3);
    assert_eq!(prev(text, 3), 1);
    assert_eq!(prev(text, 0), 0);
    assert_eq!(step(text, 0, 2), 3);
    assert_eq!(step(text, 4, -2), 1);
    // A step that cannot move stops early.
    assert_eq!(step(text, 0, -5), 0);
    assert_eq!(step(text, 0, 50), 4);
    // A start past the text steps back in from the end.
    assert_eq!(step(text, 9, -1), 4);
}

#[test]
fn has_at_least_counts_up_to_the_demand() {
    let text = "hello";
    assert!(has_at_least(text, 0, 5, 5));
    assert!(!has_at_least(text, 0, 5, 6));
    assert!(has_at_least(text, 0, 5, 0));
    // An empty snapped range answers only a demand of exactly zero.
    assert!(has_at_least(text, 3, 3, 0));
    assert!(!has_at_least(text, 3, 3, -1));
}

#[test]
fn slicing_snaps_and_copies() {
    let text = "a\u{e9}b";
    assert_eq!(slice(text, 1, 4).as_str(), "\u{e9}b");
    assert_eq!(slice(text, 2, 4).as_str(), "b");
    assert_eq!(slice(text, 3, 1).as_str(), "");
    assert_eq!(slice("hello", 1, 3).as_str(), "el");
}

#[test]
fn searching_bytes() {
    assert_eq!(index_of("hello world", "o", None), Some(4));
    assert_eq!(index_of("hello world", "o", Some(5)), Some(7));
    assert_eq!(index_of("hello world", "xyz", None), None);
    assert_eq!(index_of("hello", "", None), Some(0));
    assert_eq!(index_of("hello", "hello", None), Some(0));
}

#[test]
fn splitting_text() {
    let parts = split("a,b,,c", ",");
    let rendered: Vec<String> = parts.to_vec();
    assert_eq!(rendered, vec!["a", "b", "", "c"]);
    let chars = split("abc", "");
    assert_eq!(chars.to_vec(), vec!["a", "b", "c"]);
    let none = split("abc", ";");
    assert_eq!(none.to_vec(), vec!["abc"]);
    let edges = split(",x,", ",");
    assert_eq!(edges.to_vec(), vec!["", "x", ""]);
}

#[test]
fn visiting_each_code_point() {
    let seen = RefCell::new(Vec::new());
    for_each("a\u{e9}", |c: i32| seen.borrow_mut().push(c));
    assert_eq!(*seen.borrow(), vec![97, 0xe9]);
}

#[test]
fn building_from_code_points() {
    assert_eq!(from_code_point(72).unwrap().as_str(), "H");
    assert!(from_code_point(0x110000).is_err());
    let codes = List::with_vec(vec![72, 105, 33]);
    assert_eq!(from_code_points(&codes).unwrap().as_str(), "Hi!");
    let bad = List::with_vec(vec![72, 0xD800]);
    assert!(from_code_points(&bad).is_err());
}

#[test]
fn reading_integers() {
    assert_eq!(to_int(" 42 ", None).unwrap(), 42);
    assert_eq!(to_int("-2147483648", None).unwrap(), i32::MIN);
    assert!(to_int("2147483648", None).is_err());
    assert_eq!(to_int("+10", None).unwrap(), 10);
    assert_eq!(to_int("ff", Some(16)).unwrap(), 255);
    assert_eq!(to_int("FF", Some(16)).unwrap(), 255);
    assert_eq!(to_int("101", Some(2)).unwrap(), 5);
    assert!(to_int("", None).is_err());
    assert!(to_int("12a", None).is_err());
    assert!(to_int("-", None).is_err());
    assert!(to_int("5", Some(37)).is_err());
    assert!(to_int("5", Some(1)).is_err());
}

#[test]
fn reading_wide_integers() {
    assert_eq!(to_int64("9223372036854775807", None).unwrap(), i64::MAX);
    assert_eq!(to_int64("-9223372036854775808", None).unwrap(), i64::MIN);
    assert!(to_int64("9223372036854775808", None).is_err());
    assert_eq!(to_int64("\u{a0}7\u{a0}", None).unwrap(), 7);
}

#[test]
fn float_literal_shapes() {
    assert!(to_float64_ok("3.14"));
    assert!(to_float64_ok(" 2.0 "));
    assert!(to_float64_ok("1e5"));
    assert!(to_float64_ok("NaN"));
    assert!(to_float64_ok("-Infinity"));
    assert!(!to_float64_ok(".5"));
    assert!(!to_float64_ok("5."));
    assert!(!to_float64_ok("abc"));
    assert!(!to_float64_ok(""));
    assert!(!to_float64_ok("Infinit"));
}

#[test]
fn escaping_code_points_for_patterns() {
    let mut out = String::from("x");
    push_code_to(&mut out, 10, false);
    assert_eq!(out.as_str(), "x\\u{A}");
    let mut wide = String::new();
    push_code_to(&mut wide, 0x1F600, true);
    assert_eq!(wide.as_str(), "\\u{1F600}");
}

#[test]
fn text_views_agree() {
    let owned = String::from("abc");
    assert_eq!(AsStr::as_str(&owned), "abc");
    assert_eq!(AsStr::as_str("xy"), "xy");
}
