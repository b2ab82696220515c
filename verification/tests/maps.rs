use temper_core::listed::ListedTrait;
use temper_core::mapped::{mapped_to_list_with, MapBuilder, MappedTrait, Mapping, Pair};

#[test]
fn building_keeps_insertion_order_and_replaces_in_place() {
    let map = Mapping::new(vec![
        ("a".to_string(), 1),
        ("b".to_string(), 2),
        ("a".to_string(), 3),
        ("c".to_string(), 4),
    ]);
    assert_eq!(map.len(), 3);
    assert_eq!(map.get("a".to_string()).unwrap(), 3);
    assert_eq!(map.get("b".to_string()).unwrap(), 2);
    assert!(map.get("x".to_string()).is_err());
    let keys = map.keys();
    assert_eq!(keys.to_vec(), vec!["a", "b", "c"]);
    let values = map.values();
    assert_eq!(values.to_vec(), vec![3, 2, 4]);
}

#[test]
fn lookup_falls_back_when_absent() {
    let map = Mapping::new(vec![(1i32, 10i32)]);
    assert_eq!(map.get_or(1, -1), 10);
    assert_eq!(map.get_or(2, -1), -1);
    assert!(map.has(1));
    assert!(!map.has(2));
}

#[test]
fn builder_stores_and_removes() {
    let mut b: MapBuilder<String, i32> = MapBuilder::new();
    b.set("x".to_string(), 1);
    b.set("y".to_string(), 2);
    b.set("x".to_string(), 9);
    assert_eq!(b.len(), 2);
    assert_eq!(b.get("x".to_string()).unwrap(), 9);
    assert_eq!(b.keys().to_vec(), vec!["x", "y"]);
    assert_eq!(b.remove("x".to_string()).unwrap(), 9);
    assert!(b.remove("x".to_string()).is_err());
    assert_eq!(b.keys().to_vec(), vec!["y"]);
    b.clear();
    assert_eq!(b.len(), 0);
}

#[test]
fn conversions_carry_the_entries() {
    let mut b: MapBuilder<i32, i32> = MapBuilder::new();
    b.set(1, 10);
    b.set(2, 20);
    let map = b.to_map();
    assert_eq!(map.to_list().to_vec(), vec![(1, 10), (2, 20)]);
    let b2 = map.to_map_builder();
    assert_eq!(b2.to_list().to_vec(), vec![(1, 10), (2, 20)]);
}

#[test]
fn walking_entries_in_order() {
    let map = Mapping::new(vec![(1i32, 2i32), (3, 4)]);
    let rendered = mapped_to_list_with(&map, |k: i32, v: i32| k * 100 + v);
    assert_eq!(rendered.to_vec(), vec![102, 304]);
    let pair = (5i32, 6i32);
    assert_eq!(pair.key(), 5);
    assert_eq!(pair.value(), 6);
}
