use temper_core::dvm::{
    cast, is, AnyValue, IdSource, Payload, TAG_ANY, TAG_BOOL, TAG_INT32, TAG_INT64, TAG_STRING,
    TAG_UNIT, TAG_USER,
};

#[test]
fn identities_of_one_allocation_agree() {
    let mut ids = IdSource::new();
    let value = AnyValue::new(&true, &mut ids);
    let shared = value.share();
    let view = value.cast(TAG_ANY).unwrap();
    assert_eq!(value.identity(), shared.identity());
    assert_eq!(value.identity(), view.identity());
}

#[test]
fn identities_of_distinct_wraps_differ() {
    let mut ids = IdSource::new();
    let first = AnyValue::new(&true, &mut ids);
    let second = AnyValue::new(&true, &mut ids);
    let third = AnyValue::new(&7i32, &mut ids);
    assert_ne!(first.identity(), second.identity());
    assert_ne!(first.identity(), third.identity());
    assert_ne!(second.identity(), third.identity());
}

#[test]
fn cast_succeeds_exactly_when_is_holds() {
    let mut ids = IdSource::new();
    let registered = AnyValue {
        id: ids.fresh(),
        concrete: TAG_USER,
        interfaces: vec![TAG_USER + 1, TAG_USER + 2],
        payload: Payload::Opaque,
    };
    for tag in [
        TAG_ANY,
        TAG_BOOL,
        TAG_INT32,
        TAG_INT64,
        TAG_STRING,
        TAG_USER,
        TAG_USER + 1,
        TAG_USER + 2,
        TAG_USER + 3,
    ] {
        assert_eq!(registered.cast(tag).is_some(), registered.is_tag(tag));
    }
    assert!(registered.is_tag(TAG_ANY));
    assert!(registered.is_tag(TAG_USER));
    assert!(registered.is_tag(TAG_USER + 1));
    assert!(!registered.is_tag(TAG_BOOL));
}

#[test]
fn unsupported_capability_is_recoverable() {
    let mut ids = IdSource::new();
    let value = AnyValue::new(&42i64, &mut ids);
    assert!(value.cast(TAG_BOOL).is_none());
    assert!(value.cast(TAG_INT64).is_some());
}

#[test]
fn cast_views_rewrap_the_same_allocation() {
    let mut ids = IdSource::new();
    let value = AnyValue::new(&5i32, &mut ids);
    let view = value.cast(TAG_INT32).unwrap();
    assert_eq!(view.identity(), value.identity());
    assert_eq!(view.concrete, TAG_INT32);
    match view.payload {
        Payload::Int32(x) => assert_eq!(x, 5),
        _ => panic!(),
    }
}

#[test]
fn free_is_and_cast_agree_for_plain_values() {
    let mut ids = IdSource::new();
    assert!(is(&true, TAG_ANY));
    assert!(is(&true, TAG_BOOL));
    assert!(!is(&true, TAG_INT32));
    assert!(cast(&true, TAG_BOOL, &mut ids).is_some());
    assert!(cast(&true, TAG_INT32, &mut ids).is_none());
    let text = String::from("hello");
    assert!(is(&text, TAG_STRING));
    assert!(cast(&text, TAG_STRING, &mut ids).is_some());
    assert!(is(&(), TAG_UNIT));
    assert!(!is(&(), TAG_BOOL));
    assert!(cast(&(), TAG_UNIT, &mut ids).is_some());
}
