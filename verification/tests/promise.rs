use temper_core::promise::PromiseBuilder;

#[test]
fn complete_is_first_writer_wins() {
    let mut builder: PromiseBuilder<i32, u32> = PromiseBuilder::new();
    assert!(!builder.promise().resolved());
    assert_eq!(builder.complete(5), None);
    assert_eq!(builder.promise().get(), Ok(5));
    // Later completion attempts are no-ops.
    assert_eq!(builder.complete(9), None);
    assert_eq!(builder.break_promise(), None);
    assert_eq!(builder.promise().get(), Ok(5));
}

#[test]
fn break_promise_is_first_writer_wins() {
    let mut builder: PromiseBuilder<i32, u32> = PromiseBuilder::new();
    assert_eq!(builder.break_promise(), None);
    assert_eq!(builder.promise().get(), Err(()));
    assert_eq!(builder.complete(3), None);
    assert_eq!(builder.promise().get(), Err(()));
}

#[test]
fn try_get_reports_pending_then_settled() {
    let mut builder: PromiseBuilder<i32, u32> = PromiseBuilder::new();
    assert_eq!(builder.promise().try_get(), None);
    builder.complete(8);
    assert_eq!(builder.promise().try_get(), Some(Ok(8)));
}

#[test]
fn on_ready_after_settling_hands_the_token_straight_back() {
    let mut builder: PromiseBuilder<i32, &'static str> = PromiseBuilder::new();
    builder.complete(1);
    // The token comes back from the registration itself: the caller
    // runs it before `on_ready` returns.
    assert_eq!(builder.on_ready("continuation"), Some("continuation"));
    // The cell keeps no token behind.
    assert_eq!(builder.promise.next, None);
}

#[test]
fn on_ready_before_settling_delivers_exactly_once() {
    let mut builder: PromiseBuilder<i32, &'static str> = PromiseBuilder::new();
    assert_eq!(builder.on_ready("continuation"), None);
    // Settling hands the stored token out, exactly once and only then.
    assert_eq!(builder.complete(2), Some("continuation"));
    assert_eq!(builder.complete(2), None);
    assert_eq!(builder.break_promise(), None);
    assert_eq!(builder.promise.next, None);
}

#[test]
fn second_registration_replaces_the_first() {
    let mut builder: PromiseBuilder<i32, &'static str> = PromiseBuilder::new();
    assert_eq!(builder.on_ready("first"), None);
    assert_eq!(builder.on_ready("second"), None);
    assert_eq!(builder.complete(4), Some("second"));
}

#[test]
fn taking_the_continuation_empties_the_cell() {
    let mut builder: PromiseBuilder<i32, u32> = PromiseBuilder::new();
    builder.on_ready(11);
    assert_eq!(builder.promise.next(), Some(11));
    assert_eq!(builder.promise.next(), None);
}
