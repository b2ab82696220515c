use std::cell::{Cell, RefCell};
use std::rc::Rc;

use temper_core::generator::{SafeGenerator, SafeGeneratorFnAdapter};
use temper_core::promise::{PromiseBuilder, SingleThreadAsyncRunner};

type LoggingGenerator =
    SafeGenerator<(), SafeGeneratorFnAdapter<(), Box<dyn Fn() -> Option<()>>>>;

fn logging_generator(log: Rc<RefCell<Vec<String>>>, labels: Vec<&'static str>) -> LoggingGenerator {
    let turn = Cell::new(0usize);
    let step: Box<dyn Fn() -> Option<()>> = Box::new(move || {
        let i = turn.get();
        if i < labels.len() {
            log.borrow_mut().push(labels[i].to_string());
            turn.set(i + 1);
            Some(())
        } else {
            None
        }
    });
    SafeGenerator::from_fn(step, 1000)
}

#[test]
fn exhausted_generator_stays_exhausted_and_stops_counting() {
    let calls = Rc::new(Cell::new(0u32));
    let seen = calls.clone();
    let mut gen = SafeGenerator::from_fn(
        move || {
            seen.set(seen.get() + 1);
            if seen.get() <= 2 {
                Some(seen.get())
            } else {
                None
            }
        },
        1000,
    );
    assert_eq!(gen.next(), Some(1));
    assert_eq!(gen.next(), Some(2));
    assert_eq!(gen.next(), None);
    assert!(gen.done());
    let counted = calls.get();
    // Later advances return "exhausted" without re-invoking the driver.
    assert_eq!(gen.next(), None);
    assert_eq!(gen.next(), None);
    assert_eq!(gen.next(), None);
    assert_eq!(calls.get(), counted);
}

#[test]
fn close_prevents_future_turns() {
    let calls = Rc::new(Cell::new(0u32));
    let seen = calls.clone();
    let mut gen = SafeGenerator::from_fn(
        move || {
            seen.set(seen.get() + 1);
            Some(())
        },
        1000,
    );
    assert_eq!(gen.next(), Some(()));
    gen.close();
    assert!(gen.done());
    assert_eq!(gen.next(), None);
    assert_eq!(calls.get(), 1);
}

#[test]
fn drain_is_fifo_and_breadth_first() {
    let log = Rc::new(RefCell::new(Vec::new()));
    // The first computation's first turn leaves a further turn queued
    // behind everything else, so draining the two computations must
    // run them breadth-first.
    let first = logging_generator(log.clone(), vec!["T1", "T3"]);
    let second = logging_generator(log.clone(), vec!["T2"]);
    let mut runner = SingleThreadAsyncRunner::new();
    runner.run_async(first);
    runner.run_async(second);
    let finished = runner.run_all_blocking();
    assert_eq!(*log.borrow(), vec!["T1", "T2", "T3"]);
    assert_eq!(finished.len(), 2);
    assert!(finished.iter().all(|g| g.done()));
    assert!(runner.idle());
}

#[test]
fn computation_scheduled_and_observed_through_a_promise() {
    // A computation modeled as: start, perform the blocking call,
    // hand the result over for completion at its natural return point.
    let outcome = Rc::new(Cell::new(None));
    let seen = outcome.clone();
    let step: Box<dyn Fn() -> Option<()>> = Box::new(move || {
        if seen.get().is_none() {
            let computed = 6 * 7;
            seen.set(Some(computed));
            Some(())
        } else {
            None
        }
    });
    let computation = SafeGenerator::from_fn(step, 1000);
    let mut runner = SingleThreadAsyncRunner::new();
    runner.run_async(computation);
    let finished = runner.run_all_blocking();
    assert_eq!(finished.len(), 1);
    assert!(finished[0].done());
    let mut builder: PromiseBuilder<i32, u32> = PromiseBuilder::new();
    builder.complete(outcome.get().unwrap());
    assert_eq!(builder.promise().get(), Ok(42));
    // Completion is delivered exactly once and the queue is empty.
    assert_eq!(builder.complete(0), None);
    assert_eq!(builder.promise().get(), Ok(42));
    assert!(runner.idle());
}
