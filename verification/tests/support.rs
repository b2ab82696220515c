use temper_core::bits::DenseBitVector;
use temper_core::config::{Config, ConfigBuilder};
use temper_core::deque;
use temper_core::error::Error;
use temper_core::generator::SafeGeneratorFnAdapter;
use temper_core::promise::SingleThreadAsyncRunner;

#[test]
fn bits_read_back_what_was_written() {
    let mut bits = DenseBitVector::with_capacity(4);
    assert!(!bits.get(0));
    assert!(!bits.get(200));
    bits.set(3, true);
    bits.set(200, true);
    assert!(bits.get(3));
    assert!(bits.get(200));
    assert!(!bits.get(2));
    assert!(!bits.get(4));
    bits.set(3, false);
    assert!(!bits.get(3));
    assert!(bits.get(200));
}

#[test]
fn deque_is_first_in_first_out() {
    let mut q = deque::new();
    assert!(deque::is_empty(&q));
    deque::add(&mut q, 1);
    deque::add(&mut q, 2);
    deque::add(&mut q, 3);
    assert!(!deque::is_empty(&q));
    assert_eq!(deque::remove_first(&mut q), 1);
    assert_eq!(deque::remove_first(&mut q), 2);
    deque::add(&mut q, 4);
    assert_eq!(deque::remove_first(&mut q), 3);
    assert_eq!(deque::remove_first(&mut q), 4);
    assert!(deque::is_empty(&q));
}

#[test]
fn errors_keep_their_message() {
    assert_eq!(Error::new().message, None);
    let e = Error::with_optional_message(Some("gone".to_string()));
    assert_eq!(e.message.as_deref(), Some("gone"));
    let wrapped = Error::with_source(e);
    assert_eq!(wrapped.message.as_deref(), Some("gone"));
}

type PlainRunnerConfig = Config<(), SafeGeneratorFnAdapter<(), fn() -> Option<()>>>;
type PlainRunnerBuilder = ConfigBuilder<(), SafeGeneratorFnAdapter<(), fn() -> Option<()>>>;

#[test]
fn config_defaults_to_a_fresh_runner() {
    let config: PlainRunnerConfig = Config::default();
    assert!(config.runner().idle());
}

#[test]
fn config_keeps_a_chosen_runner() {
    let mut builder: PlainRunnerBuilder = ConfigBuilder::default();
    builder.set_runner(SingleThreadAsyncRunner::new());
    let config = builder.build();
    assert!(config.runner().idle());
}
