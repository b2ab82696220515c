use vstd::prelude::*;
use std::collections::VecDeque;

verus! {

/// The runtime's first-in, first-out work queue.
pub type Deque<T> = VecDeque<T>;

/// An empty queue.
pub fn new<T>() -> (r: Deque<T>)
    ensures
        r@.len() == 0,
{
    VecDeque::new()
}

/// Appends a value behind all queued work.
pub fn add<T>(deque: &mut Deque<T>, value: T)
    ensures
        final(deque)@ == old(deque)@.push(value),
{
    deque.push_back(value);
}

/// Whether the queue holds nothing.
pub fn is_empty<T>(deque: &Deque<T>) -> (r: bool)
    ensures
        r == (deque@.len() == 0),
{
    deque.len() == 0
}

/// Removes and returns the oldest queued value; the queue must hold
/// one.
pub fn remove_first<T>(deque: &mut Deque<T>) -> (r: T)
    requires
        old(deque)@.len() > 0,
    ensures
        r == old(deque)@[0],
        final(deque)@ == old(deque)@.drop_first(),
{
    let r = deque.pop_front().unwrap();
    proof {
        assert(deque@ =~= old(deque)@.drop_first());
    }
    r
}

} // verus!
