use vstd::prelude::*;

verus! {

/// The error value produced by the runtime's fallible operations.
///
/// Failures carry at most a message; the common case is an empty
/// marker error.
#[derive(Clone, Debug)]
pub struct Error {
    pub message: Option<String>,
}

impl Error {
    /// A bare failure marker with no message.
    pub fn new() -> (r: Error)
        ensures
            r.message is None,
    {
        Error { message: None }
    }

    /// A failure that carries `message` when one is given.
    pub fn with_optional_message(message: Option<String>) -> (r: Error)
        ensures
            r.message == message,
    {
        Error { message }
    }

    /// A failure caused by an earlier error; the cause's message is kept.
    pub fn with_source(source: Error) -> (r: Error)
        ensures
            r.message == source.message,
    {
        Error { message: source.message }
    }
}

} // verus!
