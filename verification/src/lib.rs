//! Runtime support for code generated from a higher-level language:
//! a closed-world dynamic value model, a single-resolution promise,
//! a resumable computation abstraction, and a FIFO task scheduler,
//! together with the list, map, string and integer plumbing that
//! generated code leans on.

pub mod bits;
pub mod config;
pub mod deque;
pub mod dvm;
pub mod error;
pub mod generator;
pub mod ints;
pub mod list_builder;
pub mod listed;
pub mod mapped;
pub mod promise;
pub mod regex_support;
pub mod strings;
