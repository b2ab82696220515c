use vstd::prelude::*;
use crate::generator::SafeGeneratorTrait;
use crate::promise::{AsyncRunner, SingleThreadAsyncRunner};

verus! {

/// The process-wide runtime configuration: built once at start and
/// then threaded through read-only, it names the scheduler that
/// generated code hands its computations to.
pub struct Config<T, G> where G: SafeGeneratorTrait<T> {
    pub runner: AsyncRunner<T, G>,
}

impl<T, G> Config<T, G> where G: SafeGeneratorTrait<T> {
    /// The configured scheduler.
    pub fn runner(&self) -> (r: &AsyncRunner<T, G>)
        ensures
            r == &self.runner,
    {
        &self.runner
    }
}

impl<T, G> Default for Config<T, G> where G: SafeGeneratorTrait<T> {
    /// A configuration around a fresh reference scheduler.
    fn default() -> (r: Config<T, G>)
        ensures
            r.runner.pending().len() == 0,
            r.runner.executed().len() == 0,
    {
        ConfigBuilder::default().build()
    }
}

/// Accumulates the choices that make up a [`Config`].
pub struct ConfigBuilder<T, G> where G: SafeGeneratorTrait<T> {
    pub runner: Option<AsyncRunner<T, G>>,
}

impl<T, G> ConfigBuilder<T, G> where G: SafeGeneratorTrait<T> {
    /// Finishes the configuration; where no scheduler was chosen, a
    /// fresh reference scheduler is used.
    pub fn build(self) -> (r: Config<T, G>)
        ensures
            self.runner matches Some(chosen) ==> r.runner == chosen,
            self.runner is None ==> r.runner.pending().len() == 0 && r.runner.executed().len()
                == 0,
    {
        match self.runner {
            Some(runner) => Config { runner },
            None => Config { runner: SingleThreadAsyncRunner::new() },
        }
    }

    /// Chooses the scheduler.
    pub fn set_runner(&mut self, runner: AsyncRunner<T, G>)
        ensures
            final(self).runner == Some(runner),
    {
        self.runner = Some(runner);
    }
}

impl<T, G> Default for ConfigBuilder<T, G> where G: SafeGeneratorTrait<T> {
    /// A builder with no choices made yet.
    fn default() -> (r: ConfigBuilder<T, G>)
        ensures
            r.runner is None,
    {
        ConfigBuilder { runner: None }
    }
}

} // verus!
