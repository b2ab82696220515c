use vstd::prelude::*;

verus! {

/// A resumable computation: each call to `next` runs the underlying
/// driver for one turn, yielding a value, until a turn yields nothing,
/// after which the computation is permanently exhausted.
///
/// Implementors supply three ghost views: whether the computation is
/// exhausted (`spec_done`), how many turns the driver has run
/// (`spec_turns`), and a strictly decreasing measure over live turns
/// (`spec_fuel`), which lets schedulers drain a queue of computations
/// to completion.
pub trait SafeGeneratorTrait<T>: Sized {
    /// Whether the computation is exhausted.
    spec fn spec_done(&self) -> bool;

    /// How many times the driver has been invoked.
    spec fn spec_turns(&self) -> nat;

    /// Termination measure; strictly decreases on every live turn.
    spec fn spec_fuel(&self) -> nat;

    /// Which results one invocation of the underlying driver can
    /// produce from this state; a live turn must yield one of them.
    spec fn spec_yield_ok(&self, r: Option<T>) -> bool;

    /// Reports whether the computation is exhausted.
    fn done(&self) -> (r: bool)
        ensures
            r == self.spec_done(),
    ;

    /// Forcibly marks the computation exhausted without running the driver.
    fn close(&mut self)
        ensures
            final(self).spec_done(),
            final(self).spec_turns() == old(self).spec_turns(),
            final(self).spec_fuel() <= old(self).spec_fuel(),
    ;

    /// Runs one turn. On an exhausted computation this is a no-op that
    /// returns nothing and does not invoke the driver; otherwise the
    /// driver runs exactly once and its result is returned: an empty
    /// result marks the computation permanently exhausted, and a
    /// produced value leaves it advanceable as long as fuel remains.
    fn next(&mut self) -> (r: Option<T>)
        ensures
            old(self).spec_done() ==> r is None && *final(self) == *old(self),
            !old(self).spec_done() ==> final(self).spec_turns() == old(self).spec_turns() + 1,
            !old(self).spec_done() ==> final(self).spec_fuel() < old(self).spec_fuel(),
            !old(self).spec_done() ==> old(self).spec_yield_ok(r),
            !old(self).spec_done() && r is Some && old(self).spec_fuel() > 1
                ==> !final(self).spec_done(),
            r is None ==> final(self).spec_done(),
    ;
}

/// A driver built from a plain step function. The step function is
/// consulted once per live turn; a budget bounds how many turns may
/// run, so that draining a queue of these computations terminates.
#[verifier::reject_recursive_types(T)]
pub struct SafeGeneratorFnAdapter<T, F> where F: Fn() -> Option<T> {
    done: bool,
    budget: u64,
    generator_fn: F,
    turns: Ghost<nat>,
}

impl<T, F> SafeGeneratorFnAdapter<T, F> where F: Fn() -> Option<T> {
    #[verifier::type_invariant]
    spec fn wf(self) -> bool {
        !self.done ==> self.budget > 0 && call_requires(self.generator_fn, ())
    }

    /// The step function this adapter drives.
    pub closed spec fn spec_step_fn(&self) -> F {
        self.generator_fn
    }

    /// Builds an adapter around `generator_fn` that allows at most
    /// `budget` turns; a zero budget starts out exhausted.
    pub fn new(generator_fn: F, budget: u64) -> (r: Self)
        requires
            call_requires(generator_fn, ()),
        ensures
            r.spec_done() == (budget == 0),
            r.spec_turns() == 0,
            r.spec_fuel() == budget,
            r.spec_step_fn() == generator_fn,
    {
        SafeGeneratorFnAdapter {
            done: budget == 0,
            budget,
            generator_fn,
            turns: Ghost(0),
        }
    }

    /// Whether the adapter is exhausted.
    pub fn done(&self) -> (r: bool)
        ensures
            r == self.spec_done(),
    {
        self.done
    }

    /// Marks the adapter exhausted without consulting the step function.
    pub fn close(&mut self)
        ensures
            final(self).spec_done(),
            final(self).spec_turns() == old(self).spec_turns(),
            final(self).spec_fuel() <= old(self).spec_fuel(),
    {
        self.done = true;
    }
}

impl<T, F> SafeGeneratorTrait<T> for SafeGeneratorFnAdapter<T, F> where F: Fn() -> Option<T> {
    closed spec fn spec_done(&self) -> bool {
        self.done
    }

    closed spec fn spec_turns(&self) -> nat {
        self.turns@
    }

    closed spec fn spec_fuel(&self) -> nat {
        self.budget as nat
    }

    open spec fn spec_yield_ok(&self, r: Option<T>) -> bool {
        call_ensures(self.spec_step_fn(), (), r)
    }

    fn done(&self) -> (r: bool) {
        self.done
    }

    fn close(&mut self) {
        self.done = true;
    }

    fn next(&mut self) -> (r: Option<T>) {
        proof {
            use_type_invariant(&*self);
        }
        if self.done {
            return None;
        }
        let r = (self.generator_fn)();
        proof {
            self.turns@ = self.turns@ + 1;
        }
        self.done = r.is_none() || self.budget == 1;
        self.budget = self.budget - 1;
        r
    }
}

/// A handle around a resumable computation; schedulers hold their
/// queued computations through this type.
pub struct SafeGenerator<T, G> where G: SafeGeneratorTrait<T> {
    inner: G,
    _values: core::marker::PhantomData<T>,
}

impl<T, G> SafeGenerator<T, G> where G: SafeGeneratorTrait<T> {
    /// The wrapped driver.
    pub closed spec fn spec_driver(&self) -> G {
        self.inner
    }

    /// Whether the wrapped computation is exhausted.
    pub open spec fn spec_done(&self) -> bool {
        self.spec_driver().spec_done()
    }

    /// How many times the wrapped driver has been invoked.
    pub open spec fn spec_turns(&self) -> nat {
        self.spec_driver().spec_turns()
    }

    /// The wrapped computation's termination measure.
    pub open spec fn spec_fuel(&self) -> nat {
        self.spec_driver().spec_fuel()
    }

    /// Which results one live turn of the wrapped driver can produce.
    pub open spec fn spec_yield_ok(&self, r: Option<T>) -> bool {
        self.spec_driver().spec_yield_ok(r)
    }

    /// Wraps a driver in a handle.
    pub fn new(selfish: G) -> (r: SafeGenerator<T, G>)
        ensures
            r.spec_driver() == selfish,
    {
        SafeGenerator { inner: selfish, _values: core::marker::PhantomData }
    }

    /// Runs one turn of the wrapped computation; see
    /// [`SafeGeneratorTrait::next`].
    pub fn next(&mut self) -> (r: Option<T>)
        ensures
            old(self).spec_done() ==> r is None && *final(self) == *old(self),
            !old(self).spec_done() ==> final(self).spec_turns() == old(self).spec_turns() + 1,
            !old(self).spec_done() ==> final(self).spec_fuel() < old(self).spec_fuel(),
            !old(self).spec_done() ==> old(self).spec_yield_ok(r),
            !old(self).spec_done() && r is Some && old(self).spec_fuel() > 1
                ==> !final(self).spec_done(),
            r is None ==> final(self).spec_done(),
    {
        self.inner.next()
    }

    /// Reports whether the wrapped computation is exhausted.
    pub fn done(&self) -> (r: bool)
        ensures
            r == self.spec_done(),
    {
        self.inner.done()
    }

    /// Forcibly marks the wrapped computation exhausted.
    pub fn close(&mut self)
        ensures
            final(self).spec_done(),
            final(self).spec_turns() == old(self).spec_turns(),
            final(self).spec_fuel() <= old(self).spec_fuel(),
    {
        self.inner.close()
    }
}

impl<T, F> SafeGenerator<T, SafeGeneratorFnAdapter<T, F>> where F: Fn() -> Option<T> {
    /// Builds a computation from a plain step function, bounded to at
    /// most `budget` turns.
    pub fn from_fn(generator_fn: F, budget: u64) -> (r: SafeGenerator<T, SafeGeneratorFnAdapter<T, F>>)
        requires
            call_requires(generator_fn, ()),
        ensures
            r.spec_done() == (budget == 0),
            r.spec_turns() == 0,
            r.spec_fuel() == budget,
            r.spec_driver().spec_step_fn() == generator_fn,
    {
        SafeGenerator::new(SafeGeneratorFnAdapter::new(generator_fn, budget))
    }
}

} // verus!
