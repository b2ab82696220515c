use vstd::prelude::*;
use std::collections::VecDeque;
use crate::generator::{SafeGenerator, SafeGeneratorTrait};
use crate::listed::is_permutation;

verus! {

/// A single-resolution promise cell.
///
/// The cell starts pending and settles at most once, to either a
/// success value or an opaque failure; every later completion attempt
/// is a no-op. At most one continuation token of type `K` can wait on
/// the cell; registering a second replaces the first. The cell never
/// runs a continuation itself: transition methods hand back the token
/// that the caller must now run, so any scheduler can interpret it.
pub struct Promise<T, K> {
    /// `None` while pending; `Some(Ok(v))` after success, `Some(Err(()))`
    /// after failure.
    pub outcome: Option<Result<T, ()>>,
    /// The one registered continuation token, if any.
    pub next: Option<K>,
}

impl<T, K> Promise<T, K> {
    /// Whether the promise has settled.
    pub open spec fn spec_resolved(&self) -> bool {
        self.outcome is Some
    }

    /// The transition taken by [`PromiseBuilder::complete`]: the new
    /// cell state, and the continuation token the caller must now run.
    pub open spec fn spec_complete(self, value: T) -> (Promise<T, K>, Option<K>) {
        if self.outcome is Some {
            (self, None)
        } else {
            (Promise { outcome: Some(Ok(value)), next: None }, self.next)
        }
    }

    /// The transition taken by [`PromiseBuilder::break_promise`].
    pub open spec fn spec_break(self) -> (Promise<T, K>, Option<K>) {
        if self.outcome is Some {
            (self, None)
        } else {
            (Promise { outcome: Some(Err(())), next: None }, self.next)
        }
    }

    /// The transition taken by [`Promise::on_ready`]: the new cell
    /// state, and the token to run immediately when already settled.
    pub open spec fn spec_on_ready(self, next: K) -> (Promise<T, K>, Option<K>) {
        if self.outcome is Some {
            (self, Some(next))
        } else {
            (Promise { outcome: self.outcome, next: Some(next) }, None)
        }
    }

    /// Reports whether the promise has settled.
    pub fn resolved(&self) -> (r: bool)
        ensures
            r == self.spec_resolved(),
    {
        self.outcome.is_some()
    }

    /// The settled outcome. The promise blocks its caller until it is
    /// settled, so a call demands a settled cell; a still-pending cell
    /// would never answer.
    pub fn get(&self) -> (r: Result<T, ()>) where T: Clone
        requires
            self.spec_resolved(),
        ensures
            self.outcome matches Some(Ok(v)) ==> (r matches Ok(w) && cloned::<T>(v, w)),
            self.outcome matches Some(Err(e)) ==> r is Err,
    {
        match &self.outcome {
            Some(Ok(v)) => Ok(v.clone()),
            Some(Err(_)) => Err(()),
            None => {
                proof {
                    assert(false);
                }
                Err(())
            },
        }
    }

    /// The settled outcome, or nothing while the promise is pending.
    pub fn try_get(&self) -> (r: Option<Result<T, ()>>) where T: Clone
        ensures
            self.outcome is None ==> r is None,
            self.outcome matches Some(Ok(v)) ==> (r matches Some(i) && i matches Ok(w) && cloned::<T>(v, w)),
            self.outcome matches Some(Err(e)) ==> r == Some(Result::<T, ()>::Err(())),
    {
        match &self.outcome {
            Some(Ok(v)) => Some(Ok(v.clone())),
            Some(Err(_)) => Some(Err(())),
            None => None,
        }
    }

    /// Registers a one-shot continuation token. On a settled promise
    /// the token comes straight back and the caller runs it now; on a
    /// pending promise it is stored — replacing any earlier token —
    /// and will be handed out by the settling transition.
    pub fn on_ready(&mut self, next: K) -> (run_now: Option<K>)
        ensures
            (*final(self), run_now) == old(self).spec_on_ready(next),
    {
        if self.outcome.is_some() {
            Some(next)
        } else {
            self.next = Some(next);
            None
        }
    }

    /// Takes the registered continuation token out of the cell, if any.
    pub fn next(&mut self) -> (r: Option<K>)
        ensures
            r == old(self).next,
            final(self).next is None,
            final(self).outcome == old(self).outcome,
    {
        self.next.take()
    }
}

/// The producer side of a promise: it owns the cell and performs the
/// settling transitions.
pub struct PromiseBuilder<T, K> {
    pub promise: Promise<T, K>,
}

impl<T, K> PromiseBuilder<T, K> {
    /// A fresh, still-pending promise.
    pub fn new() -> (r: PromiseBuilder<T, K>)
        ensures
            r.promise.outcome is None,
            r.promise.next is None,
    {
        PromiseBuilder { promise: Promise { outcome: None, next: None } }
    }

    /// Settles the promise with a success value. The first settling
    /// attempt wins; on an already settled promise this is a no-op.
    /// Returns the continuation token the caller must now run.
    pub fn complete(&mut self, value: T) -> (run: Option<K>)
        ensures
            (final(self).promise, run) == old(self).promise.spec_complete(value),
    {
        if self.promise.outcome.is_some() {
            None
        } else {
            self.promise.outcome = Some(Ok(value));
            self.promise.next.take()
        }
    }

    /// Settles the promise with an opaque failure, under the same
    /// first-writer-wins rule as [`Self::complete`].
    pub fn break_promise(&mut self) -> (run: Option<K>)
        ensures
            (final(self).promise, run) == old(self).promise.spec_break(),
    {
        if self.promise.outcome.is_some() {
            None
        } else {
            self.promise.outcome = Some(Err(()));
            self.promise.next.take()
        }
    }

    /// The consumer view of the cell.
    pub fn promise(&self) -> (r: &Promise<T, K>)
        ensures
            r == &self.promise,
    {
        &self.promise
    }

    /// Registers a continuation on the owned cell; see
    /// [`Promise::on_ready`].
    pub fn on_ready(&mut self, next: K) -> (run_now: Option<K>)
        ensures
            (final(self).promise, run_now) == old(self).promise.spec_on_ready(next),
    {
        self.promise.on_ready(next)
    }
}

/// Combined termination measure of a queue of computations.
pub open spec fn queue_fuel<T, G: SafeGeneratorTrait<T>>(tasks: Seq<SafeGenerator<T, G>>) -> nat
    decreases tasks.len(),
{
    if tasks.len() == 0 {
        0
    } else {
        tasks[0].spec_fuel() + queue_fuel(tasks.drop_first())
    }
}

proof fn lemma_queue_fuel_push<T, G: SafeGeneratorTrait<T>>(
    tasks: Seq<SafeGenerator<T, G>>,
    gen: SafeGenerator<T, G>,
)
    ensures
        queue_fuel(tasks.push(gen)) == queue_fuel(tasks) + gen.spec_fuel(),
    decreases tasks.len(),
{
    let pushed = tasks.push(gen);
    assert(pushed.len() == tasks.len() + 1);
    assert(queue_fuel(pushed) == pushed[0].spec_fuel() + queue_fuel(pushed.drop_first()));
    if tasks.len() == 0 {
        assert(pushed[0] == gen);
        assert(pushed.drop_first() =~= Seq::<SafeGenerator<T, G>>::empty());
        assert(queue_fuel(pushed.drop_first()) == 0);
    } else {
        lemma_queue_fuel_push(tasks.drop_first(), gen);
        assert(pushed[0] == tasks[0]);
        assert(pushed.drop_first() =~= tasks.drop_first().push(gen));
        assert(queue_fuel(tasks) == tasks[0].spec_fuel() + queue_fuel(tasks.drop_first()));
    }
}

/// A pluggable scheduler of fire-and-forget computations. An accepted
/// computation is driven one turn at a time until it reports
/// exhaustion; each turn's yielded value is discarded. Acceptance
/// order is kept: `pending` lists the queued computations oldest
/// first, and `executed` records, oldest first, the state each
/// computation had just before one of its turns ran.
pub trait AsyncRunnerTrait<T, G: SafeGeneratorTrait<T>>: Sized {
    /// The queued computations, oldest first.
    spec fn pending(&self) -> Seq<SafeGenerator<T, G>>;

    /// The pre-turn states of all turns run so far, oldest first.
    spec fn executed(&self) -> Seq<SafeGenerator<T, G>>;

    /// Accepts a computation, placing it behind all queued work.
    fn run_async(&mut self, task: SafeGenerator<T, G>)
        ensures
            final(self).pending() == old(self).pending().push(task),
            final(self).executed() == old(self).executed(),
    ;

    /// Drives queued computations until none is left, and hands the
    /// exhausted computations back. Every computation queued at the
    /// start runs, in acceptance order, before any turn that this
    /// drain itself re-enqueues: strict FIFO gives breadth-first
    /// expansion of continuations. Each queued computation comes back
    /// exhausted, its driver having been run past its queued state;
    /// an empty queue makes the drain a no-op.
    fn run_all_blocking(&mut self) -> (finished: Vec<SafeGenerator<T, G>>)
        ensures
            final(self).pending().len() == 0,
            final(self).executed().len() >= old(self).executed().len() + old(self).pending().len(),
            final(self).executed().take(old(self).executed().len() as int) == old(self).executed(),
            final(self).executed().subrange(
                old(self).executed().len() as int,
                old(self).executed().len() + old(self).pending().len() as int,
            ) == old(self).pending(),
            old(self).pending().len() == 0 ==> *final(self) == *old(self),
            finished@.len() == old(self).pending().len(),
            exists|perm: Seq<int>|
                #[trigger] is_permutation(perm, old(self).pending().len() as int) && forall|i: int|
                    0 <= i < finished@.len() ==> {
                        &&& (#[trigger] finished@[i]).spec_done()
                        &&& finished@[i].spec_turns() >= old(self).pending()[perm[i]].spec_turns()
                        &&& (!old(self).pending()[perm[i]].spec_done() ==> finished@[i].spec_turns()
                            > old(self).pending()[perm[i]].spec_turns())
                    },
    ;
}

/// Moving the front of the queued origins to the back of the queue
/// keeps the combined origin list a permutation.
proof fn lemma_origin_requeue(fin: Seq<int>, q: Seq<int>, n: int)
    requires
        is_permutation(fin + q, n),
        q.len() > 0,
    ensures
        is_permutation(fin + q.drop_first().push(q[0]), n),
{
    let older = fin + q;
    let newer = fin + q.drop_first().push(q[0]);
    let f = fin.len() as int;
    let last = newer.len() - 1;
    assert(newer.len() == older.len());
    assert forall|k: int| 0 <= k < newer.len() implies #[trigger] newer[k] == older[
        (if k < f {
            k
        } else if k < last {
            k + 1
        } else {
            f
        })
    ] by {
        if k < f {
        } else if k < last {
            assert(newer[k] == q.drop_first().push(q[0])[k - f]);
            assert(q.drop_first().push(q[0])[k - f] == q.drop_first()[k - f]);
            assert(q.drop_first()[k - f] == q[k - f + 1]);
            assert(older[k + 1] == q[k + 1 - f]);
        } else {
            assert(newer[k] == q.drop_first().push(q[0])[k - f]);
            assert(q.drop_first().push(q[0])[k - f] == q[0]);
            assert(older[f] == q[0]);
        }
    }
    assert forall|k: int| 0 <= k < newer.len() implies 0 <= #[trigger] newer[k] < n by {
        let at = if k < f {
            k
        } else if k < last {
            k + 1
        } else {
            f
        };
        assert(newer[k] == older[at]);
    }
    assert forall|k1: int, k2: int| 0 <= k1 < k2 < newer.len() implies newer[k1] != newer[k2] by {
        let a1 = if k1 < f {
            k1
        } else if k1 < last {
            k1 + 1
        } else {
            f
        };
        let a2 = if k2 < f {
            k2
        } else if k2 < last {
            k2 + 1
        } else {
            f
        };
        assert(newer[k1] == older[a1]);
        assert(newer[k2] == older[a2]);
        if a1 < a2 {
            assert(older[a1] != older[a2]);
        } else {
            assert(a2 < a1);
            assert(older[a2] != older[a1]);
        }
    }
}

/// The reference scheduler: a FIFO queue drained on the calling
/// thread. Within one runner no two turns ever overlap.
pub struct SingleThreadAsyncRunner<T, G> where G: SafeGeneratorTrait<T> {
    tasks: VecDeque<SafeGenerator<T, G>>,
    history: Ghost<Seq<SafeGenerator<T, G>>>,
}

impl<T, G> SingleThreadAsyncRunner<T, G> where G: SafeGeneratorTrait<T> {
    /// A fresh runner with an empty queue, wrapped as a scheduler
    /// handle.
    pub fn new() -> (r: AsyncRunner<T, G>)
        ensures
            r.pending().len() == 0,
            r.executed().len() == 0,
    {
        AsyncRunner::new(SingleThreadAsyncRunner {
            tasks: VecDeque::new(),
            history: Ghost(Seq::empty()),
        })
    }
}

impl<T, G> AsyncRunnerTrait<T, G> for SingleThreadAsyncRunner<T, G> where G: SafeGeneratorTrait<T> {
    closed spec fn pending(&self) -> Seq<SafeGenerator<T, G>> {
        self.tasks@
    }

    closed spec fn executed(&self) -> Seq<SafeGenerator<T, G>> {
        self.history@
    }

    fn run_async(&mut self, task: SafeGenerator<T, G>) {
        self.tasks.push_back(task);
    }

    fn run_all_blocking(&mut self) -> (finished: Vec<SafeGenerator<T, G>>) {
        let ghost initial_tasks = self.tasks@;
        let ghost initial_history = self.history@;
        let ghost n = initial_tasks.len() as int;
        let ghost mut first_round: int = 0;
        let mut finished: Vec<SafeGenerator<T, G>> = Vec::new();
        let ghost mut fin_origin: Seq<int> = Seq::empty();
        let ghost mut q_origin: Seq<int> = Seq::new(initial_tasks.len(), |i: int| i);
        if self.tasks.len() == 0 {
            proof {
                assert(self.history@.take(initial_history.len() as int) =~= initial_history);
                assert(self.history@.subrange(
                    initial_history.len() as int,
                    initial_history.len() as int,
                ) =~= initial_tasks);
                assert(is_permutation(Seq::<int>::empty(), 0));
            }
            return finished;
        }
        proof {
            assert forall|j: int| 0 <= j < n implies #[trigger] q_origin[j] == j by {}
            assert(fin_origin + q_origin =~= q_origin);
            assert(is_permutation(fin_origin + q_origin, n));
        }
        while self.tasks.len() > 0
            invariant
                n == initial_tasks.len(),
                0 <= first_round <= initial_tasks.len(),
                self.history@.len() >= initial_history.len() + first_round,
                self.history@.take(initial_history.len() as int) == initial_history,
                self.history@.subrange(
                    initial_history.len() as int,
                    initial_history.len() + first_round,
                ) == initial_tasks.take(first_round),
                first_round < initial_tasks.len() ==> {
                    &&& self.history@.len() == initial_history.len() + first_round
                    &&& self.tasks@.len() >= initial_tasks.len() - first_round
                    &&& self.tasks@.take(initial_tasks.len() - first_round)
                        == initial_tasks.skip(first_round)
                },
                q_origin.len() == self.tasks@.len(),
                fin_origin.len() == finished@.len(),
                is_permutation(fin_origin + q_origin, n),
                forall|j: int| 0 <= j < q_origin.len() ==> 0 <= #[trigger] q_origin[j] < n,
                forall|j: int| 0 <= j < fin_origin.len() ==> 0 <= #[trigger] fin_origin[j] < n,
                forall|j: int|
                    0 <= j < self.tasks@.len() ==> (#[trigger] self.tasks@[j]).spec_turns()
                        >= initial_tasks[q_origin[j]].spec_turns(),
                forall|j: int|
                    0 <= j < self.tasks@.len() ==> ((#[trigger] self.tasks@[j]).spec_done()
                        ==> initial_tasks[q_origin[j]].spec_done()),
                forall|j: int|
                    0 <= j < finished@.len() ==> {
                        &&& (#[trigger] finished@[j]).spec_done()
                        &&& finished@[j].spec_turns() >= initial_tasks[fin_origin[j]].spec_turns()
                        &&& (!initial_tasks[fin_origin[j]].spec_done() ==> finished@[j].spec_turns()
                            > initial_tasks[fin_origin[j]].spec_turns())
                    },
            decreases queue_fuel(self.tasks@) + self.tasks@.len(),
        {
            let ghost tasks_before = self.tasks@;
            let ghost history_before = self.history@;
            let ghost fr = first_round;
            let ghost remaining = initial_tasks.len() - fr;
            let ghost q_origin_before = q_origin;
            let ghost fin_origin_before = fin_origin;
            let ghost org = q_origin[0];
            let mut gen = self.tasks.pop_front().unwrap();
            let ghost gen_before = gen;
            proof {
                q_origin = q_origin.drop_first();
                self.history@ = self.history@.push(gen_before);
                assert(self.history@.take(initial_history.len() as int) =~= initial_history);
                if fr < initial_tasks.len() {
                    assert(tasks_before.take(remaining)[0] == initial_tasks.skip(fr)[0]);
                    assert(gen_before == initial_tasks[fr]);
                    first_round = fr + 1;
                    assert forall|i: int|
                        initial_history.len() <= i < initial_history.len() + first_round
                        implies self.history@[i] == initial_tasks[i - initial_history.len()] by {
                        if i < initial_history.len() + fr {
                            assert(history_before.subrange(
                                initial_history.len() as int,
                                initial_history.len() + fr,
                            )[i - initial_history.len()] == initial_tasks.take(fr)[i
                                - initial_history.len()]);
                        }
                    }
                    assert(self.history@.subrange(
                        initial_history.len() as int,
                        initial_history.len() + first_round,
                    ) =~= initial_tasks.take(first_round));
                } else {
                    assert forall|i: int|
                        initial_history.len() <= i < initial_history.len() + first_round
                        implies self.history@[i] == initial_tasks[i - initial_history.len()] by {
                        assert(history_before.subrange(
                            initial_history.len() as int,
                            initial_history.len() + first_round,
                        )[i - initial_history.len()] == initial_tasks.take(first_round)[i
                            - initial_history.len()]);
                    }
                    assert(self.history@.subrange(
                        initial_history.len() as int,
                        initial_history.len() + first_round,
                    ) =~= initial_tasks.take(first_round));
                }
            }
            let _turn = gen.next();
            if !gen.done() {
                self.tasks.push_back(gen);
                proof {
                    lemma_queue_fuel_push(tasks_before.drop_first(), gen);
                    q_origin = q_origin.push(org);
                    lemma_origin_requeue(fin_origin, q_origin_before, n);
                    assert(fin_origin + q_origin =~= fin_origin + q_origin_before.drop_first().push(
                        org,
                    ));
                    assert forall|j: int|
                        0 <= j < self.tasks@.len() implies (#[trigger] self.tasks@[j]).spec_turns()
                            >= initial_tasks[q_origin[j]].spec_turns() && ((
                        self.tasks@[j]).spec_done() ==> initial_tasks[q_origin[j]].spec_done()) by {
                        if j < self.tasks@.len() - 1 {
                            assert(self.tasks@[j] == tasks_before[j + 1]);
                            assert(q_origin[j] == q_origin_before[j + 1]);
                        } else {
                            assert(self.tasks@[j] == gen);
                            assert(q_origin[j] == org);
                            assert(gen_before == tasks_before[0]);
                            assert(!gen_before.spec_done());
                        }
                    }
                }
            } else {
                finished.push(gen);
                proof {
                    fin_origin = fin_origin.push(org);
                    assert(fin_origin + q_origin =~= fin_origin_before + q_origin_before);
                    assert(is_permutation(fin_origin + q_origin, n));
                    assert forall|j: int|
                        0 <= j < self.tasks@.len() implies (#[trigger] self.tasks@[j]).spec_turns()
                            >= initial_tasks[q_origin[j]].spec_turns() && ((
                        self.tasks@[j]).spec_done() ==> initial_tasks[q_origin[j]].spec_done()) by {
                        assert(self.tasks@[j] == tasks_before[j + 1]);
                        assert(q_origin[j] == q_origin_before[j + 1]);
                    }
                    assert(gen_before == tasks_before[0]);
                    assert(gen_before.spec_turns() >= initial_tasks[org].spec_turns());
                    if gen_before.spec_done() {
                        assert(gen == gen_before);
                        assert(initial_tasks[org].spec_done());
                    } else {
                        assert(gen.spec_turns() == gen_before.spec_turns() + 1);
                    }
                    assert(fin_origin[fin_origin.len() - 1] == org);
                    assert(finished@[finished@.len() - 1] == gen);
                    assert forall|j: int|
                        0 <= j < finished@.len() implies {
                            &&& (#[trigger] finished@[j]).spec_done()
                            &&& finished@[j].spec_turns() >= initial_tasks[fin_origin[j]].spec_turns()
                            &&& (!initial_tasks[fin_origin[j]].spec_done()
                                ==> finished@[j].spec_turns()
                                > initial_tasks[fin_origin[j]].spec_turns())
                        } by {
                        if j < finished@.len() - 1 {
                            assert(finished@[j] == finished@.drop_last()[j]);
                            assert(fin_origin[j] == fin_origin_before[j]);
                        }
                    }
                }
            }
            proof {
                if first_round < initial_tasks.len() {
                    assert forall|i: int| 0 <= i < initial_tasks.len() - first_round
                        implies self.tasks@[i] == initial_tasks[first_round + i] by {
                        assert(self.tasks@[i] == tasks_before[i + 1]);
                        assert(tasks_before.take(remaining)[i + 1] == initial_tasks.skip(fr)[i
                            + 1]);
                    }
                    assert(self.tasks@.take(initial_tasks.len() - first_round)
                        =~= initial_tasks.skip(first_round));
                }
            }
        }
        proof {
            assert(self.history@.subrange(
                initial_history.len() as int,
                initial_history.len() + first_round,
            ) == initial_tasks.take(first_round));
            assert(first_round == initial_tasks.len());
            assert(initial_tasks.take(first_round) =~= initial_tasks);
            assert(fin_origin + q_origin =~= fin_origin);
            assert(is_permutation(fin_origin, n));
        }
        finished
    }
}

/// The scheduler handle that generated code threads through its
/// configuration; it wraps the reference runner.
pub struct AsyncRunner<T, G> where G: SafeGeneratorTrait<T> {
    inner: SingleThreadAsyncRunner<T, G>,
}

impl<T, G> AsyncRunner<T, G> where G: SafeGeneratorTrait<T> {
    /// The queued computations, oldest first.
    pub closed spec fn pending(&self) -> Seq<SafeGenerator<T, G>> {
        self.inner.pending()
    }

    /// The pre-turn states of all turns run so far, oldest first.
    pub closed spec fn executed(&self) -> Seq<SafeGenerator<T, G>> {
        self.inner.executed()
    }

    /// Wraps a runner in a scheduler handle.
    pub fn new(selfish: SingleThreadAsyncRunner<T, G>) -> (r: AsyncRunner<T, G>)
        ensures
            r.pending() == selfish.pending(),
            r.executed() == selfish.executed(),
    {
        AsyncRunner { inner: selfish }
    }

    /// Starts a computation: it is queued behind all earlier work and
    /// will be driven, turn by turn, by the next drain.
    pub fn run_async(&mut self, gen: SafeGenerator<T, G>)
        ensures
            final(self).pending() == old(self).pending().push(gen),
            final(self).executed() == old(self).executed(),
    {
        self.inner.run_async(gen);
    }

    /// Whether no work is queued.
    pub fn idle(&self) -> (r: bool)
        ensures
            r == (self.pending().len() == 0),
    {
        self.inner.tasks.len() == 0
    }

    /// Drives queued computations to exhaustion and hands the
    /// exhausted computations back; see
    /// [`AsyncRunnerTrait::run_all_blocking`].
    pub fn run_all_blocking(&mut self) -> (finished: Vec<SafeGenerator<T, G>>)
        ensures
            final(self).pending().len() == 0,
            final(self).executed().len() >= old(self).executed().len() + old(self).pending().len(),
            final(self).executed().take(old(self).executed().len() as int) == old(self).executed(),
            final(self).executed().subrange(
                old(self).executed().len() as int,
                old(self).executed().len() + old(self).pending().len() as int,
            ) == old(self).pending(),
            old(self).pending().len() == 0 ==> *final(self) == *old(self),
            finished@.len() == old(self).pending().len(),
            exists|perm: Seq<int>|
                #[trigger] is_permutation(perm, old(self).pending().len() as int) && forall|i: int|
                    0 <= i < finished@.len() ==> {
                        &&& (#[trigger] finished@[i]).spec_done()
                        &&& finished@[i].spec_turns() >= old(self).pending()[perm[i]].spec_turns()
                        &&& (!old(self).pending()[perm[i]].spec_done() ==> finished@[i].spec_turns()
                            > old(self).pending()[perm[i]].spec_turns())
                    },
    {
        self.inner.run_all_blocking()
    }
}

/// Settling is one-shot and monotone: after a success with `x`, the
/// cell holds `x` forever — later completions and failures change
/// nothing and run no continuation — and the settled outcome that
/// `get` answers with is exactly `Ok(x)`.
pub proof fn lemma_complete_is_permanent<T, K>(p: Promise<T, K>, x: T, y: T)
    requires
        !p.spec_resolved(),
    ensures
        ({
            let (settled, _) = p.spec_complete(x);
            &&& settled.outcome == Some(Result::<T, ()>::Ok(x))
            &&& settled.spec_complete(y) == (settled, Option::<K>::None)
            &&& settled.spec_break() == (settled, Option::<K>::None)
        }),
{
}

/// A continuation is delivered exactly once: registered on a pending
/// promise it is stored, the settling transition hands exactly that
/// token back to be run, and the cell afterwards holds no token, so
/// no later transition can deliver it again.
pub proof fn lemma_continuation_delivered_once<T, K>(p: Promise<T, K>, k: K, x: T)
    requires
        !p.spec_resolved(),
    ensures
        ({
            let (waiting, run_now) = p.spec_on_ready(k);
            let (settled, run) = waiting.spec_complete(x);
            &&& run_now is None
            &&& run == Some(k)
            &&& settled.next is None
            &&& settled.spec_complete(x).1 is None
            &&& settled.spec_break().1 is None
        }),
{
}

/// Failure is as permanent as success: after a failure, the cell
/// reports the failure forever, and later completions and failures
/// change nothing and run no continuation.
pub proof fn lemma_break_is_permanent<T, K>(p: Promise<T, K>, y: T)
    requires
        !p.spec_resolved(),
    ensures
        ({
            let (settled, _) = p.spec_break();
            &&& settled.outcome == Some(Result::<T, ()>::Err(()))
            &&& settled.spec_complete(y) == (settled, Option::<K>::None)
            &&& settled.spec_break() == (settled, Option::<K>::None)
        }),
{
}

/// A continuation registered after settling is handed straight back to
/// be run now, and the cell is left unchanged.
pub proof fn lemma_on_ready_after_settling<T, K>(p: Promise<T, K>, k: K)
    requires
        p.spec_resolved(),
    ensures
        p.spec_on_ready(k) == (p, Some(k)),
{
}

} // verus!
