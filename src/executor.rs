use vstd::prelude::*;

use crate::task::{
    compute, double_spec, finished_state, settle, settlement_of, AsyncTask, Settlement, TaskError,
    TaskState,
};

verus! {

/// Why an executor operation was refused.
#[derive(Clone, Copy, Debug, PartialEq, Eq, Structural)]
pub enum ExecError {
    /// No task was submitted under this id.
    UnknownTask,
    /// The task was already picked up by a worker.
    NotPending,
    /// The task is not being run by a worker.
    NotRunning,
}

/// The mathematical state of an executor: the submitted tasks, the future of
/// each (`None` while pending), and the ids of finished tasks whose result
/// waits in the completion queue, oldest first.
pub struct ExecutorView {
    pub tasks: Seq<AsyncTask>,
    pub futures: Seq<Option<Settlement>>,
    pub completions: Seq<nat>,
}

impl ExecutorView {
    /// The settlement owed to the future of task `i`.
    pub open spec fn owed(self, i: int) -> Settlement {
        settlement_of(double_spec(self.tasks[i].input))
    }

    /// Task `id` has finished and its future is still unsettled.
    pub open spec fn awaits_drain(self, id: int) -> bool {
        &&& 0 <= id < self.tasks.len()
        &&& self.tasks[id].state.is_finished()
        &&& self.futures[id] is None
    }

    pub open spec fn wf(self) -> bool {
        &&& self.futures.len() == self.tasks.len()
        &&& forall|k: int|
            0 <= k < self.completions.len() ==> self.awaits_drain(
                #[trigger] self.completions[k] as int,
            )
        &&& forall|j: int, k: int|
            0 <= j < k < self.completions.len() ==> #[trigger] self.completions[j]
                != #[trigger] self.completions[k]
        &&& forall|i: int|
            0 <= i < self.tasks.len() && #[trigger] self.tasks[i].state.is_finished()
                && self.futures[i] is None ==> self.completions.contains(i as nat)
        &&& forall|i: int|
            0 <= i < self.tasks.len() && #[trigger] self.tasks[i].state.is_finished()
                ==> self.tasks[i].state == finished_state(double_spec(self.tasks[i].input))
        &&& forall|i: int|
            0 <= i < self.tasks.len() && #[trigger] self.futures[i] is Some ==> {
                &&& self.tasks[i].state.is_finished()
                &&& self.futures[i] == Some(self.owed(i))
            }
    }

    pub open spec fn submit_spec(self, input: u32) -> ExecutorView {
        ExecutorView {
            tasks: self.tasks.push(AsyncTask { input, state: TaskState::Pending }),
            futures: self.futures.push(None),
            completions: self.completions,
        }
    }

    pub open spec fn start_spec(self, id: int) -> ExecutorView {
        ExecutorView {
            tasks: self.tasks.update(id, AsyncTask { state: TaskState::Running, ..self.tasks[id] }),
            ..self
        }
    }

    pub open spec fn complete_spec(self, id: int) -> ExecutorView {
        ExecutorView {
            tasks: self.tasks.update(
                id,
                AsyncTask {
                    state: finished_state(double_spec(self.tasks[id].input)),
                    ..self.tasks[id]
                },
            ),
            futures: self.futures,
            completions: self.completions.push(id as nat),
        }
    }

    pub open spec fn drain_spec(self) -> ExecutorView {
        ExecutorView {
            tasks: self.tasks,
            futures: Seq::new(
                self.futures.len(),
                |i: int|
                    if self.completions.contains(i as nat) {
                        Some(self.owed(i))
                    } else {
                        self.futures[i]
                    },
            ),
            completions: Seq::empty(),
        }
    }

    /// Completes the running tasks `order[0]`, `order[1]`, ... in that order.
    pub open spec fn complete_all(self, order: Seq<nat>) -> ExecutorView
        decreases order.len(),
    {
        if order.len() == 0 {
            self
        } else {
            self.complete_spec(order[0] as int).complete_all(order.drop_first())
        }
    }
}

pub proof fn lemma_submit_wf(v: ExecutorView, input: u32)
    requires
        v.wf(),
    ensures
        v.submit_spec(input).wf(),
{
    let w = v.submit_spec(input);
    assert forall|i: int|
        0 <= i < w.tasks.len() && #[trigger] w.tasks[i].state.is_finished() && w.futures[i] is None
        implies w.completions.contains(i as nat) by {
        assert(i < v.tasks.len());
    }
}

pub proof fn lemma_start_wf(v: ExecutorView, id: int)
    requires
        v.wf(),
        0 <= id < v.tasks.len(),
        v.tasks[id].state is Pending,
    ensures
        v.start_spec(id).wf(),
{
    let w = v.start_spec(id);
    assert forall|k: int| 0 <= k < w.completions.len() implies w.awaits_drain(
        #[trigger] w.completions[k] as int,
    ) by {
        assert(v.tasks[v.completions[k] as int].state.is_finished());
    }
    assert forall|i: int|
        0 <= i < w.tasks.len() && #[trigger] w.futures[i] is Some implies {
        &&& w.tasks[i].state.is_finished()
        &&& w.futures[i] == Some(w.owed(i))
    } by {
        assert(v.tasks[i].state.is_finished());
    }
}

pub proof fn lemma_complete_wf(v: ExecutorView, id: int)
    requires
        v.wf(),
        0 <= id < v.tasks.len(),
        v.tasks[id].state is Running,
    ensures
        v.complete_spec(id).wf(),
{
    let w = v.complete_spec(id);
    assert(v.futures[id] is None);
    assert(!v.completions.contains(id as nat));
    assert forall|k: int| 0 <= k < w.completions.len() implies w.awaits_drain(
        #[trigger] w.completions[k] as int,
    ) by {
        if k < v.completions.len() {
            assert(v.tasks[v.completions[k] as int].state.is_finished());
        }
    }
    assert forall|j: int, k: int|
        0 <= j < k < w.completions.len() implies w.completions[j] != w.completions[k] by {
        if k == v.completions.len() {
            assert(v.completions[j] != id as nat);
        }
    }
    assert forall|i: int|
        0 <= i < w.tasks.len() && #[trigger] w.tasks[i].state.is_finished() && w.futures[i] is None
        implies w.completions.contains(i as nat) by {
        if i == id {
            assert(w.completions[v.completions.len() as int] == id as nat);
        } else {
            assert(v.tasks[i].state.is_finished());
            let k = choose|k: int| 0 <= k < v.completions.len() && v.completions[k] == i as nat;
            assert(w.completions[k] == i as nat);
        }
    }
    assert forall|i: int|
        0 <= i < w.tasks.len() && #[trigger] w.futures[i] is Some implies {
        &&& w.tasks[i].state.is_finished()
        &&& w.futures[i] == Some(w.owed(i))
    } by {
        assert(v.tasks[i].state.is_finished());
    }
}

pub proof fn lemma_drain_wf(v: ExecutorView)
    requires
        v.wf(),
    ensures
        v.drain_spec().wf(),
        forall|i: int|
            0 <= i < v.tasks.len() && #[trigger] v.tasks[i].state.is_finished()
                ==> v.drain_spec().futures[i] == Some(v.owed(i)),
{
    let w = v.drain_spec();
    assert forall|i: int|
        0 <= i < w.tasks.len() && #[trigger] w.futures[i] is Some implies {
        &&& w.tasks[i].state.is_finished()
        &&& w.futures[i] == Some(w.owed(i))
    } by {
        if v.completions.contains(i as nat) {
            let k = choose|k: int| 0 <= k < v.completions.len() && v.completions[k] == i as nat;
            assert(v.tasks[v.completions[k] as int].state.is_finished());
        }
    }
    assert forall|i: int|
        0 <= i < v.tasks.len() && #[trigger] v.tasks[i].state.is_finished()
        implies w.futures[i] == Some(v.owed(i)) by {
        if v.futures[i] is None {
            assert(v.completions.contains(i as nat));
        }
    }
}

/// Settling a submitted task: once a worker has started and completed the
/// task submitted with `input`, and the runtime has drained the completion
/// queue, its future holds the task's result (its doubled input) or its error.
pub proof fn lemma_submitted_task_settles(v: ExecutorView, input: u32)
    requires
        v.wf(),
    ensures
        ({
            let id = v.tasks.len() as int;
            let w = v.submit_spec(input).start_spec(id).complete_spec(id).drain_spec();
            &&& w.wf()
            &&& w.futures[id] == Some(settlement_of(double_spec(input)))
        }),
{
    let id = v.tasks.len() as int;
    let v1 = v.submit_spec(input);
    lemma_submit_wf(v, input);
    let v2 = v1.start_spec(id);
    lemma_start_wf(v1, id);
    let v3 = v2.complete_spec(id);
    lemma_complete_wf(v2, id);
    lemma_drain_wf(v3);
    assert(v3.tasks[id].state.is_finished());
    assert(v3.tasks[id].input == input);
}

proof fn lemma_complete_all(v: ExecutorView, order: Seq<nat>)
    requires
        v.wf(),
        forall|k: int| 0 <= k < order.len() ==> #[trigger] order[k] < v.tasks.len(),
        forall|k: int| 0 <= k < order.len() ==> v.tasks[#[trigger] order[k] as int].state is Running,
        forall|j: int, k: int| 0 <= j < k < order.len() ==> #[trigger] order[j] != #[trigger] order[k],
    ensures
        v.complete_all(order).wf(),
        v.complete_all(order).tasks.len() == v.tasks.len(),
        forall|k: int|
            0 <= k < order.len() ==> v.complete_all(order).tasks[#[trigger] order[k] as int].input
                == v.tasks[order[k] as int].input,
        forall|k: int|
            0 <= k < order.len() ==> v.complete_all(order).tasks[#[trigger] order[k] as int].state.is_finished(),
        forall|i: int|
            0 <= i < v.tasks.len() && #[trigger] v.tasks[i].state.is_finished() ==> v.complete_all(
                order,
            ).tasks[i] == v.tasks[i],
    decreases order.len(),
{
    if order.len() > 0 {
        let id = order[0] as int;
        let w = v.complete_spec(id);
        lemma_complete_wf(v, id);
        let rest = order.drop_first();
        assert forall|k: int| 0 <= k < rest.len() implies w.tasks[#[trigger] rest[k] as int].state is Running by {
            assert(order[k + 1] != order[0]);
        }
        lemma_complete_all(w, rest);
        assert forall|k: int|
            0 <= k < order.len() implies v.complete_all(order).tasks[#[trigger] order[k] as int].state.is_finished()
            && v.complete_all(order).tasks[order[k] as int].input == v.tasks[order[k] as int].input by {
            if k > 0 {
                assert(order[k] == rest[k - 1]);
            } else {
                assert(w.tasks[id].state.is_finished());
            }
        }
        assert forall|i: int|
            0 <= i < v.tasks.len() && #[trigger] v.tasks[i].state.is_finished() implies v.complete_all(
                order,
            ).tasks[i] == v.tasks[i] by {
            assert(i != id);
            assert(w.tasks[i].state.is_finished());
        }
    }
}

/// Completion order does not matter: whatever order the workers finish a set
/// of running tasks in, once the runtime drains the completion queue the
/// future of each of those tasks holds that task's own result.
pub proof fn lemma_any_completion_order(v: ExecutorView, order: Seq<nat>)
    requires
        v.wf(),
        forall|k: int| 0 <= k < order.len() ==> #[trigger] order[k] < v.tasks.len(),
        forall|k: int| 0 <= k < order.len() ==> v.tasks[#[trigger] order[k] as int].state is Running,
        forall|j: int, k: int| 0 <= j < k < order.len() ==> #[trigger] order[j] != #[trigger] order[k],
    ensures
        v.complete_all(order).drain_spec().wf(),
        forall|k: int|
            0 <= k < order.len() ==> v.complete_all(order).drain_spec().futures[#[trigger] order[k] as int]
                == Some(settlement_of(double_spec(v.tasks[order[k] as int].input))),
{
    let w = v.complete_all(order);
    lemma_complete_all(v, order);
    lemma_drain_wf(w);
    assert forall|k: int|
        0 <= k < order.len() implies w.drain_spec().futures[#[trigger] order[k] as int]
            == Some(settlement_of(double_spec(v.tasks[order[k] as int].input))) by {
        assert(w.tasks[order[k] as int].state.is_finished());
    }
}

/// Runs native tasks off the runtime thread and settles each task's future
/// exactly once, when the runtime drains the completion queue.
pub struct Executor {
    tasks: Vec<AsyncTask>,
    futures: Vec<Option<Settlement>>,
    completions: Vec<usize>,
}

impl View for Executor {
    type V = ExecutorView;

    closed spec fn view(&self) -> ExecutorView {
        ExecutorView {
            tasks: self.tasks@,
            futures: self.futures@,
            completions: self.completions@.map_values(|id: usize| id as nat),
        }
    }
}

impl Executor {
    /// An executor with no tasks.
    pub fn new() -> (r: Executor)
        ensures
            r@.wf(),
            r@.tasks.len() == 0,
            r@.completions.len() == 0,
    {
        let r = Executor { tasks: Vec::new(), futures: Vec::new(), completions: Vec::new() };
        assert(r@.tasks.len() == 0);
        r
    }

    /// Creates a pending task for `input` and returns its id, under which its
    /// future is observed.
    pub fn submit(&mut self, input: u32) -> (id: usize)
        requires
            old(self)@.wf(),
            old(self)@.tasks.len() < usize::MAX,
        ensures
            id == old(self)@.tasks.len(),
            final(self)@ == old(self)@.submit_spec(input),
            final(self)@.wf(),
    {
        proof {
            lemma_submit_wf(self@, input);
        }
        let id = self.tasks.len();
        self.tasks.push(AsyncTask { input, state: TaskState::Pending });
        self.futures.push(None);
        proof {
            assert(self@.tasks =~= old(self)@.submit_spec(input).tasks);
        }
        id
    }

    /// A worker picks up task `id`: it moves from pending to running, and its
    /// input is handed to the worker.
    pub fn start(&mut self, id: usize) -> (r: Result<u32, ExecError>)
        requires
            old(self)@.wf(),
        ensures
            final(self)@.wf(),
            id >= old(self)@.tasks.len() ==> r == Err::<u32, ExecError>(ExecError::UnknownTask)
                && final(self)@ == old(self)@,
            id < old(self)@.tasks.len() && !(old(self)@.tasks[id as int].state is Pending) ==> r
                == Err::<u32, ExecError>(ExecError::NotPending) && final(self)@ == old(self)@,
            id < old(self)@.tasks.len() && old(self)@.tasks[id as int].state is Pending ==> r == Ok::<
                u32,
                ExecError,
            >(old(self)@.tasks[id as int].input) && final(self)@ == old(self)@.start_spec(id as int),
    {
        if id >= self.tasks.len() {
            return Err(ExecError::UnknownTask);
        }
        let task = self.tasks[id];
        match task.state {
            TaskState::Pending => {},
            _ => {
                return Err(ExecError::NotPending);
            },
        }
        proof {
            lemma_start_wf(self@, id as int);
        }
        self.tasks.set(id, AsyncTask { input: task.input, state: TaskState::Running });
        proof {
            assert(self@.tasks =~= old(self)@.start_spec(id as int).tasks);
        }
        Ok(task.input)
    }

    /// The worker running task `id` computes its result and hands it to the
    /// completion queue; the task is then completed or failed.
    pub fn complete(&mut self, id: usize) -> (r: Result<(), ExecError>)
        requires
            old(self)@.wf(),
        ensures
            final(self)@.wf(),
            id >= old(self)@.tasks.len() ==> r == Err::<(), ExecError>(ExecError::UnknownTask)
                && final(self)@ == old(self)@,
            id < old(self)@.tasks.len() && !(old(self)@.tasks[id as int].state is Running) ==> r
                == Err::<(), ExecError>(ExecError::NotRunning) && final(self)@ == old(self)@,
            id < old(self)@.tasks.len() && old(self)@.tasks[id as int].state is Running ==> r
                == Ok::<(), ExecError>(()) && final(self)@ == old(self)@.complete_spec(id as int),
    {
        if id >= self.tasks.len() {
            return Err(ExecError::UnknownTask);
        }
        let task = self.tasks[id];
        match task.state {
            TaskState::Running => {},
            _ => {
                return Err(ExecError::NotRunning);
            },
        }
        proof {
            lemma_complete_wf(self@, id as int);
        }
        let state = match compute(task.input) {
            Ok(v) => TaskState::Completed(v),
            Err(e) => TaskState::Failed(e),
        };
        self.tasks.set(id, AsyncTask { input: task.input, state });
        self.completions.push(id);
        proof {
            assert(self@.tasks =~= old(self)@.complete_spec(id as int).tasks);
            assert(self@.completions =~= old(self)@.complete_spec(id as int).completions);
        }
        Ok(())
    }

    /// The runtime drains the completion queue: each finished task's future is
    /// settled with its result, in queue order, and the settlements are
    /// returned with their task ids.
    pub fn drain(&mut self) -> (r: Vec<(usize, Settlement)>)
        requires
            old(self)@.wf(),
        ensures
            final(self)@ == old(self)@.drain_spec(),
            final(self)@.wf(),
            forall|i: int|
                0 <= i < old(self)@.tasks.len() && old(self)@.tasks[i].state.is_finished()
                    ==> #[trigger] final(self)@.futures[i] == Some(old(self)@.owed(i)),
            r@.len() == old(self)@.completions.len(),
            forall|k: int|
                0 <= k < r@.len() ==> #[trigger] r@[k] == (
                    old(self)@.completions[k] as usize,
                    old(self)@.owed(old(self)@.completions[k] as int),
                ),
    {
        proof {
            lemma_drain_wf(self@);
        }
        let ghost v = self@;
        let mut out: Vec<(usize, Settlement)> = Vec::new();
        let n = self.completions.len();
        let mut k: usize = 0;
        while k < n
            invariant
                v.wf(),
                n == v.completions.len(),
                k <= n,
                self.tasks@ == v.tasks,
                self.completions@.map_values(|id: usize| id as nat) == v.completions,
                self.futures@.len() == v.futures.len(),
                forall|i: int|
                    0 <= i < v.futures.len() ==> #[trigger] self.futures@[i] == if v.completions.take(
                        k as int,
                    ).contains(i as nat) {
                        Some(v.owed(i))
                    } else {
                        v.futures[i]
                    },
                out@.len() == k,
                forall|j: int|
                    0 <= j < k ==> #[trigger] out@[j] == (
                        v.completions[j] as usize,
                        v.owed(v.completions[j] as int),
                    ),
            decreases n - k,
        {
            let id = self.completions[k];
            assert(v.completions[k as int] == id as nat);
            assert(v.awaits_drain(v.completions[k as int] as int));
            let s = settle(compute(self.tasks[id].input));
            let ghost before = self.futures@;
            self.futures.set(id, Some(s));
            out.push((id, s));
            assert forall|i: int| 0 <= i < v.futures.len() implies #[trigger] self.futures@[i]
                == if v.completions.take(k + 1).contains(i as nat) {
                    Some(v.owed(i))
                } else {
                    v.futures[i]
                } by {
                let t0 = v.completions.take(k as int);
                let t1 = v.completions.take(k + 1);
                assert(t1 =~= t0.push(id as nat));
                if i == id as int {
                    assert(t1[k as int] == id as nat);
                    assert(t1.contains(i as nat));
                } else {
                    if t0.contains(i as nat) {
                        let j = choose|j: int| 0 <= j < t0.len() && t0[j] == i as nat;
                        assert(t1[j] == i as nat);
                    }
                    if t1.contains(i as nat) {
                        let j = choose|j: int| 0 <= j < t1.len() && t1[j] == i as nat;
                        assert(t0[j] == i as nat);
                    }
                }
                assert(before[i] == if v.completions.take(k as int).contains(i as nat) {
                    Some(v.owed(i))
                } else {
                    v.futures[i]
                });
            }
            k = k + 1;
        }
        self.completions = Vec::new();
        proof {
            assert(v.completions.take(n as int) =~= v.completions);
            assert(self@.futures =~= v.drain_spec().futures);
            assert(self@.completions =~= v.drain_spec().completions);
        }
        out
    }

    /// How the future of task `id` stands: `None` while unsettled.
    pub fn future(&self, id: usize) -> (r: Option<Settlement>)
        requires
            self@.wf(),
            id < self@.tasks.len(),
        ensures
            r == self@.futures[id as int],
    {
        self.futures[id]
    }

    /// Where task `id` stands in its lifecycle.
    pub fn state(&self, id: usize) -> (r: TaskState)
        requires
            self@.wf(),
            id < self@.tasks.len(),
        ensures
            r == self@.tasks[id as int].state,
    {
        self.tasks[id].state
    }

    /// The number of submitted tasks.
    pub fn len(&self) -> (r: usize)
        ensures
            r == self@.tasks.len(),
    {
        self.tasks.len()
    }
}

} // verus!
