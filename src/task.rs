use vstd::prelude::*;

verus! {

/// Why a task's computation produced no output.
#[derive(Clone, Copy, Debug, PartialEq, Eq, Structural)]
pub enum TaskError {
    /// The doubled input does not fit in a `u32`.
    Overflow,
}

/// Where a task stands. Transitions only go
/// `Pending -> Running -> Completed | Failed`.
#[derive(Clone, Copy, Debug, PartialEq, Eq, Structural)]
pub enum TaskState {
    Pending,
    Running,
    Completed(u32),
    Failed(TaskError),
}

/// How a runtime-visible future was settled.
#[derive(Clone, Copy, Debug, PartialEq, Eq, Structural)]
pub enum Settlement {
    Resolved(u32),
    Rejected(TaskError),
}

/// One unit of deferred native work: the input it was submitted with and
/// where it stands in its lifecycle.
#[derive(Clone, Copy, Debug, PartialEq, Eq, Structural)]
pub struct AsyncTask {
    pub input: u32,
    pub state: TaskState,
}

/// The value a task computes from its input: twice the input, or an error
/// when that does not fit in a `u32`.
pub open spec fn double_spec(x: u32) -> Result<u32, TaskError> {
    if 2 * x <= u32::MAX {
        Ok((2 * x) as u32)
    } else {
        Err(TaskError::Overflow)
    }
}

/// The state a task reaches once its computation returned `r`.
pub open spec fn finished_state(r: Result<u32, TaskError>) -> TaskState {
    match r {
        Ok(v) => TaskState::Completed(v),
        Err(e) => TaskState::Failed(e),
    }
}

/// The settlement a future receives from a task's computation result.
pub open spec fn settlement_of(r: Result<u32, TaskError>) -> Settlement {
    match r {
        Ok(v) => Settlement::Resolved(v),
        Err(e) => Settlement::Rejected(e),
    }
}

impl TaskState {
    pub open spec fn is_finished(self) -> bool {
        self is Completed || self is Failed
    }

    /// One step of the task lifecycle.
    pub open spec fn may_step_to(self, next: TaskState) -> bool {
        match self {
            TaskState::Pending => next is Running,
            TaskState::Running => next.is_finished(),
            _ => false,
        }
    }
}

/// The computation a task runs on a worker thread.
pub fn compute(input: u32) -> (r: Result<u32, TaskError>)
    ensures
        r == double_spec(input),
{
    match input.checked_mul(2) {
        Some(v) => Ok(v),
        None => Err(TaskError::Overflow),
    }
}

/// Converts a computation result into the settlement of its future.
pub fn settle(r: Result<u32, TaskError>) -> (s: Settlement)
    ensures
        s == settlement_of(r),
{
    match r {
        Ok(v) => Settlement::Resolved(v),
        Err(e) => Settlement::Rejected(e),
    }
}

} // verus!
