use native_bridge::executor::{ExecError, Executor};
use native_bridge::task::{compute, settle, Settlement, TaskError, TaskState};

#[test]
fn double_fifty_resolves_to_hundred_after_drain() {
    let mut ex = Executor::new();
    let id = ex.submit(50);
    assert_eq!(ex.future(id), None);
    run_to_completion_with(&mut ex, id, 50);
    assert_eq!(ex.future(id), None);
    let settled = ex.drain();
    assert_eq!(settled, vec![(id, Settlement::Resolved(100))]);
    assert_eq!(ex.future(id), Some(Settlement::Resolved(100)));
}

#[test]
fn double_zero_resolves_to_zero() {
    let mut ex = Executor::new();
    let first = ex.submit(50);
    let id = ex.submit(0);
    assert_eq!(id, first + 1);
    assert_eq!(ex.start(id), Ok(0));
    assert_eq!(ex.complete(id), Ok(()));
    assert_eq!(ex.drain(), vec![(id, Settlement::Resolved(0))]);
    assert_eq!(ex.future(id), Some(Settlement::Resolved(0)));
    assert_eq!(ex.future(first), None);
}

#[test]
fn tasks_finishing_out_of_order_get_their_own_results() {
    let mut ex = Executor::new();
    let inputs = [30u32, 10, 20];
    let ids: Vec<usize> = inputs.iter().map(|&x| ex.submit(x)).collect();
    for (&id, &x) in ids.iter().zip(inputs.iter()) {
        assert_eq!(ex.start(id), Ok(x));
    }
    assert_eq!(ex.complete(ids[1]), Ok(()));
    assert_eq!(ex.complete(ids[2]), Ok(()));
    assert_eq!(ex.complete(ids[0]), Ok(()));
    let settled = ex.drain();
    assert_eq!(
        settled,
        vec![
            (ids[1], Settlement::Resolved(20)),
            (ids[2], Settlement::Resolved(40)),
            (ids[0], Settlement::Resolved(60)),
        ]
    );
    for (&id, &x) in ids.iter().zip(inputs.iter()) {
        assert_eq!(ex.future(id), Some(Settlement::Resolved(2 * x)));
    }
}

#[test]
fn overflowing_task_is_rejected_not_left_pending() {
    let mut ex = Executor::new();
    let id = ex.submit(u32::MAX);
    assert_eq!(ex.start(id), Ok(u32::MAX));
    assert_eq!(ex.complete(id), Ok(()));
    assert_eq!(ex.state(id), TaskState::Failed(TaskError::Overflow));
    assert_eq!(ex.drain(), vec![(id, Settlement::Rejected(TaskError::Overflow))]);
    assert_eq!(ex.future(id), Some(Settlement::Rejected(TaskError::Overflow)));
}

#[test]
fn largest_doubling_input_resolves() {
    let mut ex = Executor::new();
    let id = ex.submit(u32::MAX / 2);
    assert_eq!(ex.start(id), Ok(u32::MAX / 2));
    assert_eq!(ex.complete(id), Ok(()));
    assert_eq!(ex.drain(), vec![(id, Settlement::Resolved(u32::MAX - 1))]);
}

#[test]
fn lifecycle_steps_are_enforced() {
    let mut ex = Executor::new();
    assert_eq!(ex.start(0), Err(ExecError::UnknownTask));
    assert_eq!(ex.complete(0), Err(ExecError::UnknownTask));
    let id = ex.submit(7);
    assert_eq!(ex.state(id), TaskState::Pending);
    assert_eq!(ex.complete(id), Err(ExecError::NotRunning));
    assert_eq!(ex.start(id), Ok(7));
    assert_eq!(ex.state(id), TaskState::Running);
    assert_eq!(ex.start(id), Err(ExecError::NotPending));
    assert_eq!(ex.complete(id), Ok(()));
    assert_eq!(ex.state(id), TaskState::Completed(14));
    assert_eq!(ex.complete(id), Err(ExecError::NotRunning));
    assert_eq!(ex.start(id), Err(ExecError::NotPending));
}

#[test]
fn a_future_is_settled_only_once() {
    let mut ex = Executor::new();
    let id = ex.submit(4);
    run_to_completion_with(&mut ex, id, 4);
    assert_eq!(ex.drain().len(), 1);
    assert_eq!(ex.drain(), vec![]);
    assert_eq!(ex.future(id), Some(Settlement::Resolved(8)));
    assert_eq!(ex.len(), 1);
}

fn run_to_completion_with(ex: &mut Executor, id: usize, input: u32) {
    assert_eq!(ex.start(id), Ok(input));
    assert_eq!(ex.complete(id), Ok(()));
}

#[test]
fn compute_doubles_or_fails() {
    assert_eq!(compute(21), Ok(42));
    assert_eq!(compute(0), Ok(0));
    assert_eq!(compute(u32::MAX / 2 + 1), Err(TaskError::Overflow));
    assert_eq!(settle(Ok(5)), Settlement::Resolved(5));
    assert_eq!(settle(Err(TaskError::Overflow)), Settlement::Rejected(TaskError::Overflow));
}
