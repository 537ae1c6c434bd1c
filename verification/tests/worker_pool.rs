use raytrace_parallel::pool::CompletionSlot;
use raytrace_parallel::pool::DispatchFailure;
use raytrace_parallel::pool::FaultPlan;
use raytrace_parallel::pool::HandleError;
use raytrace_parallel::pool::WorkerPool;

type Work = Box<dyn FnOnce() -> i32>;

#[test]
fn new_pool_has_n_idle_workers() {
    let pool = WorkerPool::<Work, i32>::new(5).unwrap();
    assert_eq!(pool.idle_count(), 5);
    assert_eq!(pool.worker_total(), 5);
    assert_eq!(pool.reclaimed_total(), 0);
}

#[test]
fn new_pool_of_zero_workers() {
    let pool = WorkerPool::<Work, i32>::new(0).unwrap();
    assert_eq!(pool.idle_count(), 0);
    assert_eq!(pool.worker_total(), 0);
}

#[test]
fn construction_fails_when_a_spawn_fails() {
    let faults = FaultPlan { failing_spawns: 1, failing_posts: 0 };
    assert!(WorkerPool::<Work, i32>::with_faults(3, faults).is_err());
    // with nothing to spawn eagerly, an injected spawn failure waits for
    // the first dispatch instead
    assert!(WorkerPool::<Work, i32>::with_faults(0, faults).is_ok());
}

#[test]
fn run_notify_resolves_to_the_closure_result() {
    let mut pool = WorkerPool::<Work, i32>::new(2).unwrap();
    let (dispatch, awaitable) = pool.run_notify(Box::new(|| 40 + 2)).map_err(|_| ()).unwrap();
    // pending until the worker has reported back
    assert_eq!(pool.take_result(awaitable), None);
    let work = pool.child_entry_point(dispatch.handle).unwrap();
    let value = work();
    pool.store_result(dispatch.worker, value);
    pool.worker_done(dispatch.worker);
    assert_eq!(pool.take_result(awaitable), Some(42));
    // resolved exactly once: a second poll yields nothing
    assert_eq!(pool.take_result(awaitable), None);
    // the worker went back to the idle set
    assert_eq!(pool.idle_count(), 2);
}

#[test]
fn dispatches_consume_idle_workers_then_spawn() {
    let mut pool = WorkerPool::<Work, i32>::new(2).unwrap();
    pool.run(Box::new(|| 0)).map_err(|_| ()).unwrap();
    pool.run(Box::new(|| 1)).map_err(|_| ()).unwrap();
    assert_eq!(pool.idle_count(), 0);
    assert_eq!(pool.worker_total(), 2);
    // a third dispatch against the same pool spawns rather than blocking
    let d = pool.run(Box::new(|| 2)).map_err(|_| ()).unwrap();
    assert_eq!(pool.worker_total(), 3);
    assert_eq!(d.worker, 2);
}

#[test]
fn a_handle_is_consumed_exactly_once() {
    let mut pool = WorkerPool::<Work, i32>::new(1).unwrap();
    let d = pool.run(Box::new(|| 7)).map_err(|_| ()).unwrap();
    assert_eq!(pool.child_entry_point(d.handle + 1).err().unwrap(), HandleError::Unknown);
    let work = pool.child_entry_point(d.handle).unwrap();
    assert_eq!(work(), 7);
    assert_eq!(pool.child_entry_point(d.handle).err().unwrap(), HandleError::Consumed);
    pool.worker_done(d.worker);
    assert_eq!(pool.idle_count(), 1);
}

#[test]
fn post_failure_returns_the_work_item_unleaked() {
    let faults = FaultPlan { failing_spawns: 0, failing_posts: 1 };
    let mut pool = WorkerPool::<Vec<u8>, i32>::with_faults(1, faults).unwrap();
    match pool.run(vec![1, 2, 3]) {
        Err(DispatchFailure::PostFailed { work }) => assert_eq!(work, vec![1, 2, 3]),
        _ => panic!("expected the post to fail"),
    }
    // the reclaim counter saw the item come back
    assert_eq!(pool.reclaimed_total(), 1);
    // the worker that failed to receive is not returned to the idle set
    assert_eq!(pool.idle_count(), 0);
}

#[test]
fn spawn_failure_on_empty_pool_returns_the_work_item() {
    let faults = FaultPlan { failing_spawns: 1, failing_posts: 0 };
    let mut pool = WorkerPool::<Vec<u8>, i32>::with_faults(0, faults).unwrap();
    assert_eq!(pool.idle_count(), 0);
    match pool.run_notify(vec![9]) {
        Err(DispatchFailure::SpawnFailed { work }) => assert_eq!(work, vec![9]),
        _ => panic!("expected the spawn to fail"),
    }
    assert_eq!(pool.reclaimed_total(), 0);
    assert_eq!(pool.worker_total(), 0);
}

#[test]
fn a_faulted_worker_is_lost_and_its_awaitable_stays_pending() {
    let mut pool = WorkerPool::<Work, i32>::new(1).unwrap();
    let (d, a) = pool.run_notify(Box::new(|| 3)).map_err(|_| ()).unwrap();
    let _work = pool.child_entry_point(d.handle).unwrap();
    pool.worker_fault(d.worker);
    assert_eq!(pool.idle_count(), 0);
    assert_eq!(pool.take_result(a), None);
    // the next dispatch has to spawn a fresh worker
    pool.run(Box::new(|| 4)).map_err(|_| ()).unwrap();
    assert_eq!(pool.worker_total(), 2);
    assert_eq!(pool.take_result(a), None);
}

#[test]
fn completion_slot_hands_back_previous_contents() {
    let mut slot: CompletionSlot<Option<i32>> = CompletionSlot::new(None);
    assert_eq!(slot.replace(Some(5)), Ok(None));
    assert_eq!(slot.replace(None), Ok(Some(5)));
    assert_eq!(slot.replace(None), Ok(None));
}
