//! The pool of tasks and the choice of the number of threads.
use snarkvm_verified::parallel::{max_available_threads, threads_for, CpuKind, ExecutionPool};

#[test]
fn execute_all_returns_results_in_task_order() {
    let mut pool: ExecutionPool<Box<dyn FnOnce() -> u64>> = ExecutionPool::new();
    for i in 0..10u64 {
        pool.add_task(Box::new(move || i * i));
    }
    assert_eq!((0..10u64).map(|i| i * i).collect::<Vec<_>>(), pool.execute_all());
}

#[test]
fn with_capacity_starts_empty() {
    let pool: ExecutionPool<fn() -> u8> = ExecutionPool::with_capacity(4);
    assert!(pool.execute_all().is_empty());
}

#[test]
fn threads_are_capped_by_physical_cores_except_on_amd() {
    assert_eq!(16, threads_for(CpuKind::AMD, 8, 16));
    assert_eq!(8, threads_for(CpuKind::Intel, 8, 16));
    assert_eq!(4, threads_for(CpuKind::Unknown, 8, 4));
    assert_eq!(2, threads_for(CpuKind::Intel, 2, 2));
}

#[test]
fn this_machine_has_at_least_one_thread() {
    assert!(max_available_threads() >= 1);
}
