use lum::multiprocessor::{optimal_dispatch_size, worker_thread_count};

#[test]
fn worker_threads_leave_one_core_but_keep_one() {
    assert_eq!(worker_thread_count(Some(8)), 7);
    assert_eq!(worker_thread_count(Some(2)), 1);
    assert_eq!(worker_thread_count(Some(1)), 1);
    assert_eq!(worker_thread_count(None), 1);
    assert_eq!(optimal_dispatch_size(7), 6);
    assert_eq!(optimal_dispatch_size(1), 0);
}
