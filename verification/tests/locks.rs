//! Spin locks.
use qsbr_rcu::lock::SpinLock;

#[test]
fn one_thread_at_a_time_is_inside() {
    let mut lock = SpinLock::new();
    let mut inside = Vec::new();
    for thread in 0..3 {
        if lock.try_lock() {
            inside.push(thread);
        }
    }
    assert_eq!(inside, vec![0]);
    assert!(!lock.try_lock());
    assert!(lock.is_locked());
    lock.unlock();
    assert!(!lock.is_locked());
    assert!(lock.try_lock());
    assert!(!lock.try_lock());
}
