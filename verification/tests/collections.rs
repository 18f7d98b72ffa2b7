//! Writers, collections and readers, step by step.
use qsbr_rcu::{
    ElapsedPeriod, GcStatus, GracePeriod, Rcu, Registry, SafeCallbacks, SyncStatus,
    ThreadLocalStorage,
};
use std::cell::RefCell;
use std::rc::Rc;

/// Notes its number when dropped.
struct Noted {
    number: i32,
    dropped: Rc<RefCell<Vec<i32>>>,
}

impl Drop for Noted {
    fn drop(&mut self) {
        self.dropped.borrow_mut().push(self.number);
    }
}

fn next(noted: &Noted) -> Noted {
    Noted { number: noted.number + 1, dropped: Rc::clone(&noted.dropped) }
}

fn waiting(status: GcStatus) -> GracePeriod {
    match status {
        GcStatus::Waiting(gp) => gp,
        _ => panic!("the collection does not wait"),
    }
}

/// A grace period with nobody to wait for.
fn elapsed(rcu: &mut Rcu<i32>, registry: &mut Registry, thread: usize) -> ElapsedPeriod {
    let gp = rcu.begin_grace_period(registry, thread).unwrap();
    rcu.poll_grace_period(registry, gp).ok().unwrap()
}

fn values(safe: &SafeCallbacks<i32>) -> Vec<i32> {
    safe.callbacks().iter().map(|callback| callback.data).collect()
}

fn entry(rcu: &Rcu<i32>, registry: &Registry, thread: usize) -> ThreadLocalStorage {
    registry.entry(thread, rcu.rcu_id()).unwrap()
}

fn counter(rcu: &Rcu<i32>, registry: &Registry, thread: usize) -> usize {
    registry.thread(entry(rcu, registry, thread).thread_data).unwrap().local_counter
}

#[test]
fn a_write_is_what_the_next_read_sees() {
    let mut registry = Registry::new();
    let me = registry.add_thread();
    let mut rcu = Rcu::new(7, &mut registry, me);
    assert_eq!(rcu.version(), 0);
    assert_eq!(rcu.read(&mut registry, me, |v| *v), Ok(7));
    assert_eq!(rcu.write(|v| v * 2), Ok(()));
    assert_eq!(rcu.version(), 1);
    assert_eq!(rcu.read(&mut registry, me, |v| *v), Ok(14));
    assert_eq!(rcu.rcu_dereference(), Some(&14));
}

#[test]
fn an_unregistered_thread_can_read() {
    let mut registry = Registry::new();
    let me = registry.add_thread();
    let rcu = Rcu::new(7, &mut registry, me);
    let stranger = registry.add_thread();
    assert_eq!(rcu.read(&mut registry, stranger, |v| *v + 1), Ok(8));
    assert_eq!(counter(&rcu, &registry, me), 0);
}

#[test]
fn a_read_announces_the_counter() {
    let mut registry = Registry::new();
    let me = registry.add_thread();
    let mut rcu = Rcu::new(7, &mut registry, me);
    assert_eq!(counter(&rcu, &registry, me), 0);
    rcu.read(&mut registry, me, |_| {}).unwrap();
    assert_eq!(counter(&rcu, &registry, me), 1);
    assert!(matches!(rcu.gc(&mut registry, me), GcStatus::Done));
    assert_eq!(counter(&rcu, &registry, me), 1);
    rcu.rcu_quiescent_state(&mut registry, me);
    assert_eq!(counter(&rcu, &registry, me), 2);
    rcu.rcu_read_unlock(&mut registry);
    assert_eq!(counter(&rcu, &registry, me), 2);
}

#[test]
fn of_two_writers_with_one_version_one_starts_over() {
    let mut registry = Registry::new();
    let me = registry.add_thread();
    let mut rcu = Rcu::new(10, &mut registry, me);
    let seen = rcu.version();
    let replaced = rcu.compare_exchange(seen, 11).ok().unwrap();
    assert_eq!(replaced.version, 0);
    assert_eq!(replaced.data, 10);
    assert_eq!(rcu.compare_exchange(seen, 20).err(), Some(20));
    assert_eq!(rcu.rcu_dereference(), Some(&11));
    rcu.add_callback(replaced);
    assert!(matches!(rcu.gc(&mut registry, me), GcStatus::Done));
}

#[test]
fn a_collection_reclaims_the_most_recent_first() {
    let dropped = Rc::new(RefCell::new(Vec::new()));
    let mut registry = Registry::new();
    let me = registry.add_thread();
    let first = Noted { number: 0, dropped: Rc::clone(&dropped) };
    let mut rcu = Rcu::new(first, &mut registry, me);
    for _ in 0..3 {
        rcu.write(next).unwrap();
    }
    assert!(dropped.borrow().is_empty());
    assert!(matches!(rcu.gc(&mut registry, me), GcStatus::Done));
    assert_eq!(*dropped.borrow(), vec![2, 1, 0]);
    assert_eq!(rcu.read(&mut registry, me, |v| v.number), Ok(3));
}

#[test]
fn collections_without_garbage_can_be_repeated() {
    let mut registry = Registry::new();
    let me = registry.add_thread();
    let mut rcu = Rcu::new(1, &mut registry, me);
    for _ in 0..3 {
        assert!(matches!(rcu.gc(&mut registry, me), GcStatus::Done));
    }
    assert_eq!(rcu.write(|v| v + 1), Ok(()));
    assert!(matches!(rcu.gc(&mut registry, me), GcStatus::Done));
    assert_eq!(rcu.read(&mut registry, me, |v| *v), Ok(2));
}

#[test]
fn a_collection_waits_for_a_lagging_thread() {
    let dropped = Rc::new(RefCell::new(Vec::new()));
    let mut registry = Registry::new();
    let me = registry.add_thread();
    let reader = registry.add_thread();
    let first = Noted { number: 0, dropped: Rc::clone(&dropped) };
    let mut rcu = Rcu::new(first, &mut registry, me);
    assert!(rcu.register_thread(&mut registry, reader));
    rcu.write(next).unwrap();

    let gp = waiting(rcu.gc(&mut registry, me));
    assert_eq!(gp.old_counter(), 1);
    assert_eq!(gp.old_head(), Some(0));
    let gp = waiting(rcu.resume_gc(&mut registry, gp));
    assert!(dropped.borrow().is_empty());

    rcu.rcu_quiescent_state(&mut registry, reader);
    assert!(matches!(rcu.resume_gc(&mut registry, gp), GcStatus::Done));
    assert_eq!(*dropped.borrow(), vec![0]);
}

#[test]
fn the_next_collection_waits_for_the_same_thread_again() {
    let mut registry = Registry::new();
    let me = registry.add_thread();
    let reader = registry.add_thread();
    let mut rcu = Rcu::new(1, &mut registry, me);
    assert!(rcu.register_thread(&mut registry, reader));
    let gp = waiting(rcu.gc(&mut registry, me));
    assert_eq!(gp.old_counter(), 1);
    rcu.read(&mut registry, reader, |_| {}).unwrap();
    assert!(matches!(rcu.resume_gc(&mut registry, gp), GcStatus::Done));
    let gp = waiting(rcu.gc(&mut registry, me));
    assert_eq!(gp.old_counter(), 2);
    rcu.read(&mut registry, reader, |_| {}).unwrap();
    assert!(matches!(rcu.resume_gc(&mut registry, gp), GcStatus::Done));
}

#[test]
fn a_collection_waits_for_an_open_critical_section() {
    let dropped = Rc::new(RefCell::new(Vec::new()));
    let mut registry = Registry::new();
    let me = registry.add_thread();
    let reader = registry.add_thread();
    let first = Noted { number: 0, dropped: Rc::clone(&dropped) };
    let mut rcu = Rcu::new(first, &mut registry, me);
    assert!(rcu.register_thread(&mut registry, reader));
    rcu.rcu_read_lock(&mut registry, reader);
    rcu.write(next).unwrap();
    let gp = waiting(rcu.gc(&mut registry, me));
    assert!(dropped.borrow().is_empty());
    rcu.rcu_read_unlock(&mut registry);
    let gp = waiting(rcu.resume_gc(&mut registry, gp));
    rcu.rcu_quiescent_state(&mut registry, reader);
    assert!(matches!(rcu.resume_gc(&mut registry, gp), GcStatus::Done));
    assert_eq!(*dropped.borrow(), vec![0]);
    // What the reader sees next is not waited out by the period that is over.
    rcu.rcu_read_lock(&mut registry, reader);
    assert!(matches!(rcu.gc(&mut registry, me), GcStatus::Waiting(_)));
}

#[test]
fn a_reader_that_collects_does_not_wait_for_itself() {
    let mut registry = Registry::new();
    let me = registry.add_thread();
    let mut rcu = Rcu::new(1, &mut registry, me);
    for expected in 1..4 {
        rcu.read(&mut registry, me, |_| {}).unwrap();
        let gp = rcu.begin_grace_period(&mut registry, me).unwrap();
        assert_eq!(gp.old_counter(), expected);
        assert_eq!(gp.caller(), Some(entry(&rcu, &registry, me).thread_data));
        // The collecting thread stays at the counter from before.
        assert_eq!(counter(&rcu, &registry, me), expected);
        assert!(rcu.poll_grace_period(&registry, gp).is_ok());
    }
    // A collecting thread that is not registered waits for all that are.
    let stranger = registry.add_thread();
    let gp = rcu.begin_grace_period(&mut registry, stranger).unwrap();
    assert_eq!(gp.caller(), None);
    assert!(rcu.poll_grace_period(&registry, gp).is_err());
}

#[test]
fn what_a_reader_uses_outlives_overlapping_collections() {
    let dropped = Rc::new(RefCell::new(Vec::new()));
    let mut registry = Registry::new();
    let me = registry.add_thread();
    let reader = registry.add_thread();
    let first = Noted { number: 0, dropped: Rc::clone(&dropped) };
    let mut rcu = Rcu::new(first, &mut registry, me);
    assert!(rcu.register_thread(&mut registry, reader));

    // A collection begins; the reader enters a section with version 1 in it.
    rcu.write(next).unwrap();
    let gp = rcu.begin_grace_period(&mut registry, me).unwrap();
    rcu.rcu_read_lock(&mut registry, reader);
    assert_eq!(rcu.rcu_dereference().unwrap().number, 1);
    rcu.write(next).unwrap();
    let first = rcu.poll_grace_period(&registry, gp).ok().unwrap();
    // A second one begins before the first has taken its callbacks, and has to wait.
    let second = waiting(rcu.gc(&mut registry, me));
    let taken = rcu.take_safe_callbacks(first);
    assert_eq!(taken.callbacks().len(), 1);
    assert_eq!(taken.callbacks()[0].data.number, 0);
    rcu.process_callbacks(taken);
    assert_eq!(*dropped.borrow(), vec![0]);
    let second = waiting(rcu.resume_gc(&mut registry, second));
    rcu.rcu_quiescent_state(&mut registry, reader);
    assert!(matches!(rcu.resume_gc(&mut registry, second), GcStatus::Done));
    assert_eq!(*dropped.borrow(), vec![0, 1]);
}

#[test]
fn lists_of_overlapping_collections_share_nothing() {
    let mut registry = Registry::new();
    let me = registry.add_thread();
    let mut rcu = Rcu::new(0, &mut registry, me);
    rcu.write(|v| v + 1).unwrap();
    rcu.write(|v| v + 1).unwrap();
    let first = rcu.begin_grace_period(&mut registry, me).unwrap();
    rcu.write(|v| v + 1).unwrap();
    let first = rcu.poll_grace_period(&registry, first).ok().unwrap();
    let second = rcu.begin_grace_period(&mut registry, me).unwrap();
    rcu.write(|v| v + 1).unwrap();
    let second = rcu.poll_grace_period(&registry, second).ok().unwrap();
    assert_eq!((first.old_head(), second.old_head()), (Some(1), Some(2)));
    assert_eq!(first.rcu_id(), rcu.rcu_id());
    let third = elapsed(&mut rcu, &mut registry, me);
    let a = rcu.take_safe_callbacks(first);
    let b = rcu.take_safe_callbacks(second);
    let rest = rcu.take_safe_callbacks(third);
    assert_eq!((values(&a), values(&b), values(&rest)), (vec![0, 1], vec![2], vec![3]));
}

#[test]
fn racing_writers_take_effect_one_after_the_other() {
    let mut registry = Registry::new();
    let me = registry.add_thread();
    let mut rcu = Rcu::new(5, &mut registry, me);
    // Both load 5; the one that adds comes first, the one that doubles starts over from 8.
    let seen = (rcu.version(), *rcu.rcu_dereference().unwrap());
    let by_first = rcu.compare_exchange(seen.0, seen.1 + 3).ok().unwrap();
    assert_eq!(rcu.compare_exchange(seen.0, seen.1 * 2).err(), Some(10));
    let seen = (rcu.version(), *rcu.rcu_dereference().unwrap());
    assert_eq!(seen, (1, 8));
    let by_second = rcu.compare_exchange(seen.0, seen.1 * 2).ok().unwrap();
    assert_eq!((rcu.version(), *rcu.rcu_dereference().unwrap()), (2, 16));
    // They queue what they replaced, the second one first. What was lost is not queued.
    rcu.add_callback(by_second);
    rcu.add_callback(by_first);
    let period = elapsed(&mut rcu, &mut registry, me);
    let queued = rcu.take_safe_callbacks(period);
    let queued: Vec<(u64, i32)> =
        queued.callbacks().iter().map(|c| (c.version, c.data)).collect();
    assert_eq!(queued, vec![(1, 8), (0, 5)]);
}

#[test]
fn a_quiescent_thread_is_not_waited_for() {
    let mut registry = Registry::new();
    let me = registry.add_thread();
    let other = registry.add_thread();
    let mut rcu = Rcu::new(1, &mut registry, me);
    assert!(rcu.register_thread(&mut registry, other));
    rcu.rcu_read_lock(&mut registry, other);
    let at = entry(&rcu, &registry, other).thread_data;
    assert!(registry.thread(at).unwrap().reading);
    rcu.rcu_quiescent_state(&mut registry, other);
    assert!(!registry.thread(at).unwrap().reading);
    assert_eq!(counter(&rcu, &registry, other), 1);
    rcu.write(|v| v + 1).unwrap();
    assert!(matches!(rcu.gc(&mut registry, me), GcStatus::Done));
    // The counter has moved on; the thread's announcement is from before.
    assert!(matches!(rcu.gc(&mut registry, me), GcStatus::Waiting(_)));
}

#[test]
fn a_thread_that_left_is_not_waited_for() {
    let mut registry = Registry::new();
    let me = registry.add_thread();
    let reader = registry.add_thread();
    let mut rcu = Rcu::new(1, &mut registry, me);
    assert!(rcu.register_thread(&mut registry, reader));
    let at = entry(&rcu, &registry, reader).thread_data;
    let gp = waiting(rcu.gc(&mut registry, me));
    rcu.unregister_thread(&mut registry, reader);
    assert!(!registry.thread(at).unwrap().active);
    assert!(matches!(rcu.resume_gc(&mut registry, gp), GcStatus::Done));
    assert!(registry.thread(at).is_none());
    assert!(registry.thread(entry(&rcu, &registry, me).thread_data).unwrap().active);
}

#[test]
fn while_a_collection_waits_others_are_turned_away() {
    let mut registry = Registry::new();
    let me = registry.add_thread();
    let reader = registry.add_thread();
    let late = registry.add_thread();
    let mut rcu = Rcu::new(1, &mut registry, me);
    assert!(rcu.register_thread(&mut registry, reader));
    let gp = waiting(rcu.gc(&mut registry, me));

    assert!(matches!(rcu.gc(&mut registry, me), GcStatus::Busy));
    assert!(matches!(rcu.synchronize_rcu(&mut registry, me), SyncStatus::Busy));
    assert!(matches!(rcu.drop(&mut registry, me), GcStatus::Busy));
    assert!(!rcu.register_thread(&mut registry, late));
    assert!(registry.entry(late, rcu.rcu_id()).is_none());
    assert!(!rcu.clean_thread_list(&mut registry));
    // A registered thread is not registered again, so it has nothing to wait for.
    assert!(rcu.register_thread(&mut registry, reader));
    // Readers and writers go on.
    assert_eq!(rcu.write(|v| v + 1), Ok(()));
    assert_eq!(rcu.read(&mut registry, reader, |v| *v), Ok(2));

    assert!(matches!(rcu.resume_gc(&mut registry, gp), GcStatus::Done));
    assert!(rcu.register_thread(&mut registry, late));
}

#[test]
fn values_replaced_during_the_wait_stay_queued() {
    let dropped = Rc::new(RefCell::new(Vec::new()));
    let mut registry = Registry::new();
    let me = registry.add_thread();
    let reader = registry.add_thread();
    let first = Noted { number: 0, dropped: Rc::clone(&dropped) };
    let mut rcu = Rcu::new(first, &mut registry, me);
    assert!(rcu.register_thread(&mut registry, reader));
    rcu.write(next).unwrap();
    rcu.write(next).unwrap();
    let gp = waiting(rcu.gc(&mut registry, me));
    rcu.write(next).unwrap();
    rcu.rcu_quiescent_state(&mut registry, reader);
    assert!(matches!(rcu.resume_gc(&mut registry, gp), GcStatus::Done));
    assert_eq!(*dropped.borrow(), vec![1, 0]);
    // The reader is still in that quiescent state.
    assert!(matches!(rcu.gc(&mut registry, me), GcStatus::Done));
    assert_eq!(*dropped.borrow(), vec![1, 0, 2]);
}

#[test]
fn callbacks_are_taken_once() {
    let mut registry = Registry::new();
    let me = registry.add_thread();
    let mut rcu = Rcu::new(0, &mut registry, me);
    // Four periods begin: one before anything is queued, two that remember the callback of
    // version 1, and one that remembers all.
    let nothing = elapsed(&mut rcu, &mut registry, me);
    assert_eq!(nothing.old_head(), None);
    rcu.write(|v| v + 1).unwrap();
    rcu.write(|v| v + 1).unwrap();
    let some = elapsed(&mut rcu, &mut registry, me);
    let same = elapsed(&mut rcu, &mut registry, me);
    rcu.write(|v| v + 1).unwrap();
    let all = elapsed(&mut rcu, &mut registry, me);
    assert!(values(&rcu.take_safe_callbacks(nothing)).is_empty());
    let taken = rcu.take_safe_callbacks(some);
    assert_eq!(taken.rcu_id(), rcu.rcu_id());
    assert_eq!(values(&taken), vec![0, 1]);
    assert!(values(&rcu.take_safe_callbacks(same)).is_empty());
    let rest = rcu.take_safe_callbacks(all);
    assert_eq!(values(&rest), vec![2]);
    rcu.process_callbacks(taken);
    rcu.process_callbacks(rest);
}

#[test]
fn a_grace_period_in_single_steps() {
    let mut registry = Registry::new();
    let me = registry.add_thread();
    let reader = registry.add_thread();
    let mut rcu = Rcu::new(0, &mut registry, me);
    assert!(rcu.register_thread(&mut registry, reader));
    rcu.write(|v| v + 1).unwrap();

    assert!(!rcu.is_waiting());
    let gp = rcu.begin_grace_period(&mut registry, me).unwrap();
    assert!(rcu.is_waiting());
    assert_eq!(gp.rcu_id(), rcu.rcu_id());
    assert!(rcu.begin_grace_period(&mut registry, me).is_none());
    let gp = rcu.poll_grace_period(&registry, gp).err().unwrap();
    rcu.rcu_quiescent_state(&mut registry, reader);
    let period = rcu.poll_grace_period(&registry, gp).ok().unwrap();
    assert!(!rcu.is_waiting());
    assert_eq!(period.old_head(), Some(0));
    // Another collection comes in between and takes the callback first.
    assert!(matches!(rcu.gc(&mut registry, me), GcStatus::Done));
    let taken = rcu.take_safe_callbacks(period);
    assert!(values(&taken).is_empty());
    rcu.process_callbacks(taken);
    assert!(rcu.clean_thread_list(&mut registry));
}

#[test]
fn synchronize_hands_out_the_safe_callbacks() {
    let mut registry = Registry::new();
    let me = registry.add_thread();
    let reader = registry.add_thread();
    let mut rcu = Rcu::new(5, &mut registry, me);
    rcu.write(|v| v + 1).unwrap();
    match rcu.synchronize_rcu(&mut registry, me) {
        SyncStatus::Safe(callbacks) => {
            assert_eq!(values(&callbacks), vec![5]);
            rcu.process_callbacks(callbacks);
        }
        _ => panic!("nobody is lagging"),
    }
    assert!(rcu.register_thread(&mut registry, reader));
    let gp = match rcu.synchronize_rcu(&mut registry, me) {
        SyncStatus::Waiting(gp) => gp,
        _ => panic!("the reader is lagging"),
    };
    rcu.rcu_quiescent_state(&mut registry, reader);
    match rcu.resume_synchronize(&registry, gp) {
        SyncStatus::Safe(callbacks) => assert!(values(&callbacks).is_empty()),
        _ => panic!("nobody is lagging"),
    }
}

#[test]
fn a_dropped_instance_refuses_reads_and_writes() {
    let dropped = Rc::new(RefCell::new(Vec::new()));
    let mut registry = Registry::new();
    let me = registry.add_thread();
    let first = Noted { number: 0, dropped: Rc::clone(&dropped) };
    let mut rcu = Rcu::new(first, &mut registry, me);
    rcu.write(next).unwrap();
    let at = registry.entry(me, rcu.rcu_id()).unwrap().thread_data;

    assert!(matches!(rcu.drop(&mut registry, me), GcStatus::Done));
    assert_eq!(*dropped.borrow(), vec![0, 1]);
    assert_eq!(registry.storage(me).unwrap().len(), 0);
    assert!(registry.thread(at).is_none());
    assert_eq!(rcu.read(&mut registry, me, |v| v.number), Err(()));
    assert_eq!(rcu.write(next), Err(()));
    assert!(rcu.rcu_dereference().is_none());
    let data = Noted { number: 9, dropped: Rc::clone(&dropped) };
    assert!(rcu.compare_exchange(rcu.version(), data).is_err());
}

#[test]
fn dropping_waits_for_readers_too() {
    let mut registry = Registry::new();
    let me = registry.add_thread();
    let reader = registry.add_thread();
    let mut rcu = Rcu::new(3, &mut registry, me);
    assert!(rcu.register_thread(&mut registry, reader));
    let at = entry(&rcu, &registry, reader).thread_data;
    let gp = waiting(rcu.drop(&mut registry, me));
    assert_eq!(rcu.read(&mut registry, reader, |v| *v), Ok(3));
    assert!(matches!(rcu.resume_drop(&mut registry, gp), GcStatus::Done));
    assert_eq!(registry.storage(me).unwrap().len(), 0);
    assert!(registry.thread(at).is_none());
    assert_eq!(registry.storage(reader).unwrap().len(), 0);
}

#[test]
fn dropping_does_not_wait_for_a_quiescent_thread() {
    let mut registry = Registry::new();
    let me = registry.add_thread();
    let other = registry.add_thread();
    let mut rcu = Rcu::new(3, &mut registry, me);
    let mut kept = Rcu::new(4, &mut registry, me);
    assert!(rcu.register_thread(&mut registry, other));
    rcu.read(&mut registry, other, |_| {}).unwrap();
    rcu.rcu_quiescent_state(&mut registry, other);
    let at = entry(&rcu, &registry, other).thread_data;
    assert!(registry.thread(at).unwrap().active);

    assert!(matches!(rcu.drop(&mut registry, me), GcStatus::Done));
    assert_eq!(registry.storage(other).unwrap().len(), 0);
    assert!(registry.thread(at).is_none());
    // The thread goes on with another instance.
    assert!(kept.register_thread(&mut registry, other));
    assert_eq!(kept.read(&mut registry, other, |v| *v), Ok(4));
}

#[test]
fn an_address_can_pass_from_one_reader_to_the_next() {
    let dropped = Rc::new(RefCell::new(Vec::new()));
    let mut registry = Registry::new();
    let me = registry.add_thread();
    let first_reader = registry.add_thread();
    let second_reader = registry.add_thread();
    let first = Noted { number: 0, dropped: Rc::clone(&dropped) };
    let mut rcu = Rcu::new(first, &mut registry, me);
    assert!(rcu.register_thread(&mut registry, first_reader));
    let at = registry.entry(first_reader, 1).unwrap().thread_data;
    rcu.rcu_read_lock(&mut registry, first_reader);
    rcu.unregister_thread(&mut registry, first_reader);
    assert!(rcu.clean_thread_list(&mut registry));
    assert!(rcu.register_thread(&mut registry, second_reader));
    assert_eq!(registry.entry(second_reader, 1).unwrap().thread_data, at);
    assert!(!registry.thread(at).unwrap().reading);
    // The new reader is protected where the old one was.
    rcu.rcu_read_lock(&mut registry, second_reader);
    rcu.write(next).unwrap();
    let gp = waiting(rcu.gc(&mut registry, me));
    assert!(dropped.borrow().is_empty());
    rcu.rcu_quiescent_state(&mut registry, second_reader);
    assert!(matches!(rcu.resume_gc(&mut registry, gp), GcStatus::Done));
    assert_eq!(*dropped.borrow(), vec![0]);
}

#[test]
fn collections_of_two_instances_do_not_disturb_each_others_readers() {
    let dropped = Rc::new(RefCell::new(Vec::new()));
    let mut registry = Registry::new();
    let me = registry.add_thread();
    let reader = registry.add_thread();
    let first = Noted { number: 0, dropped: Rc::clone(&dropped) };
    let other = Noted { number: 10, dropped: Rc::clone(&dropped) };
    let mut a = Rcu::new(first, &mut registry, me);
    let mut b = Rcu::new(other, &mut registry, me);
    assert!(a.register_thread(&mut registry, reader));
    assert!(b.register_thread(&mut registry, reader));
    a.rcu_read_lock(&mut registry, reader);
    a.write(next).unwrap();
    b.write(next).unwrap();
    let gp = waiting(a.gc(&mut registry, me));
    // A quiescent state towards one instance is none towards the other.
    b.rcu_quiescent_state(&mut registry, reader);
    assert!(matches!(b.gc(&mut registry, me), GcStatus::Done));
    assert_eq!(*dropped.borrow(), vec![10]);
    let gp = waiting(a.resume_gc(&mut registry, gp));
    b.rcu_quiescent_state(&mut registry, reader);
    assert!(matches!(b.drop(&mut registry, me), GcStatus::Done));
    let gp = waiting(a.resume_gc(&mut registry, gp));
    a.rcu_quiescent_state(&mut registry, reader);
    assert!(matches!(a.resume_gc(&mut registry, gp), GcStatus::Done));
    assert_eq!(*dropped.borrow(), vec![10, 11, 0]);
}
