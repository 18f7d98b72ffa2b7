//! Threads and instances.
use qsbr_rcu::storage::remove_thread_local_storage;
use qsbr_rcu::{
    drop_thread_data, get_current_thread_storage, GcStatus, Rcu, Registry, ThreadLocalStorage,
    ThreadStorage,
};

/// The identifiers in the entries of `thread`, oldest first.
fn instances_of(registry: &Registry, thread: usize) -> Vec<usize> {
    let storage = registry.storage(thread).unwrap();
    (0..storage.len()).map(|i| storage.get(i).rcu_id).collect()
}

#[test]
fn creating_registers_the_creating_thread() {
    let mut registry = Registry::new();
    let me = registry.add_thread();
    assert!(get_current_thread_storage(&registry, me).is_none());
    let rcu = Rcu::new("a", &mut registry, me);
    assert_eq!(rcu.rcu_id(), 1);
    let entry = *get_current_thread_storage(&registry, me).unwrap();
    assert_eq!(entry.rcu_id, 1);
    let data = registry.thread(entry.thread_data).unwrap();
    assert_eq!(data.local_counter, 0);
    assert!(!data.reading);
    assert!(data.active);
    assert_eq!(data.tls_ptr, Some(entry));
}

#[test]
fn instances_have_different_identifiers() {
    let mut registry = Registry::new();
    let me = registry.add_thread();
    let a = Rcu::new(0, &mut registry, me);
    let b = Rcu::new(0, &mut registry, me);
    let c = Rcu::new(0, &mut registry, me);
    assert_eq!((a.rcu_id(), b.rcu_id(), c.rcu_id()), (1, 2, 3));
    assert_eq!(instances_of(&registry, me), vec![1, 2, 3]);
    assert_eq!(get_current_thread_storage(&registry, me).unwrap().rcu_id, 3);
    // A number that no thread has keeps nothing.
    assert_eq!(registry.thread_count(), 1);
    assert!(registry.storage(1).is_none());
    assert!(get_current_thread_storage(&registry, 1).is_none());
}

#[test]
fn a_thread_registers_once() {
    let mut registry = Registry::new();
    let me = registry.add_thread();
    let mut rcu = Rcu::new(0, &mut registry, me);
    let entry = registry.entry(me, 1);
    assert!(rcu.register_thread(&mut registry, me));
    assert_eq!(registry.storage(me).unwrap().len(), 1);
    assert_eq!(registry.entry(me, 1), entry);
}

#[test]
fn unregistering_undoes_registering() {
    let mut registry = Registry::new();
    let me = registry.add_thread();
    let other = registry.add_thread();
    let mut a = Rcu::new(0, &mut registry, me);
    let mut b = Rcu::new(0, &mut registry, me);
    assert!(a.register_thread(&mut registry, other));
    let kept = registry.entry(other, 1).unwrap();
    assert!(b.register_thread(&mut registry, other));
    let at = registry.entry(other, 2).unwrap().thread_data;
    b.unregister_thread(&mut registry, other);
    assert_eq!(registry.storage(other).unwrap().len(), 1);
    assert_eq!(registry.entry(other, 1), Some(kept));
    assert_eq!(registry.entry(other, 2), None);
    assert!(!registry.thread(at).unwrap().active);
    // Once more changes nothing.
    b.unregister_thread(&mut registry, other);
    assert_eq!(registry.storage(other).unwrap().len(), 1);
    // The thread can come back.
    assert!(b.register_thread(&mut registry, other));
    assert!(registry.thread(registry.entry(other, 2).unwrap().thread_data).unwrap().active);
}

#[test]
fn instances_do_not_wait_for_each_others_threads() {
    let mut registry = Registry::new();
    let me = registry.add_thread();
    let other = registry.add_thread();
    let mut a = Rcu::new(0, &mut registry, me);
    let mut b = Rcu::new(0, &mut registry, me);
    assert!(b.register_thread(&mut registry, other));
    let at = registry.entry(other, 2).unwrap().thread_data;
    assert!(matches!(a.gc(&mut registry, me), GcStatus::Done));
    assert!(matches!(b.gc(&mut registry, me), GcStatus::Waiting(_)));
    assert!(matches!(a.drop(&mut registry, me), GcStatus::Done));
    assert!(registry.thread(at).unwrap().active);
    assert!(registry.entry(me, 1).is_none());
    assert!(registry.entry(me, 2).is_some());
}

#[test]
fn a_thread_drops_its_data_everywhere() {
    let mut registry = Registry::new();
    let me = registry.add_thread();
    let other = registry.add_thread();
    let mut a = Rcu::new(0, &mut registry, me);
    let mut b = Rcu::new(0, &mut registry, me);
    assert!(a.register_thread(&mut registry, other));
    assert!(b.register_thread(&mut registry, other));
    drop_thread_data(&mut registry, other);
    assert_eq!(registry.storage(other).unwrap().len(), 2);
    for id in 1..3 {
        assert!(!registry.thread(registry.entry(other, id).unwrap().thread_data).unwrap().active);
        assert!(registry.thread(registry.entry(me, id).unwrap().thread_data).unwrap().active);
    }
    assert!(matches!(a.gc(&mut registry, me), GcStatus::Done));
    assert!(matches!(b.gc(&mut registry, me), GcStatus::Done));
}

#[test]
fn cleaning_keeps_active_threads() {
    let mut registry = Registry::new();
    let me = registry.add_thread();
    let mut rcu = Rcu::new(0, &mut registry, me);
    let threads: Vec<usize> = (0..4).map(|_| registry.add_thread()).collect();
    for thread in &threads {
        assert!(rcu.register_thread(&mut registry, *thread));
    }
    let at: Vec<usize> =
        threads.iter().map(|t| registry.entry(*t, 1).unwrap().thread_data).collect();
    rcu.unregister_thread(&mut registry, threads[1]);
    rcu.unregister_thread(&mut registry, threads[3]);
    assert!(rcu.clean_thread_list(&mut registry));
    let in_use: Vec<bool> = at.iter().map(|a| registry.thread(*a).is_some()).collect();
    assert_eq!(in_use, vec![true, false, true, false]);
    // An address that was given back is used again.
    let next = registry.add_thread();
    assert!(rcu.register_thread(&mut registry, next));
    assert_eq!(registry.entry(next, 1).unwrap().thread_data, at[1]);
}

#[test]
fn an_address_that_is_still_named_is_not_used_again() {
    let mut registry = Registry::new();
    let me = registry.add_thread();
    let gone = registry.add_thread();
    let next = registry.add_thread();
    let mut a = Rcu::new(0, &mut registry, me);
    let mut b = Rcu::new(0, &mut registry, me);
    assert!(a.register_thread(&mut registry, gone));
    let at = registry.entry(gone, 1).unwrap().thread_data;
    // The thread keeps its entry, and a collection gives its data back.
    drop_thread_data(&mut registry, gone);
    assert!(matches!(a.gc(&mut registry, me), GcStatus::Done));
    assert!(registry.thread(at).is_none());
    assert_eq!(instances_of(&registry, gone), vec![1]);
    // Others are not given that address, so the thread cannot announce anything for them.
    assert!(b.register_thread(&mut registry, next));
    let theirs = registry.entry(next, 2).unwrap().thread_data;
    assert_ne!(theirs, at);
    a.rcu_quiescent_state(&mut registry, gone);
    assert_eq!(registry.thread(theirs).unwrap().local_counter, 0);
    // Once the entry is gone, the address is free.
    a.unregister_thread(&mut registry, gone);
    assert!(a.register_thread(&mut registry, next));
    assert_eq!(registry.entry(next, 1).unwrap().thread_data, at);
}

#[test]
fn dropping_an_instance_leaves_no_thread_an_entry_for_it() {
    let mut registry = Registry::new();
    let me = registry.add_thread();
    let other = registry.add_thread();
    let mut a = Rcu::new(0, &mut registry, me);
    let mut b = Rcu::new(0, &mut registry, me);
    let mut c = Rcu::new(0, &mut registry, other);
    assert!(a.register_thread(&mut registry, other));
    assert!(b.register_thread(&mut registry, other));
    assert!(c.register_thread(&mut registry, me));
    assert_eq!(instances_of(&registry, other), vec![3, 1, 2]);
    let freed = registry.entry(other, 1).unwrap().thread_data;

    let gp = match a.drop(&mut registry, me) {
        GcStatus::Waiting(gp) => gp,
        _ => panic!("the other thread is lagging"),
    };
    a.rcu_quiescent_state(&mut registry, other);
    assert!(matches!(a.resume_drop(&mut registry, gp), GcStatus::Done));
    assert_eq!(instances_of(&registry, me), vec![2, 3]);
    assert_eq!(instances_of(&registry, other), vec![3, 2]);
    assert!(registry.thread(freed).is_none());
    for thread in [me, other] {
        for id in [2, 3] {
            let at = registry.entry(thread, id).unwrap().thread_data;
            assert!(registry.thread(at).unwrap().active);
        }
    }
    // The address is free, and belongs to whoever registers next.
    let next = registry.add_thread();
    assert!(b.register_thread(&mut registry, next));
    assert!(registry.thread(registry.entry(next, 2).unwrap().thread_data).unwrap().active);
}

#[test]
fn creating_and_dropping_leaves_the_storage_as_it_was() {
    let mut registry = Registry::new();
    let me = registry.add_thread();
    let _kept = Rcu::new(0, &mut registry, me);
    let entry = registry.entry(me, 1);
    let mut brief = Rcu::new(0, &mut registry, me);
    let at = registry.entry(me, 2).unwrap().thread_data;
    assert!(matches!(brief.drop(&mut registry, me), GcStatus::Done));
    assert_eq!(instances_of(&registry, me), vec![1]);
    assert_eq!(registry.entry(me, 1), entry);
    assert!(registry.thread(at).is_none());
}

#[test]
fn leaving_an_instance_keeps_the_other_entries_in_order() {
    let mut registry = Registry::new();
    let me = registry.add_thread();
    let _first = Rcu::new(0, &mut registry, me);
    let second = Rcu::new(0, &mut registry, me);
    let _third = Rcu::new(0, &mut registry, me);
    second.unregister_thread(&mut registry, me);
    assert_eq!(instances_of(&registry, me), vec![1, 3]);
}

#[test]
fn removing_an_unknown_entry_changes_nothing() {
    let mut storage = ThreadStorage::new();
    remove_thread_local_storage(&mut storage, &ThreadLocalStorage::new(1, 0));
    assert_eq!(storage.len(), 0);
    assert!(storage.find(1).is_none());
}
