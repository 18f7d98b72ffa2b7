//! The domain of a whole process, and single pointers.
use qsbr_rcu::thread_data::{
    register_thread, resume_call_rcu, resume_synchronize, resume_synchronize_call,
    synchronize_call, CallPeriod, CallStatus, CallSync, Domain, DomainThread, RcuPointer,
    ThreadData,
};
use qsbr_rcu::{
    call_rcu, rcu_assign_pointer, rcu_dereference, rcu_read_lock, rcu_read_unlock,
    synchronize_rcu, GcStatus, Rcu, Registry,
};
use std::rc::Rc;

fn waiting(status: CallStatus) -> CallPeriod {
    match status {
        CallStatus::Waiting(period) => period,
        _ => panic!("the reclamation does not wait"),
    }
}

#[test]
fn nobody_to_wait_for() {
    let mut domain = Domain::new();
    let me = DomainThread::new();
    assert_eq!(domain.counter(), 1);
    assert!(synchronize_rcu(&mut domain, &me).is_ok());
    assert!(synchronize_rcu(&mut domain, &me).is_ok());
    assert_eq!(domain.counter(), 3);
}

#[test]
fn a_thread_does_not_wait_for_itself() {
    let mut domain = Domain::new();
    let mut me = DomainThread::new();
    rcu_read_lock(&mut domain, &mut me);
    rcu_read_unlock(&mut domain);
    for _ in 0..3 {
        assert!(synchronize_rcu(&mut domain, &me).is_ok());
    }
    assert_eq!(domain.counter(), 4);
}

#[test]
fn an_open_critical_section_is_waited_for() {
    let mut domain = Domain::new();
    let me = DomainThread::new();
    let mut reader = DomainThread::new();
    rcu_read_lock(&mut domain, &mut reader);
    let gp = synchronize_rcu(&mut domain, &me).err().unwrap();
    let gp = resume_synchronize(&domain, gp).err().unwrap();
    rcu_read_unlock(&mut domain);
    let gp = resume_synchronize(&domain, gp).err().unwrap();
    // The section counts as left when the thread enters its next one.
    rcu_read_lock(&mut domain, &mut reader);
    assert!(resume_synchronize(&domain, gp).is_ok());
    assert!(synchronize_rcu(&mut domain, &me).is_err());
}

#[test]
fn a_section_entered_inside_another_counts_from_the_later_counter() {
    let mut domain = Domain::new();
    let me = DomainThread::new();
    let mut reader = DomainThread::new();
    rcu_read_lock(&mut domain, &mut reader);
    let gp = synchronize_rcu(&mut domain, &me).err().unwrap();
    rcu_read_lock(&mut domain, &mut reader);
    assert!(resume_synchronize(&domain, gp).is_ok());
    assert!(synchronize_rcu(&mut domain, &me).is_err());
}

#[test]
fn a_thread_is_listed_once() {
    let mut domain = Domain::new();
    let mut a = DomainThread::new();
    let mut b = DomainThread::new();
    assert_eq!(register_thread(&mut domain, &mut a), 0);
    assert_eq!(register_thread(&mut domain, &mut b), 1);
    assert_eq!(register_thread(&mut domain, &mut a), 0);
    rcu_read_lock(&mut domain, &mut b);
    assert_eq!(register_thread(&mut domain, &mut b), 1);
    let mut c = DomainThread::new();
    rcu_read_lock(&mut domain, &mut c);
    assert_eq!(register_thread(&mut domain, &mut c), 2);
}

#[test]
fn a_registered_thread_that_never_read_lags() {
    let mut domain = Domain::new();
    let mut a = DomainThread::new();
    let mut b = DomainThread::new();
    let data = ThreadData::new();
    assert!(!data.registered);
    assert_eq!(data.local_counter, 0);
    register_thread(&mut domain, &mut a);
    assert!(synchronize_rcu(&mut domain, &a).is_ok());
    register_thread(&mut domain, &mut b);
    let gp = synchronize_rcu(&mut domain, &a).err().unwrap();
    rcu_read_lock(&mut domain, &mut b);
    assert!(resume_synchronize(&domain, gp).is_ok());
}

#[test]
fn pending_callbacks_are_processed_after_the_wait() {
    let mut registry = Registry::new();
    let me = registry.add_thread();
    let other = registry.add_thread();
    let value = Rc::new(42);
    let mut rcu = Rcu::new(Rc::clone(&value), &mut registry, me);
    rcu.write(|v| Rc::new(**v + 1)).unwrap();
    assert_eq!(Rc::strong_count(&value), 2);

    // Nobody else takes part: the wait is over at once, whatever the caller has open.
    let mut domain = Domain::new();
    let mut mine = DomainThread::new();
    rcu_read_lock(&mut domain, &mut mine);
    rcu.rcu_read_lock(&mut registry, me);
    let status = call_rcu(&mut rcu, &mut registry, me, &mut domain, &mine);
    assert!(matches!(status, CallStatus::Done));
    assert_eq!(domain.counter(), 2);
    assert_eq!(Rc::strong_count(&value), 1);
    rcu.read(&mut registry, me, |val| {
        assert_eq!(**val, 43);
    })
    .unwrap();

    // A critical section of the domain is waited for.
    let mut theirs = DomainThread::new();
    rcu_read_lock(&mut domain, &mut theirs);
    let second = rcu.read(&mut registry, me, |v| Rc::clone(v)).unwrap();
    rcu.write(|v| Rc::new(**v + 1)).unwrap();
    let period = waiting(call_rcu(&mut rcu, &mut registry, me, &mut domain, &mine));
    let period = waiting(resume_call_rcu(&mut rcu, &registry, &domain, period));
    assert_eq!(Rc::strong_count(&second), 2);
    rcu_read_lock(&mut domain, &mut theirs);
    let status = resume_call_rcu(&mut rcu, &registry, &domain, period);
    assert!(matches!(status, CallStatus::Done));
    assert_eq!(Rc::strong_count(&second), 1);

    // So is a critical section of the instance.
    assert!(rcu.register_thread(&mut registry, other));
    rcu.rcu_read_lock(&mut registry, other);
    let third = rcu.read(&mut registry, me, |v| Rc::clone(v)).unwrap();
    rcu.write(|v| Rc::new(**v + 1)).unwrap();
    let period = waiting(call_rcu(&mut rcu, &mut registry, me, &mut domain, &mine));
    rcu_read_lock(&mut domain, &mut theirs);
    let period = waiting(resume_call_rcu(&mut rcu, &registry, &domain, period));
    assert_eq!(Rc::strong_count(&third), 2);
    rcu.rcu_quiescent_state(&mut registry, other);
    let status = resume_call_rcu(&mut rcu, &registry, &domain, period);
    assert!(matches!(status, CallStatus::Done));
    assert_eq!(Rc::strong_count(&third), 1);
}

#[test]
fn a_waiting_collection_turns_the_reclamation_away() {
    let mut registry = Registry::new();
    let me = registry.add_thread();
    let reader = registry.add_thread();
    let mut rcu = Rcu::new(1, &mut registry, me);
    assert!(rcu.register_thread(&mut registry, reader));
    assert!(matches!(rcu.gc(&mut registry, me), GcStatus::Waiting(_)));
    let mut domain = Domain::new();
    let mine = DomainThread::new();
    let status = call_rcu(&mut rcu, &mut registry, me, &mut domain, &mine);
    assert!(matches!(status, CallStatus::Busy));
    let status = synchronize_call(&mut rcu, &mut registry, me, &mut domain, &mine);
    assert!(matches!(status, CallSync::Busy));
    assert_eq!(domain.counter(), 1);
}

#[test]
fn callbacks_are_handed_out_once_both_periods_are_over() {
    let mut registry = Registry::new();
    let me = registry.add_thread();
    let reader = registry.add_thread();
    let mut rcu = Rcu::new(1, &mut registry, me);
    assert!(rcu.register_thread(&mut registry, reader));
    rcu.write(|v| v + 1).unwrap();
    rcu.write(|v| v + 1).unwrap();
    let mut domain = Domain::new();
    let mine = DomainThread::new();
    let period = match synchronize_call(&mut rcu, &mut registry, me, &mut domain, &mine) {
        CallSync::Waiting(period) => period,
        _ => panic!("the reader is lagging"),
    };
    rcu.rcu_quiescent_state(&mut registry, reader);
    match resume_synchronize_call(&mut rcu, &registry, &domain, period) {
        CallSync::Safe(callbacks) => {
            let values: Vec<i32> = callbacks.callbacks().iter().map(|c| c.data).collect();
            assert_eq!(values, vec![1, 2]);
            rcu.process_callbacks(callbacks);
        }
        _ => panic!("nobody is lagging"),
    }
}

#[test]
fn pointers_are_assigned_and_followed() {
    let mut pointer = RcuPointer::new(None);
    assert!(rcu_dereference(&pointer).is_none());
    assert!(rcu_assign_pointer(&mut pointer, Some(Box::new(42))).is_none());
    assert_eq!(rcu_dereference(&pointer), Some(&42));
    let replaced = rcu_assign_pointer(&mut pointer, Some(Box::new(43)));
    assert_eq!(replaced, Some(Box::new(42)));
    assert_eq!(rcu_dereference(&pointer), Some(&43));
    assert_eq!(rcu_assign_pointer(&mut pointer, None), Some(Box::new(43)));
    assert!(rcu_dereference(&pointer).is_none());
}
