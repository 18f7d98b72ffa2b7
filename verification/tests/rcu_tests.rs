use qsbr_rcu::{GcStatus, Rcu, Registry};
use std::cell::Cell;
use std::rc::Rc;

/// Increments the value stored in the instance.
fn increment_rcu_value(rcu: &mut Rcu<i32>) {
    rcu.write(|current| current + 1).unwrap();
}

/// One read of a heavy read workload.
fn simulate_read(rcu: &Rcu<i32>, registry: &mut Registry, thread: usize) {
    let _ = rcu.read(registry, thread, |val| {
        assert!(*val >= 42);
    });
}

fn registered_threads(
    rcu: &mut Rcu<i32>,
    registry: &mut Registry,
    num_threads: i32,
) -> Vec<usize> {
    let mut threads = Vec::new();
    for _ in 0..num_threads {
        let thread = registry.add_thread();
        assert!(rcu.register_thread(registry, thread));
        threads.push(thread);
    }
    threads
}

fn collect<T>(rcu: &mut Rcu<T>, registry: &mut Registry, thread: usize) {
    assert!(matches!(rcu.gc(registry, thread), GcStatus::Done));
}

#[test]
fn atomic_write_test() {
    let mut registry = Registry::new();
    let me = registry.add_thread();
    let mut rcu = Rcu::new(42, &mut registry, me);
    let num_threads = 10;
    let increments_per_thread = 100;
    let read_iterations = 1000;

    let writers = registered_threads(&mut rcu, &mut registry, num_threads);
    let readers = registered_threads(&mut rcu, &mut registry, num_threads);

    // The first increments meet nobody.
    for _ in 0..num_threads {
        increment_rcu_value(&mut rcu);
    }
    // From then on all writers load the same version; all but one find it replaced and start
    // over.
    let mut done = vec![1; 10];
    while done.iter().any(|n| *n < increments_per_thread) {
        let loaded = (rcu.version(), *rcu.rcu_dereference().unwrap());
        let mut installed = 0;
        for i in 0..10 {
            if done[i] == increments_per_thread {
                continue;
            }
            match rcu.compare_exchange(loaded.0, loaded.1 + 1) {
                Ok(replaced) => {
                    rcu.add_callback(replaced);
                    done[i] += 1;
                    installed += 1;
                }
                Err(refused) => assert_eq!(refused, loaded.1 + 1),
            }
        }
        assert_eq!(installed, 1);
    }
    for _ in 0..read_iterations {
        for reader in &readers {
            simulate_read(&rcu, &mut registry, *reader);
        }
    }
    for thread in writers.iter().chain(readers.iter()) {
        rcu.rcu_quiescent_state(&mut registry, *thread);
        rcu.unregister_thread(&mut registry, *thread);
    }

    collect(&mut rcu, &mut registry, me);

    let final_value = rcu.read(&mut registry, me, |d| *d).unwrap();
    assert_eq!(final_value, 42 + num_threads * increments_per_thread);
}

#[test]
fn test_rcu_multithreaded_update_and_callback() {
    let mut registry = Registry::new();
    let me = registry.add_thread();
    let mut rcu = Rcu::new(42, &mut registry, me);
    let num_threads = 10;
    let increments_per_thread = 100;
    let read_iterations = 1000;

    let writers = registered_threads(&mut rcu, &mut registry, num_threads);
    let readers = registered_threads(&mut rcu, &mut registry, num_threads);

    // The threads take turns: every reader reads ten times between two rounds of increments.
    for _ in 0..increments_per_thread {
        for _ in 0..num_threads {
            increment_rcu_value(&mut rcu);
        }
        for _ in 0..read_iterations / increments_per_thread {
            for reader in &readers {
                simulate_read(&rcu, &mut registry, *reader);
            }
        }
    }
    for thread in writers.iter().chain(readers.iter()) {
        rcu.rcu_quiescent_state(&mut registry, *thread);
        rcu.unregister_thread(&mut registry, *thread);
    }

    collect(&mut rcu, &mut registry, me);

    let final_value = rcu.read(&mut registry, me, |d| *d).unwrap();
    assert_eq!(final_value, 42 + num_threads * increments_per_thread);
}

#[test]
fn test_rcu_callback_processing() {
    let mut registry = Registry::new();
    let me = registry.add_thread();
    let mut rcu = Rcu::new(42, &mut registry, me);

    for _ in 0..10 {
        increment_rcu_value(&mut rcu);
    }

    collect(&mut rcu, &mut registry, me);

    rcu.read(&mut registry, me, |val| {
        println!("Value after callback processing: {}", val);
        assert!(*val >= 42);
        assert_eq!(*val, 52);
    })
    .unwrap();
}

/// A struct that increments a counter when dropped.
struct DropCounter {
    value: i32,
    drop_count: Rc<Cell<usize>>,
}

impl Drop for DropCounter {
    fn drop(&mut self) {
        self.drop_count.set(self.drop_count.get() + 1);
    }
}

#[test]
fn test_rcu_garbage_collection() {
    let drop_count = Rc::new(Cell::new(0));
    let initial_drop_count = drop_count.get();

    let mut registry = Registry::new();
    let me = registry.add_thread();
    let mut rcu = Rcu::new(
        DropCounter { value: 0, drop_count: Rc::clone(&drop_count) },
        &mut registry,
        me,
    );

    let num_updates = 100;
    for _ in 1..=num_updates {
        let drop_count_clone = Rc::clone(&drop_count);
        rcu.write(|data| DropCounter {
            value: data.value + 1,
            drop_count: Rc::clone(&drop_count_clone),
        })
        .unwrap();
    }
    assert_eq!(drop_count.get(), initial_drop_count);

    collect(&mut rcu, &mut registry, me);

    let expected_drops = initial_drop_count + num_updates;
    let actual_drops = drop_count.get();
    assert_eq!(actual_drops, expected_drops, "Garbage collection did not free all old data.");
    println!("Test passed. All old data has been properly freed.");

    // The current value goes with the instance.
    assert_eq!(rcu.read(&mut registry, me, |data| data.value), Ok(100));
    assert!(matches!(rcu.drop(&mut registry, me), GcStatus::Done));
    assert_eq!(drop_count.get(), expected_drops + 1);
}

#[test]
fn test_rcu_no_memory_leak() {
    let alloc_count = Cell::new(0);
    let mut registry = Registry::new();
    let me = registry.add_thread();
    let mut rcu = Rcu::new(
        {
            alloc_count.set(alloc_count.get() + 1);
            0
        },
        &mut registry,
        me,
    );

    let num_threads = 5;
    let updates_per_thread = 50;

    let threads = registered_threads(&mut rcu, &mut registry, num_threads);
    for _ in 0..updates_per_thread {
        for _ in 0..num_threads {
            rcu.write(|data| {
                alloc_count.set(alloc_count.get() + 1);
                data + 1
            })
            .unwrap();
        }
    }
    for thread in &threads {
        rcu.rcu_quiescent_state(&mut registry, *thread);
        rcu.unregister_thread(&mut registry, *thread);
    }

    rcu.read(&mut registry, me, |_| {}).unwrap();
    collect(&mut rcu, &mut registry, me);

    let final_value = rcu.read(&mut registry, me, |d| *d).unwrap();
    let expected_final_value = num_threads * updates_per_thread;
    assert_eq!(final_value, expected_final_value);
    assert_eq!(alloc_count.get(), 1 + expected_final_value);
    println!("Test passed. No memory leaks detected, final value: {}", final_value);
}
