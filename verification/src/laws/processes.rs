//! Laws of a whole process: instances that come and go and share threads.
use vstd::prelude::*;

use crate::latest::{lemma_prefix_through, prefix_through};
use crate::laws::registration::{
    apart, entry_fits, law_every_step_keeps_tidy, law_new_registry_is_tidy,
    lemma_cleaned_list_is_linked, lemma_lists_are_disjoint, list_linked, tidy, RegistryStep,
};
use crate::laws::{registration, runs};
use crate::registry::{active_in, RegistryView};
use crate::storage::{of_instance, points_to, ThreadLocalStorage};

verus! {

/// The registry of a process, and its instances.
pub struct Process {
    /// What the instances and threads share.
    pub registry: RegistryView,
    /// The thread list of each instance there is, by its identifier.
    pub lists: Map<usize, Seq<usize>>,
}

/// A step of some thread.
pub enum ProcessStep {
    /// The thread starts.
    AddThread,
    /// A thread creates an instance. It registers in a step of its own.
    Create,
    /// The thread registers with the instance; its data stands at the address.
    Register(usize, usize, usize),
    /// The thread announces the counter to the instance, on entering a critical section or not.
    Announce(usize, usize, usize, bool),
    /// The thread leaves the instance.
    Unregister(usize, usize),
    /// The thread stops taking part anywhere.
    DropThreadData(usize),
    /// A collection of the instance cleans up.
    Collect(usize),
    /// The instance is dropped.
    Drop(usize),
}

/// The instance that `step` is about.
pub open spec fn instance_of(step: ProcessStep) -> Option<usize> {
    match step {
        ProcessStep::Register(_, id, _) => Some(id),
        ProcessStep::Announce(_, id, _, _) => Some(id),
        ProcessStep::Unregister(_, id) => Some(id),
        ProcessStep::Collect(id) => Some(id),
        ProcessStep::Drop(id) => Some(id),
        _ => None,
    }
}

/// What `step` does to the registry.
pub open spec fn registry_step(p: Process, step: ProcessStep) -> RegistryStep {
    match step {
        ProcessStep::AddThread => RegistryStep::AddThread,
        ProcessStep::Create => RegistryStep::NewInstance,
        ProcessStep::Register(thread, id, at) => RegistryStep::Register(thread, id, at),
        ProcessStep::Announce(thread, id, counter, reading) => RegistryStep::Announce(
            thread,
            id,
            counter,
            reading,
        ),
        ProcessStep::Unregister(thread, id) => RegistryStep::Unregister(thread, id),
        ProcessStep::DropThreadData(thread) => RegistryStep::DropThreadData(thread),
        ProcessStep::Collect(id) => RegistryStep::Clean(p.lists[id]),
        ProcessStep::Drop(id) => RegistryStep::Release(id, p.lists[id]),
    }
}

/// Whether a thread can take `step`: it is about an instance there is, and the registry allows
/// it.
pub open spec fn possible(p: Process, step: ProcessStep) -> bool {
    &&& instance_of(step) matches Some(id) ==> p.lists.contains_key(id)
    &&& registration::possible(p.registry, registry_step(p, step))
}

/// The process after `step`.
pub open spec fn after_step(p: Process, step: ProcessStep) -> Process {
    Process {
        registry: registration::after_step(p.registry, registry_step(p, step)),
        lists: match step {
            ProcessStep::Create => p.lists.insert(p.registry.next_rcu_id, Seq::empty()),
            ProcessStep::Register(_, id, at) => p.lists.insert(id, p.lists[id].push(at)),
            ProcessStep::Collect(id) => p.lists.insert(
                id,
                p.lists[id].filter(active_in(p.registry.threads)),
            ),
            ProcessStep::Drop(id) => p.lists.remove(id),
            _ => p.lists,
        },
    }
}

/// The process after `steps`, in whatever order the threads came to take them.
pub open spec fn after_steps(p: Process, steps: Seq<ProcessStep>) -> Process
    decreases steps.len(),
{
    if steps.len() == 0 {
        p
    } else {
        after_step(after_steps(p, steps.drop_last()), steps.last())
    }
}

/// Whether each of `steps` can be taken when its turn comes.
pub open spec fn all_possible(p: Process, steps: Seq<ProcessStep>) -> bool
    decreases steps.len(),
{
    steps.len() == 0 || (all_possible(p, steps.drop_last()) && possible(
        after_steps(p, steps.drop_last()),
        steps.last(),
    ))
}

/// The registry is tidy, and every instance and its threads are tied to each other.
pub open spec fn orderly(p: Process) -> bool {
    &&& tidy(p.registry)
    &&& forall|id: usize| #[trigger]
        p.lists.contains_key(id) ==> id < p.registry.next_rcu_id && list_linked(
            p.lists[id],
            id,
            p.registry.threads,
        )
}

/// A new process is orderly.
pub proof fn law_new_process_is_orderly(p: Process)
    requires
        p.registry.storages.len() == 0,
        p.lists == Map::<usize, Seq<usize>>::empty(),
    ensures
        orderly(p),
{
    law_new_registry_is_tidy(p.registry);
}

/// Every step keeps the process orderly.
pub proof fn law_every_step_is_orderly(p: Process, step: ProcessStep)
    requires
        orderly(p),
        possible(p, step),
    ensures
        orderly(after_step(p, step)),
{
    let q = after_step(p, step);
    law_every_step_keeps_tidy(p.registry, registry_step(p, step));
    assert forall|id: usize| #[trigger] q.lists.contains_key(id) implies id
        < q.registry.next_rcu_id && list_linked(q.lists[id], id, q.registry.threads) by {
        if step != ProcessStep::Create || id != p.registry.next_rcu_id {
            assert(p.lists.contains_key(id));
            lemma_step_keeps_list_linked(p, step, id);
        }
    }
}

proof fn lemma_step_keeps_list_linked(p: Process, step: ProcessStep, id: usize)
    requires
        orderly(p),
        possible(p, step),
        p.lists.contains_key(id),
        step != ProcessStep::Drop(id),
    ensures
        list_linked(after_step(p, step).lists[id], id, after_step(p, step).registry.threads),
{
    let q = after_step(p, step);
    let list = p.lists[id];
    let threads = p.registry.threads;
    let after = q.registry.threads;
    match step {
        ProcessStep::Register(_, other, at) => {
            if other == id {
                let more = q.lists[id];
                assert forall|i: int| 0 <= i < more.len() implies {
                    let x = #[trigger] more[i];
                    after.contains_key(x) && after[x].tls_ptr == Some(
                        ThreadLocalStorage { thread_data: x, rcu_id: id },
                    )
                } by {
                    if i < list.len() {
                        assert(more[i] == list[i]);
                    }
                }
                assert forall|i: int, j: int|
                    0 <= i < more.len() && 0 <= j < more.len() && i != j implies more[i]
                    != more[j] by {
                    if i < list.len() {
                        assert(threads.contains_key(list[i]));
                    }
                    if j < list.len() {
                        assert(threads.contains_key(list[j]));
                    }
                }
            }
        },
        ProcessStep::Collect(other) => {
            if other == id {
                lemma_cleaned_list_is_linked(list, id, threads);
            } else {
                assert forall|i: int| 0 <= i < list.len() implies !p.lists[other].contains(
                    #[trigger] list[i],
                ) by {
                    lemma_lists_are_disjoint(p.lists[other], other, list, id, threads, i);
                }
            }
        },
        ProcessStep::Drop(other) => {
            assert forall|i: int| 0 <= i < list.len() implies !p.lists[other].contains(
                #[trigger] list[i],
            ) by {
                lemma_lists_are_disjoint(p.lists[other], other, list, id, threads, i);
            }
        },
        _ => {},
    }
}

/// However threads register, announce, collect, leave, and create and drop instances, every
/// instance there is and its threads stay tied to each other: nothing that is listed has been
/// given back, and no two instances list the same thread data.
pub proof fn law_every_run_is_orderly(p: Process, steps: Seq<ProcessStep>)
    requires
        orderly(p),
        all_possible(p, steps),
    ensures
        orderly(after_steps(p, steps)),
    decreases steps.len(),
{
    if steps.len() > 0 {
        law_every_run_is_orderly(p, steps.drop_last());
        law_every_step_is_orderly(after_steps(p, steps.drop_last()), steps.last());
    }
}

// What an instance sees of the process.

/// Where the data of `thread` for the instance `id` stands, if it is in use, it belongs to that
/// instance.
proof fn lemma_data_belongs_to_instance(p: Process, thread: usize, id: usize)
    requires
        orderly(p),
    ensures
        p.registry.data_of(thread, id) matches Some(at) ==> (p.registry.threads.contains_key(at)
            ==> p.registry.threads[at].tls_ptr == Some(
            ThreadLocalStorage { thread_data: at, rcu_id: id },
        )),
{
    let entries = p.registry.entries(thread);
    lemma_prefix_through(entries, of_instance(id));
    if p.registry.data_of(thread, id) is Some {
        let k = prefix_through(entries, of_instance(id)) - 1;
        assert(entry_fits(p.registry, p.registry.storages[thread as int][k]));
    }
}

/// What happens to one instance leaves the thread data of every other alone. So runs of one
/// instance stay runs, whatever the others do in between.
pub proof fn law_instances_leave_each_other_alone<T>(
    p: Process,
    step: ProcessStep,
    id: usize,
    w: runs::World<T>,
)
    requires
        orderly(p),
        possible(p, step),
        p.lists.contains_key(id),
        instance_of(step) != Some(id),
        !(step is DropThreadData),
        w.rcu.threads == p.lists[id],
        w.threads == p.registry.threads,
    ensures
        runs::possible(w, runs::Step::Others(after_step(p, step).registry.threads)),
        after_step(p, step).lists[id] == p.lists[id],
{
    let list = p.lists[id];
    let threads = p.registry.threads;
    let after = after_step(p, step).registry.threads;
    assert forall|x: usize| #[trigger] list.contains(x) implies after.contains_key(x)
        && threads.contains_key(x) && after[x] == threads[x] by {
        let i = choose|i: int| 0 <= i < list.len() && list[i] == x;
        assert(threads.contains_key(list[i]));
        match step {
            ProcessStep::Announce(thread, other, _, _) => {
                lemma_data_belongs_to_instance(p, thread, other);
            },
            ProcessStep::Unregister(thread, other) => {
                lemma_data_belongs_to_instance(p, thread, other);
            },
            ProcessStep::Collect(other) => {
                lemma_lists_are_disjoint(p.lists[other], other, list, id, threads, i);
            },
            ProcessStep::Drop(other) => {
                lemma_lists_are_disjoint(p.lists[other], other, list, id, threads, i);
            },
            _ => {},
        }
    }
}

/// To an instance, a thread that stops taking part anywhere is one that leaves it, if it was
/// registered there.
pub proof fn law_dropping_thread_data_is_leaving<T>(
    p: Process,
    thread: usize,
    id: usize,
    w: runs::World<T>,
)
    requires
        orderly(p),
        p.lists.contains_key(id),
        w.rcu.threads == p.lists[id],
        w.threads == p.registry.threads,
    ensures
        ({
            let after = after_step(p, ProcessStep::DropThreadData(thread)).registry.threads;
            let left = match p.registry.data_of(thread, id) {
                Some(at) => runs::after_step(w, runs::Step::Unregister(at)),
                None => w,
            };
            runs::possible(left, runs::Step::Others(after))
        }),
{
    let list = p.lists[id];
    let threads = p.registry.threads;
    let entries = p.registry.entries(thread);
    let after = after_step(p, ProcessStep::DropThreadData(thread)).registry.threads;
    let left = match p.registry.data_of(thread, id) {
        Some(at) => runs::after_step(w, runs::Step::Unregister(at)),
        None => w,
    };
    lemma_prefix_through(entries, of_instance(id));
    assert forall|x: usize| #[trigger] list.contains(x) implies after.contains_key(x)
        && left.threads.contains_key(x) && after[x] == left.threads[x] by {
        let i = choose|i: int| 0 <= i < list.len() && list[i] == x;
        assert(threads.contains_key(list[i]));
        let k = prefix_through(entries, of_instance(id)) - 1;
        if points_to(entries, x) {
            let j = choose|j: int|
                0 <= j < entries.len() && (#[trigger] entries[j]).thread_data == x;
            assert(entry_fits(p.registry, p.registry.storages[thread as int][j]));
            assert(entries[j].rcu_id == id);
            assert(of_instance(id)(entries[j]));
            assert(apart(p.registry.storages[thread as int]));
            assert(j == k);
        } else if k >= 0 {
            assert(entries[k].thread_data != x);
        }
    }
}

/// What happens to an instance itself in the process is a step of its own runs.
pub proof fn law_own_steps_are_steps<T>(
    p: Process,
    step: ProcessStep,
    id: usize,
    w: runs::World<T>,
)
    requires
        orderly(p),
        possible(p, step),
        instance_of(step) == Some(id),
        w.rcu.rcu_id == id,
        w.rcu.threads == p.lists[id],
        w.threads == p.registry.threads,
    ensures
        ({
            let q = after_step(p, step);
            match step {
                ProcessStep::Register(_, _, at) => {
                    let entry = ThreadLocalStorage { thread_data: at, rcu_id: id };
                    let v = runs::after_step(w, runs::Step::Register(entry));
                    &&& !w.rcu.thread_list_locked ==> runs::possible(
                        w,
                        runs::Step::Register(entry),
                    )
                    &&& v.threads == q.registry.threads
                    &&& v.rcu.threads == q.lists[id]
                },
                ProcessStep::Announce(thread, _, counter, reading) => {
                    p.registry.data_of(thread, id) matches Some(at) ==> (counter == w.rcu.counter
                        ==> q.registry.threads == runs::after_step(
                        w,
                        if reading {
                            runs::Step::Read(at)
                        } else {
                            runs::Step::Quiesce(at)
                        },
                    ).threads)
                },
                ProcessStep::Unregister(thread, _) => {
                    p.registry.data_of(thread, id) matches Some(at) ==> q.registry.threads
                        == runs::after_step(w, runs::Step::Unregister(at)).threads
                },
                ProcessStep::Collect(_) => {
                    let v = runs::after_step(w, runs::Step::Clean);
                    &&& v.threads == q.registry.threads
                    &&& v.rcu.threads == q.lists[id]
                },
                _ => true,
            }
        }),
{
}

/// A dropped instance leaves no trace: no thread has an entry for it, nothing it listed is in
/// use, and no entry that any thread has left leads to what was given back.
pub proof fn law_dropped_instance_leaves_no_trace(p: Process, id: usize, t: int, i: int)
    requires
        orderly(p),
        p.lists.contains_key(id),
    ensures
        ({
            let q = after_step(p, ProcessStep::Drop(id));
            &&& forall|at: usize| #[trigger]
                p.lists[id].contains(at) ==> !q.registry.threads.contains_key(at)
            &&& 0 <= t < q.registry.storages.len() && 0 <= i < q.registry.storages[t].len() ==> {
                let entry = q.registry.storages[t][i];
                &&& entry.rcu_id != id
                &&& !p.lists[id].contains(entry.thread_data)
            }
        }),
{
    let q = after_step(p, ProcessStep::Drop(id));
    let keep = crate::storage::of_other_instances(id);
    if 0 <= t < q.registry.storages.len() && 0 <= i < q.registry.storages[t].len() {
        let all = p.registry.storages[t];
        let entry = q.registry.storages[t][i];
        all.lemma_filter_pred(keep, i);
        assert(q.registry.storages[t].contains(entry));
        all.lemma_filter_contains_rev(keep, entry);
        let j = choose|j: int| 0 <= j < all.len() && all[j] == entry;
        assert(entry_fits(p.registry, p.registry.storages[t][j]));
        if p.lists[id].contains(entry.thread_data) {
            let list = p.lists[id];
            let k = choose|k: int| 0 <= k < list.len() && list[k] == entry.thread_data;
            assert(p.registry.threads.contains_key(list[k]));
        }
    }
}

} // verus!
