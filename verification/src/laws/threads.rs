//! What each operation does to the threads' entries and data, told by what was there before and
//! is there after.
use vstd::prelude::*;

use crate::grace::{caught_up, lags};
use crate::latest::{lemma_prefix_through, prefix_through};
use crate::rcu::{registered, RcuView};
use crate::registry::{is_active, RegistryView};
use crate::storage::{
    lookup, of_instance, of_other_instances, other_entries, points_to, same_entry, without,
    ThreadLocalStorage,
};

verus! {

// Entries.

/// Looking an instance up finds the most recent entry for it, and fails exactly where there is
/// none.
pub proof fn law_lookup_finds_the_most_recent(entries: Seq<ThreadLocalStorage>, rcu_id: usize)
    ensures
        lookup(entries, rcu_id) is None <==> forall|i: int|
            0 <= i < entries.len() ==> (#[trigger] entries[i]).rcu_id != rcu_id,
        lookup(entries, rcu_id) matches Some(entry) ==> exists|i: int|
            {
                &&& 0 <= i < entries.len()
                &&& #[trigger] entries[i] == entry
                &&& entry.rcu_id == rcu_id
                &&& forall|j: int|
                    i < j < entries.len() ==> (#[trigger] entries[j]).rcu_id != rcu_id
            },
{
    lemma_prefix_through(entries, of_instance(rcu_id));
    let k = prefix_through(entries, of_instance(rcu_id)) as int;
    assert forall|j: int| k <= j < entries.len() implies (#[trigger] entries[j]).rcu_id
        != rcu_id by {
        assert(!of_instance(rcu_id)(entries[j]));
    }
    if k > 0 {
        assert(entries[k - 1].rcu_id == rcu_id);
    }
}

/// A thread's entries are what the registry keeps under its number; a number that no thread has
/// stands for none.
pub proof fn law_entries_are_kept_by_number(registry: RegistryView, thread: usize)
    ensures
        thread < registry.storages.len() ==> registry.entries(thread)
            == registry.storages[thread as int],
        thread >= registry.storages.len() ==> registry.entries(thread).len() == 0,
{
}

/// An address is named exactly where some entry of some thread leads to it.
pub proof fn law_named_addresses_are_those_entries_lead_to(registry: RegistryView, at: usize)
    ensures
        registry.is_named(at) <==> exists|t: int, i: int|
            0 <= t < registry.storages.len() && 0 <= i < registry.storages[t].len() && (
            #[trigger] registry.storages[t][i]).thread_data == at,
{
    if registry.is_named(at) {
        let t = choose|t: int|
            0 <= t < registry.storages.len() && points_to(#[trigger] registry.storages[t], at);
        let entries = registry.storages[t];
        let i = choose|i: int|
            0 <= i < entries.len() && (#[trigger] entries[i]).thread_data == at;
        assert(registry.storages[t][i].thread_data == at);
    }
    if exists|t: int, i: int|
        0 <= t < registry.storages.len() && 0 <= i < registry.storages[t].len() && (
        #[trigger] registry.storages[t][i]).thread_data == at {
        let (t, i) = choose|t: int, i: int|
            0 <= t < registry.storages.len() && 0 <= i < registry.storages[t].len() && (
            #[trigger] registry.storages[t][i]).thread_data == at;
        assert(points_to(registry.storages[t], at));
    }
}

/// Where the data of a thread for an instance stands is what its most recent entry for the
/// instance says.
pub proof fn law_data_is_where_the_entry_says(
    registry: RegistryView,
    thread: usize,
    rcu_id: usize,
    i: int,
)
    requires
        thread < registry.storages.len(),
        0 <= i < registry.storages[thread as int].len(),
        registry.storages[thread as int][i].rcu_id == rcu_id,
        forall|j: int|
            i < j < registry.storages[thread as int].len() ==> (
            #[trigger] registry.storages[thread as int][j]).rcu_id != rcu_id,
    ensures
        lookup(registry.storages[thread as int], rcu_id) == Some(
            registry.storages[thread as int][i],
        ),
        registry.data_of(thread, rcu_id) == Some(
            registry.storages[thread as int][i].thread_data,
        ),
{
    let entries = registry.storages[thread as int];
    law_lookup_finds_the_most_recent(entries, rcu_id);
    assert(entries[i].rcu_id == rcu_id);
    let entry = lookup(entries, rcu_id)->0;
    let k = choose|k: int|
        {
            &&& 0 <= k < entries.len()
            &&& #[trigger] entries[k] == entry
            &&& entry.rcu_id == rcu_id
            &&& forall|j: int| k < j < entries.len() ==> (#[trigger] entries[j]).rcu_id != rcu_id
        };
    if k < i {
        assert(entries[i].rcu_id != rcu_id);
    }
    if i < k {
        assert(entries[k].rcu_id != rcu_id);
    }
}

/// A thread without an entry for an instance has no data there.
pub proof fn law_no_data_without_entry(registry: RegistryView, thread: usize, rcu_id: usize)
    requires
        thread < registry.storages.len() ==> forall|i: int|
            0 <= i < registry.storages[thread as int].len() ==> (
            #[trigger] registry.storages[thread as int][i]).rcu_id != rcu_id,
    ensures
        registry.data_of(thread, rcu_id) is None,
{
    law_lookup_finds_the_most_recent(registry.entries(thread), rcu_id);
}

/// Removing an entry takes out the most recent one equal to it, and leaves the others in order;
/// where there is none, all stay.
pub proof fn law_removing_takes_out_one_entry(
    entries: Seq<ThreadLocalStorage>,
    entry: ThreadLocalStorage,
)
    ensures
        entries.contains(entry) ==> exists|k: int|
            {
                &&& 0 <= k < entries.len()
                &&& #[trigger] entries[k] == entry
                &&& forall|j: int| k < j < entries.len() ==> #[trigger] entries[j] != entry
                &&& without(entries, entry) == entries.remove(k)
            },
        !entries.contains(entry) ==> without(entries, entry) == entries,
{
    lemma_prefix_through(entries, same_entry(entry));
    let k = prefix_through(entries, same_entry(entry)) as int;
    assert forall|j: int| k <= j < entries.len() implies #[trigger] entries[j] != entry by {
        assert(!same_entry(entry)(entries[j]));
    }
    if k > 0 {
        assert(entries[k - 1] == entry);
        assert(entries.contains(entry));
    }
}

/// Removing an instance takes out all of its entries, and leaves the others in order.
pub proof fn law_removing_an_instance_takes_out_its_entries(
    entries: Seq<ThreadLocalStorage>,
    rcu_id: usize,
)
    ensures
        other_entries(entries, rcu_id) == entries.filter(
            |e: ThreadLocalStorage| e.rcu_id != rcu_id,
        ),
        forall|i: int|
            0 <= i < other_entries(entries, rcu_id).len() ==> (#[trigger] other_entries(
                entries,
                rcu_id,
            )[i]).rcu_id != rcu_id,
        forall|e: ThreadLocalStorage|
            e.rcu_id != rcu_id ==> (#[trigger] other_entries(entries, rcu_id).contains(e)
                <==> entries.contains(e)),
{
    let keep = |e: ThreadLocalStorage| e.rcu_id != rcu_id;
    assert(keep =~= of_other_instances(rcu_id));
    let rest = other_entries(entries, rcu_id);
    assert forall|i: int| 0 <= i < rest.len() implies (#[trigger] rest[i]).rcu_id != rcu_id by {
        entries.lemma_filter_pred(keep, i);
    }
    assert forall|e: ThreadLocalStorage| e.rcu_id != rcu_id implies (#[trigger] rest.contains(e)
        <==> entries.contains(e)) by {
        if rest.contains(e) {
            entries.lemma_filter_contains_rev(keep, e);
        }
        if entries.contains(e) {
            let i = choose|i: int| 0 <= i < entries.len() && entries[i] == e;
            entries.lemma_filter_contains(keep, i);
        }
    }
}

// Announcing.

/// Announcing, on entering a critical section or in a quiescent state, says the counter and
/// which of the two it was, at the thread's own data for the instance, and changes nothing else:
/// whoever was active stays active, and every entry stays.
pub proof fn law_announcing_only_announces(
    registry: RegistryView,
    thread: usize,
    rcu_id: usize,
    counter: usize,
    reading: bool,
)
    ensures
        ({
            let after = registry.after_announce(thread, rcu_id, counter, reading);
            &&& after.storages == registry.storages
            &&& after.next_rcu_id == registry.next_rcu_id
            &&& forall|at: usize| #[trigger]
                after.threads.contains_key(at) <==> registry.threads.contains_key(at)
            &&& forall|at: usize| #[trigger]
                registry.threads.contains_key(at) ==> {
                    &&& after.threads[at].active == registry.threads[at].active
                    &&& after.threads[at].tls_ptr == registry.threads[at].tls_ptr
                    &&& if registry.data_of(thread, rcu_id) == Some(at) {
                        &&& after.threads[at].local_counter == counter
                        &&& after.threads[at].reading == reading
                    } else {
                        &&& after.threads[at].local_counter == registry.threads[at].local_counter
                        &&& after.threads[at].reading == registry.threads[at].reading
                    }
                }
        }),
{
}

/// A thread that has entered a critical section holds up every collection that begins at that
/// counter or later, however the other threads stand, unless it collects itself.
pub proof fn law_reader_holds_up_collections(
    registry: RegistryView,
    thread: usize,
    rcu_id: usize,
    counter: usize,
    list: Seq<usize>,
    old_counter: usize,
    caller: Option<usize>,
)
    requires
        registry.data_of(thread, rcu_id) matches Some(at) && registry.threads.contains_key(at)
            && registry.threads[at].active && list.contains(at) && caller != Some(at),
        old_counter >= counter,
    ensures
        !caught_up(
            registry.after_announce(thread, rcu_id, counter, true).threads,
            list,
            old_counter,
            caller,
        ),
{
    let at = registry.data_of(thread, rcu_id)->0;
    let after = registry.after_announce(thread, rcu_id, counter, true).threads;
    let k = choose|k: int| 0 <= k < list.len() && list[k] == at;
    assert(is_active(after, list[k]));
    assert(lags(after[list[k]], old_counter));
}

// Registering and leaving.

/// Registering succeeds exactly where the thread has an entry or the thread list is free. A
/// thread for which it has succeeded has an entry for the instance. One that had none before has
/// one new entry, behind its others, that leads to new data, which is active, shows nothing
/// announced, points back, and is on the instance's list. Whatever the instance has queued does
/// not matter, and nobody else is concerned.
pub proof fn law_registered_thread_is_tracked<T>(
    before: RegistryView,
    thread: usize,
    rcu: RcuView<T>,
    after: RegistryView,
    rcu_after: RcuView<T>,
    done: bool,
)
    requires
        thread < before.storages.len(),
        registered(before, thread, rcu, after, rcu_after, done),
    ensures
        ({
            let old_entries = before.storages[thread as int];
            let entries = after.storages[thread as int];
            let had = exists|i: int|
                0 <= i < old_entries.len() && (#[trigger] old_entries[i]).rcu_id == rcu.rcu_id;
            &&& done <==> had || !rcu.thread_list_locked
            &&& done ==> exists|i: int|
                0 <= i < entries.len() && (#[trigger] entries[i]).rcu_id == rcu.rcu_id
            &&& had || !done ==> after == before && rcu_after == rcu
            &&& done && !had ==> {
                let n = old_entries.len() as int;
                let at = entries[n].thread_data;
                &&& entries.len() == n + 1
                &&& entries[n].rcu_id == rcu.rcu_id
                &&& forall|i: int| 0 <= i < n ==> #[trigger] entries[i] == old_entries[i]
                &&& after.threads.contains_key(at)
                &&& after.threads[at].active
                &&& !after.threads[at].reading
                &&& after.threads[at].local_counter == 0
                &&& after.threads[at].tls_ptr == Some(entries[n])
                &&& !before.threads.contains_key(at)
                &&& forall|t: int, i: int|
                    0 <= t < before.storages.len() && 0 <= i < before.storages[t].len() ==> (
                    #[trigger] before.storages[t][i]).thread_data != at
                &&& rcu_after.threads.len() == rcu.threads.len() + 1
                &&& rcu_after.threads[rcu.threads.len() as int] == at
                &&& forall|i: int|
                    0 <= i < rcu.threads.len() ==> #[trigger] rcu_after.threads[i]
                        == rcu.threads[i]
                &&& rcu_after.current == rcu.current
                &&& rcu_after.version == rcu.version
                &&& rcu_after.callbacks == rcu.callbacks
                &&& rcu_after.counter == rcu.counter
                &&& rcu_after.rcu_id == rcu.rcu_id
                &&& rcu_after.thread_list_locked == rcu.thread_list_locked
                &&& rcu_after.sync_locked == rcu.sync_locked
                &&& rcu_after.callback_list_locked == rcu.callback_list_locked
                &&& rcu_after.ledger == rcu.ledger
                &&& after.next_rcu_id == before.next_rcu_id
                &&& after.storages.len() == before.storages.len()
                &&& forall|t: int|
                    0 <= t < before.storages.len() && t != thread
                        ==> #[trigger] after.storages[t] == before.storages[t]
                &&& forall|x: usize| #[trigger]
                    after.threads.contains_key(x) <==> before.threads.contains_key(x) || x == at
                &&& forall|x: usize| #[trigger]
                    before.threads.contains_key(x) ==> after.threads[x] == before.threads[x]
            }
        }),
{
    let old_entries = before.storages[thread as int];
    law_lookup_finds_the_most_recent(old_entries, rcu.rcu_id);
    if lookup(old_entries, rcu.rcu_id) is None && !rcu.thread_list_locked {
        let entries = after.storages[thread as int];
        let n = old_entries.len() as int;
        let at = after.entries(thread).last().thread_data;
        assert(entries.len() == n + 1);
        assert(entries[n].thread_data == at);
        assert forall|t: int, i: int|
            0 <= t < before.storages.len() && 0 <= i < before.storages[t].len() implies (
        #[trigger] before.storages[t][i]).thread_data != at by {
            if before.storages[t][i].thread_data == at {
                assert(points_to(before.storages[t], at));
                assert(before.is_named(at));
            }
        }
    }
}

/// A registration adds one entry behind the thread's others, and the data it leads to, tied to
/// each other; nothing else is changed.
pub proof fn law_registration_adds_one_entry(
    registry: RegistryView,
    thread: usize,
    rcu_id: usize,
    at: usize,
)
    requires
        thread < registry.storages.len(),
    ensures
        ({
            let after = registry.after_register(thread, rcu_id, at);
            let old_entries = registry.storages[thread as int];
            let entries = after.storages[thread as int];
            let n = old_entries.len() as int;
            &&& entries.len() == n + 1
            &&& entries[n].rcu_id == rcu_id
            &&& entries[n].thread_data == at
            &&& forall|i: int| 0 <= i < n ==> #[trigger] entries[i] == old_entries[i]
            &&& after.threads.contains_key(at)
            &&& after.threads[at].active
            &&& !after.threads[at].reading
            &&& after.threads[at].local_counter == 0
            &&& after.threads[at].tls_ptr == Some(entries[n])
            &&& after.next_rcu_id == registry.next_rcu_id
            &&& after.storages.len() == registry.storages.len()
            &&& forall|t: int|
                0 <= t < registry.storages.len() && t != thread ==> #[trigger] after.storages[t]
                    == registry.storages[t]
            &&& forall|x: usize|
                x != at ==> (#[trigger] after.threads.contains_key(x)
                    <==> registry.threads.contains_key(x)) && after.threads[x]
                    == registry.threads[x]
        }),
{
}

/// A thread that has registered is waited for by every collection of the instance, from the
/// first one on, until it announces something or leaves.
pub proof fn law_registered_thread_holds_up_collections<T>(
    before: RegistryView,
    thread: usize,
    rcu: RcuView<T>,
    after: RegistryView,
    rcu_after: RcuView<T>,
    old_counter: usize,
    caller: Option<usize>,
)
    requires
        thread < before.storages.len(),
        registered(before, thread, rcu, after, rcu_after, true),
        forall|i: int|
            0 <= i < before.storages[thread as int].len() ==> (
            #[trigger] before.storages[thread as int][i]).rcu_id != rcu.rcu_id,
        old_counter > 0,
        caller != after.data_of(thread, rcu.rcu_id),
    ensures
        !caught_up(after.threads, rcu_after.threads, old_counter, caller),
{
    law_registered_thread_is_tracked(before, thread, rcu, after, rcu_after, true);
    let n = before.storages[thread as int].len() as int;
    law_data_is_where_the_entry_says(after, thread, rcu.rcu_id, n);
    let k = rcu.threads.len() as int;
    assert(is_active(after.threads, rcu_after.threads[k]));
    assert(lags(after.threads[rcu_after.threads[k]], old_counter));
}

/// Leaving takes the thread's most recent entry for the instance away, and marks the data it
/// leads to inactive; nothing else is changed. A thread without an entry changes nothing.
pub proof fn law_leaving_takes_the_entry_away(
    registry: RegistryView,
    thread: usize,
    rcu_id: usize,
)
    ensures
        ({
            let after = registry.after_unregister(thread, rcu_id);
            let entries = registry.storages[thread as int];
            let had = thread < registry.storages.len() && exists|i: int|
                0 <= i < entries.len() && (#[trigger] entries[i]).rcu_id == rcu_id;
            &&& !had ==> after == registry
            &&& had ==> exists|k: int|
                {
                    let at = entries[k].thread_data;
                    &&& 0 <= k < entries.len()
                    &&& (#[trigger] entries[k]).rcu_id == rcu_id
                    &&& forall|j: int|
                        k < j < entries.len() ==> (#[trigger] entries[j]).rcu_id != rcu_id
                    &&& after.storages[thread as int] == entries.remove(k)
                    &&& after.threads.contains_key(at) ==> !after.threads[at].active
                    &&& after.threads.contains_key(at) ==> after.threads[at].local_counter
                        == registry.threads[at].local_counter && after.threads[at].reading
                        == registry.threads[at].reading && after.threads[at].tls_ptr
                        == registry.threads[at].tls_ptr
                    &&& forall|x: usize|
                        x != at ==> #[trigger] after.threads[x] == registry.threads[x]
                }
            &&& after.next_rcu_id == registry.next_rcu_id
            &&& after.storages.len() == registry.storages.len()
            &&& forall|t: int|
                0 <= t < registry.storages.len() && t != thread ==> #[trigger] after.storages[t]
                    == registry.storages[t]
            &&& forall|x: usize| #[trigger]
                after.threads.contains_key(x) <==> registry.threads.contains_key(x)
        }),
{
    let after = registry.after_unregister(thread, rcu_id);
    let entries = registry.entries(thread);
    law_lookup_finds_the_most_recent(entries, rcu_id);
    if let Some(entry) = lookup(entries, rcu_id) {
        let i = choose|i: int|
            {
                &&& 0 <= i < entries.len()
                &&& #[trigger] entries[i] == entry
                &&& entry.rcu_id == rcu_id
                &&& forall|j: int|
                    i < j < entries.len() ==> (#[trigger] entries[j]).rcu_id != rcu_id
            };
        law_removing_takes_out_one_entry(entries, entry);
        assert(entries.contains(entry));
        let k = choose|k: int|
            {
                &&& 0 <= k < entries.len()
                &&& #[trigger] entries[k] == entry
                &&& forall|j: int| k < j < entries.len() ==> #[trigger] entries[j] != entry
                &&& without(entries, entry) == entries.remove(k)
            };
        if k < i {
            assert(entries[i] != entry);
        }
        if i < k {
            assert(entries[k].rcu_id != rcu_id);
        }
        assert(entries[k].rcu_id == rcu_id);
    }
}

/// Stopping to take part marks the data that any of the thread's entries leads to inactive, and
/// changes nothing else.
pub proof fn law_stopping_makes_inactive_everywhere(registry: RegistryView, thread: usize)
    ensures
        ({
            let after = registry.after_drop_thread_data(thread);
            let entries = registry.storages[thread as int];
            &&& after.storages == registry.storages
            &&& after.next_rcu_id == registry.next_rcu_id
            &&& forall|at: usize| #[trigger]
                after.threads.contains_key(at) <==> registry.threads.contains_key(at)
            &&& forall|at: usize| #[trigger]
                registry.threads.contains_key(at) ==> {
                    &&& after.threads[at].local_counter == registry.threads[at].local_counter
                    &&& after.threads[at].reading == registry.threads[at].reading
                    &&& after.threads[at].tls_ptr == registry.threads[at].tls_ptr
                    &&& after.threads[at].active <==> registry.threads[at].active && !(thread
                        < registry.storages.len() && exists|i: int|
                        0 <= i < entries.len() && (#[trigger] entries[i]).thread_data == at)
                }
        }),
{
    let entries = registry.entries(thread);
    assert forall|at: usize| #[trigger] points_to(entries, at) == (exists|i: int|
        0 <= i < entries.len() && (#[trigger] entries[i]).thread_data == at) by {}
}

// Giving back.

/// Cleaning up gives back the data of the listed threads that are inactive, and changes nothing
/// else.
pub proof fn law_cleaning_gives_back_the_inactive(registry: RegistryView, list: Seq<usize>)
    ensures
        ({
            let after = registry.after_clean(list);
            &&& after.storages == registry.storages
            &&& after.next_rcu_id == registry.next_rcu_id
            &&& forall|at: usize| #[trigger]
                after.threads.contains_key(at) <==> registry.threads.contains_key(at) && !(
                list.contains(at) && !registry.threads[at].active)
            &&& forall|at: usize| #[trigger]
                after.threads.contains_key(at) ==> after.threads[at] == registry.threads[at]
        }),
{
}

/// Dropping an instance gives back the data of all listed threads, active or not, and takes the
/// instance's entries from every thread; nothing else is changed.
pub proof fn law_releasing_gives_back_all_that_is_listed(
    registry: RegistryView,
    rcu_id: usize,
    list: Seq<usize>,
)
    ensures
        ({
            let after = registry.after_release(rcu_id, list);
            &&& after.next_rcu_id == registry.next_rcu_id
            &&& forall|at: usize| #[trigger]
                after.threads.contains_key(at) <==> registry.threads.contains_key(at)
                    && !list.contains(at)
            &&& forall|at: usize| #[trigger]
                after.threads.contains_key(at) ==> after.threads[at] == registry.threads[at]
            &&& after.storages.len() == registry.storages.len()
            &&& forall|t: int|
                0 <= t < registry.storages.len() ==> #[trigger] after.storages[t]
                    == registry.storages[t].filter(|e: ThreadLocalStorage| e.rcu_id != rcu_id)
        }),
{
    let after = registry.after_release(rcu_id, list);
    assert forall|t: int| 0 <= t < registry.storages.len() implies #[trigger] after.storages[t]
        == registry.storages[t].filter(|e: ThreadLocalStorage| e.rcu_id != rcu_id) by {
        law_removing_an_instance_takes_out_its_entries(registry.storages[t], rcu_id);
    }
}

} // verus!
