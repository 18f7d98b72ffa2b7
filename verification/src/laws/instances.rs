//! What each operation of an instance does, told by the value, the queue and the threads before
//! and after.
use vstd::prelude::*;

use crate::callback::{holds_version, of_version, queued_through, Callback};
use crate::grace::{caught_up, lags, GcStatus, GracePeriodView, SyncStatus};
use crate::latest::lemma_prefix_through;
use crate::rcu::{collected, dropped, new_instance, synchronized, RcuView};
use crate::registry::{is_active, RegistryView, Threads};

verus! {

// Writers.

/// A new instance protects the value it was given, at version 0 and counter 1, with nothing
/// queued, nobody listed and no lock held.
pub proof fn law_new_instance_protects_its_value<T>(data: T, rcu_id: usize)
    ensures
        ({
            let s = new_instance(data, rcu_id);
            &&& s.current == Some(data)
            &&& s.version == 0
            &&& s.counter == 1
            &&& s.callbacks.len() == 0
            &&& s.threads.len() == 0
            &&& !s.callback_list_locked && !s.thread_list_locked && !s.sync_locked
            &&& s.rcu_id == rcu_id
            &&& s.ledger.reclaimed.len() == 0
            &&& forall|v: u64| !(#[trigger] s.ledger.taken.contains(v))
            &&& forall|v: u64| !(#[trigger] s.ledger.unqueued.contains_key(v))
        }),
{
}

/// Replacing installs the new value one version later, and hands the old one, with its version,
/// to the writer; queue, threads, counter and locks are left alone.
pub proof fn law_replacing_hands_over_the_old_value<T>(s: RcuView<T>, data: T)
    requires
        s.current is Some,
    ensures
        s.replaced().data == s.current->0,
        s.replaced().version == s.version,
        s.replaced().retired_at@ == s.counter,
        ({
            let t = s.after_replace(data);
            &&& t.current == Some(data)
            &&& t.version == (if s.version < u64::MAX {
                s.version + 1
            } else {
                0
            })
            &&& t.callbacks == s.callbacks
            &&& t.threads == s.threads
            &&& t.counter == s.counter
            &&& t.rcu_id == s.rcu_id
            &&& t.callback_list_locked == s.callback_list_locked
            &&& t.thread_list_locked == s.thread_list_locked
            &&& t.sync_locked == s.sync_locked
            &&& t.ledger.taken == s.ledger.taken
            &&& t.ledger.reclaimed == s.ledger.reclaimed
            &&& t.ledger.unqueued.contains_key(s.version)
            &&& t.ledger.unqueued[s.version] == s.counter
            &&& forall|v: u64|
                v != s.version ==> (#[trigger] t.ledger.unqueued.contains_key(v)
                    == s.ledger.unqueued.contains_key(v)) && t.ledger.unqueued[v]
                    == s.ledger.unqueued[v]
        }),
{
}

/// Queueing puts the callback behind all others, and changes nothing else.
pub proof fn law_queueing_adds_one_callback<T>(s: RcuView<T>, callback: Callback<T>)
    ensures
        ({
            let t = s.after_queue(callback);
            &&& t.callbacks.len() == s.callbacks.len() + 1
            &&& t.callbacks[s.callbacks.len() as int] == callback
            &&& forall|i: int|
                0 <= i < s.callbacks.len() ==> #[trigger] t.callbacks[i] == s.callbacks[i]
            &&& t.current == s.current
            &&& t.version == s.version
            &&& t.threads == s.threads
            &&& t.counter == s.counter
            &&& t.rcu_id == s.rcu_id
            &&& t.callback_list_locked == s.callback_list_locked
            &&& t.thread_list_locked == s.thread_list_locked
            &&& t.sync_locked == s.sync_locked
            &&& t.ledger.taken == s.ledger.taken
            &&& t.ledger.reclaimed == s.ledger.reclaimed
            &&& !t.ledger.unqueued.contains_key(callback.version)
            &&& forall|v: u64|
                v != callback.version ==> (#[trigger] t.ledger.unqueued.contains_key(v)
                    == s.ledger.unqueued.contains_key(v)) && t.ledger.unqueued[v]
                    == s.ledger.unqueued[v]
        }),
{
}

/// A write installs its value, one version later, and queues exactly the value that was current,
/// under the version it had. Nothing is reclaimed, and nobody else is concerned.
pub proof fn law_write_queues_the_value_it_replaced<T>(s: RcuView<T>, data: T)
    requires
        s.current is Some,
    ensures
        ({
            let t = s.after_write(data);
            let n = s.callbacks.len() as int;
            &&& t.current == Some(data)
            &&& t.version == (if s.version < u64::MAX {
                s.version + 1
            } else {
                0
            })
            &&& t.callbacks.len() == n + 1
            &&& t.callbacks[n].data == s.current->0
            &&& t.callbacks[n].version == s.version
            &&& forall|i: int| 0 <= i < n ==> #[trigger] t.callbacks[i] == s.callbacks[i]
            &&& t.threads == s.threads
            &&& t.counter == s.counter
            &&& t.rcu_id == s.rcu_id
            &&& t.callback_list_locked == s.callback_list_locked
            &&& t.thread_list_locked == s.thread_list_locked
            &&& t.sync_locked == s.sync_locked
            &&& t.ledger.taken == s.ledger.taken
            &&& t.ledger.reclaimed == s.ledger.reclaimed
            &&& !t.ledger.unqueued.contains_key(s.version)
        }),
{
}

// Threads.

/// Listing a thread puts it behind all others, and changes nothing else of the instance.
pub proof fn law_listing_adds_one_thread<T>(s: RcuView<T>, at: usize)
    ensures
        ({
            let t = s.after_register(at);
            &&& t.threads.len() == s.threads.len() + 1
            &&& t.threads[s.threads.len() as int] == at
            &&& forall|i: int|
                0 <= i < s.threads.len() ==> #[trigger] t.threads[i] == s.threads[i]
            &&& t.current == s.current
            &&& t.version == s.version
            &&& t.callbacks == s.callbacks
            &&& t.counter == s.counter
            &&& t.rcu_id == s.rcu_id
            &&& t.callback_list_locked == s.callback_list_locked
            &&& t.thread_list_locked == s.thread_list_locked
            &&& t.sync_locked == s.sync_locked
            &&& t.ledger == s.ledger
        }),
{
}

/// Cleaning up keeps exactly the active threads on the list, in order, and changes nothing else
/// of the instance.
pub proof fn law_cleaning_keeps_the_active<T>(s: RcuView<T>, threads: Threads)
    ensures
        ({
            let t = s.after_clean(threads);
            &&& t.threads == s.threads.filter(
                |at: usize| threads.contains_key(at) && threads[at].active,
            )
            &&& forall|at: usize| #[trigger]
                t.threads.contains(at) <==> s.threads.contains(at) && threads.contains_key(at)
                    && threads[at].active
            &&& t.current == s.current
            &&& t.version == s.version
            &&& t.callbacks == s.callbacks
            &&& t.counter == s.counter
            &&& t.rcu_id == s.rcu_id
            &&& t.callback_list_locked == s.callback_list_locked
            &&& t.thread_list_locked == s.thread_list_locked
            &&& t.sync_locked == s.sync_locked
            &&& t.ledger == s.ledger
        }),
{
    let t = s.after_clean(threads);
    let active = |at: usize| threads.contains_key(at) && threads[at].active;
    assert(active =~= crate::registry::active_in(threads));
    assert forall|at: usize| #[trigger] t.threads.contains(at) <==> s.threads.contains(at)
        && threads.contains_key(at) && threads[at].active by {
        if t.threads.contains(at) {
            let m = choose|m: int| 0 <= m < t.threads.len() && t.threads[m] == at;
            s.threads.lemma_filter_pred(active, m);
            s.threads.lemma_filter_contains_rev(active, at);
        }
        if s.threads.contains(at) && active(at) {
            let k = choose|k: int| 0 <= k < s.threads.len() && s.threads[k] == at;
            s.threads.lemma_filter_contains(active, k);
        }
    }
}

// Grace periods.

/// A grace period that begins remembers the instance, the counter, the collecting thread, and
/// the newest queued version, whatever threads are listed. It advances the counter by one and
/// locks the thread list; nothing is taken from the queue.
pub proof fn law_beginning_remembers_the_newest_callback<T>(s: RcuView<T>, caller: Option<usize>)
    ensures
        ({
            let gp = s.snapshot(caller);
            &&& gp.rcu_id == s.rcu_id
            &&& gp.old_counter == s.counter
            &&& gp.caller == caller
            &&& s.callbacks.len() == 0 ==> gp.old_head is None
            &&& s.callbacks.len() > 0 ==> gp.old_head == Some(
                s.callbacks[s.callbacks.len() - 1].version,
            )
        }),
        ({
            let t = s.after_begin();
            &&& t.counter == (if s.counter < usize::MAX {
                s.counter + 1
            } else {
                0
            })
            &&& t.thread_list_locked
            &&& t.sync_locked
            &&& t.current == s.current
            &&& t.version == s.version
            &&& t.callbacks == s.callbacks
            &&& t.threads == s.threads
            &&& t.rcu_id == s.rcu_id
            &&& t.callback_list_locked == s.callback_list_locked
            &&& t.ledger == s.ledger
        }),
{
}

/// A grace period is over exactly when every listed thread that is active, but for the collecting
/// one, has announced more than the counter it began at, or that counter in a quiescent state.
pub proof fn law_period_is_over_once_nobody_can_be_inside(
    threads: Threads,
    list: Seq<usize>,
    old_counter: usize,
    caller: Option<usize>,
)
    ensures
        caught_up(threads, list, old_counter, caller) <==> (forall|i: int|
            0 <= i < list.len() ==> {
                let at = #[trigger] list[i];
                threads.contains_key(at) && threads[at].active && caller != Some(at)
                    ==> threads[at].local_counter > old_counter || (
                threads[at].local_counter == old_counter && !threads[at].reading)
            }),
{
    if caught_up(threads, list, old_counter, caller) {
        assert forall|i: int|
            0 <= i < list.len() && threads.contains_key(#[trigger] list[i])
                && threads[list[i]].active && caller != Some(
                list[i],
            ) implies threads[list[i]].local_counter > old_counter || (
        threads[list[i]].local_counter == old_counter && !threads[list[i]].reading) by {
            assert(is_active(threads, list[i]));
            assert(!lags(threads[list[i]], old_counter));
        }
    }
}

/// Ending a grace period unlocks the thread list, and changes nothing else.
pub proof fn law_ending_a_period_only_unlocks<T>(s: RcuView<T>)
    ensures
        ({
            let t = s.after_release();
            &&& !t.thread_list_locked
            &&& !t.sync_locked
            &&& t.current == s.current
            &&& t.version == s.version
            &&& t.callbacks == s.callbacks
            &&& t.threads == s.threads
            &&& t.counter == s.counter
            &&& t.rcu_id == s.rcu_id
            &&& t.callback_list_locked == s.callback_list_locked
            &&& t.ledger == s.ledger
        }),
{
}

/// Taking splits the queue behind the last callback that holds the remembered version: what is
/// taken and what stays are together what was queued, in order. Without such a callback nothing
/// is taken.
pub proof fn law_taking_splits_the_queue<T>(s: RcuView<T>, old_head: Option<u64>)
    ensures
        ({
            let taken = s.safe_callbacks(old_head);
            let t = s.after_take(old_head);
            &&& taken + t.callbacks == s.callbacks
            &&& old_head is None ==> taken.len() == 0
            &&& old_head matches Some(v) ==> {
                &&& taken.len() > 0 ==> taken[taken.len() - 1].version == v
                &&& forall|i: int|
                    0 <= i < t.callbacks.len() ==> (#[trigger] t.callbacks[i]).version != v
            }
            &&& forall|v: u64| #[trigger]
                t.ledger.taken.contains(v) <==> s.ledger.taken.contains(v) || (exists|i: int|
                    0 <= i < taken.len() && (#[trigger] taken[i]).version == v)
            &&& t.ledger.reclaimed == s.ledger.reclaimed
            &&& t.ledger.unqueued == s.ledger.unqueued
            &&& t.current == s.current
            &&& t.version == s.version
            &&& t.threads == s.threads
            &&& t.counter == s.counter
            &&& t.rcu_id == s.rcu_id
            &&& t.callback_list_locked == s.callback_list_locked
            &&& t.thread_list_locked == s.thread_list_locked
            &&& t.sync_locked == s.sync_locked
        }),
{
    let taken = s.safe_callbacks(old_head);
    let t = s.after_take(old_head);
    let n = queued_through(s.callbacks, old_head) as int;
    if let Some(version) = old_head {
        lemma_prefix_through(s.callbacks, of_version(version));
        assert forall|i: int| 0 <= i < t.callbacks.len() implies (
        #[trigger] t.callbacks[i]).version != version by {
            assert(t.callbacks[i] == s.callbacks[i + n]);
            assert(!of_version(version)(s.callbacks[i + n]));
        }
        if n > 0 {
            assert(taken[n - 1] == s.callbacks[n - 1]);
            assert(of_version(version)(s.callbacks[n - 1]));
        }
    }
    assert(taken + t.callbacks =~= s.callbacks);
    assert forall|v: u64| #[trigger] t.ledger.taken.contains(v) <==> s.ledger.taken.contains(v) || (
    exists|i: int| 0 <= i < taken.len() && (#[trigger] taken[i]).version == v) by {
        assert(t.ledger.taken.contains(v) == (s.ledger.taken.contains(v) || holds_version(
            taken,
            v,
        )));
    }
}

/// Processing reclaims every one of the callbacks, the most recent first, and changes nothing
/// else.
pub proof fn law_processing_reclaims_each_callback<T>(s: RcuView<T>, callbacks: Seq<Callback<T>>)
    ensures
        ({
            let t = s.after_process(callbacks);
            let m = s.ledger.reclaimed.len() as int;
            let n = callbacks.len() as int;
            &&& t.ledger.reclaimed.len() == m + n
            &&& forall|i: int|
                0 <= i < m ==> #[trigger] t.ledger.reclaimed[i] == s.ledger.reclaimed[i]
            &&& forall|i: int|
                0 <= i < n ==> #[trigger] t.ledger.reclaimed[m + i] == callbacks[n - 1 - i].version
            &&& forall|v: u64| #[trigger]
                t.ledger.taken.contains(v) <==> s.ledger.taken.contains(v) && !(exists|i: int|
                    0 <= i < n && (#[trigger] callbacks[i]).version == v)
            &&& t.ledger.unqueued == s.ledger.unqueued
            &&& t.callbacks == s.callbacks
            &&& t.current == s.current
            &&& t.version == s.version
            &&& t.threads == s.threads
            &&& t.counter == s.counter
            &&& t.rcu_id == s.rcu_id
            &&& t.callback_list_locked == s.callback_list_locked
            &&& t.thread_list_locked == s.thread_list_locked
            &&& t.sync_locked == s.sync_locked
        }),
{
    let t = s.after_process(callbacks);
    assert forall|v: u64| #[trigger] t.ledger.taken.contains(v) <==> s.ledger.taken.contains(v)
        && !(exists|i: int| 0 <= i < callbacks.len() && (#[trigger] callbacks[i]).version == v) by {
        assert(t.ledger.taken.contains(v) == (s.ledger.taken.contains(v) && !holds_version(
            callbacks,
            v,
        )));
    }
}

// Whole operations.

/// Waiting for the readers succeeds exactly when no listed active thread but the collecting one
/// can be in a section that was open when the period began. Only then are callbacks handed out:
/// those queued up to the remembered one, and no other. Until then nothing is changed.
pub proof fn law_callbacks_are_handed_out_once_nobody_can_be_inside<T>(
    before: RcuView<T>,
    gp: GracePeriodView,
    threads: Threads,
    after: RcuView<T>,
    status: SyncStatus<T>,
)
    requires
        synchronized(before, gp, threads, after, status),
    ensures
        status is Safe <==> (forall|i: int|
            0 <= i < before.threads.len() ==> {
                let at = #[trigger] before.threads[i];
                threads.contains_key(at) && threads[at].active && gp.caller != Some(at)
                    ==> threads[at].local_counter > gp.old_counter || (
                threads[at].local_counter == gp.old_counter && !threads[at].reading)
            }),
        status is Safe || status is Waiting,
        status is Waiting ==> status->Waiting_0@ == gp && after == before,
        status is Safe ==> {
            let handed_out = status->Safe_0@;
            &&& handed_out + after.callbacks == before.callbacks
            &&& gp.old_head is None ==> handed_out.len() == 0
            &&& gp.old_head matches Some(v) ==> {
                &&& handed_out.len() > 0 ==> handed_out[handed_out.len() - 1].version == v
                &&& forall|i: int|
                    0 <= i < after.callbacks.len() ==> (
                    #[trigger] after.callbacks[i]).version != v
            }
            &&& status->Safe_0.of_rcu() == before.rcu_id
            &&& !after.sync_locked
            &&& !after.thread_list_locked
            &&& after.current == before.current
            &&& after.version == before.version
            &&& after.threads == before.threads
            &&& after.counter == before.counter
            &&& after.rcu_id == before.rcu_id
            &&& after.callback_list_locked == before.callback_list_locked
            &&& after.ledger.reclaimed == before.ledger.reclaimed
            &&& after.ledger.unqueued == before.ledger.unqueued
        },
{
    law_period_is_over_once_nobody_can_be_inside(
        threads,
        before.threads,
        gp.old_counter,
        gp.caller,
    );
    law_taking_splits_the_queue(before.after_release(), gp.old_head);
}

/// A wait that nobody interrupts hands out all that was queued when it began.
pub proof fn law_uninterrupted_wait_hands_out_all<T>(
    s: RcuView<T>,
    caller: Option<usize>,
    threads: Threads,
    after: RcuView<T>,
    status: SyncStatus<T>,
)
    requires
        synchronized(s.after_begin(), s.snapshot(caller), threads, after, status),
        status is Safe,
    ensures
        status->Safe_0@ == s.callbacks,
        after.callbacks.len() == 0,
        after.ledger.reclaimed == s.ledger.reclaimed,
        after.current == s.current,
        after.version == s.version,
        after.threads == s.threads,
{
    law_callbacks_are_handed_out_once_nobody_can_be_inside(
        s.after_begin(),
        s.snapshot(caller),
        threads,
        after,
        status,
    );
    let handed_out = status->Safe_0@;
    if after.callbacks.len() > 0 {
        let n = s.callbacks.len() as int;
        assert((handed_out + after.callbacks)[n - 1] == after.callbacks[after.callbacks.len() - 1]);
    }
    assert(handed_out + after.callbacks =~= handed_out);
}

/// A collection is done exactly when no listed active thread but the collecting one can be in a
/// section that was open when it began. Then the callbacks queued up to the remembered one have
/// been reclaimed, the most recent first, the others are queued still, and inactive threads are
/// off the list. Until then nothing is changed.
pub proof fn law_collection_reclaims_what_it_remembers<T>(
    before: RcuView<T>,
    gp: GracePeriodView,
    registry: RegistryView,
    after: RcuView<T>,
    registry_after: RegistryView,
    status: GcStatus,
)
    requires
        collected(before, gp, registry, after, registry_after, status),
    ensures
        status is Done <==> (forall|i: int|
            0 <= i < before.threads.len() ==> {
                let at = #[trigger] before.threads[i];
                registry.threads.contains_key(at) && registry.threads[at].active
                    && gp.caller != Some(at)
                    ==> registry.threads[at].local_counter > gp.old_counter || (
                registry.threads[at].local_counter == gp.old_counter
                    && !registry.threads[at].reading)
            }),
        status is Done || status is Waiting,
        status is Waiting ==> status->Waiting_0@ == gp && after == before && registry_after
            == registry,
        status is Done ==> {
            let n = before.callbacks.len() - after.callbacks.len();
            let m = before.ledger.reclaimed.len() as int;
            &&& 0 <= n
            &&& after.callbacks == before.callbacks.skip(n)
            &&& gp.old_head is None ==> n == 0
            &&& gp.old_head matches Some(v) ==> {
                &&& n > 0 ==> before.callbacks[n - 1].version == v
                &&& forall|i: int|
                    n <= i < before.callbacks.len() ==> (
                    #[trigger] before.callbacks[i]).version != v
            }
            &&& after.ledger.reclaimed.len() == m + n
            &&& forall|i: int|
                0 <= i < m ==> #[trigger] after.ledger.reclaimed[i] == before.ledger.reclaimed[i]
            &&& forall|i: int|
                0 <= i < n ==> #[trigger] after.ledger.reclaimed[m + i] == before.callbacks[n - 1
                    - i].version
            &&& after.ledger.unqueued == before.ledger.unqueued
            &&& after.threads == before.threads.filter(
                |at: usize| registry.threads.contains_key(at) && registry.threads[at].active,
            )
            &&& !after.sync_locked
            &&& !after.thread_list_locked
            &&& after.current == before.current
            &&& after.version == before.version
            &&& after.counter == before.counter
            &&& after.rcu_id == before.rcu_id
            &&& after.callback_list_locked == before.callback_list_locked
            &&& registry_after.storages == registry.storages
            &&& registry_after.next_rcu_id == registry.next_rcu_id
            &&& forall|at: usize| #[trigger]
                registry_after.threads.contains_key(at) <==> registry.threads.contains_key(at)
                    && !(before.threads.contains(at) && !registry.threads[at].active)
            &&& forall|at: usize| #[trigger]
                registry_after.threads.contains_key(at) ==> registry_after.threads[at]
                    == registry.threads[at]
        },
{
    law_period_is_over_once_nobody_can_be_inside(
        registry.threads,
        before.threads,
        gp.old_counter,
        gp.caller,
    );
    if status is Done {
        lemma_collection(before, gp.old_head, registry.threads);
    }
}

proof fn lemma_collection<T>(before: RcuView<T>, old_head: Option<u64>, threads: Threads)
    ensures
        ({
            let after = before.after_collection(old_head, threads);
            let n = before.callbacks.len() - after.callbacks.len();
            let m = before.ledger.reclaimed.len() as int;
            &&& 0 <= n
            &&& before.safe_callbacks(old_head) == before.callbacks.take(n)
            &&& after.callbacks == before.callbacks.skip(n)
            &&& old_head is None ==> n == 0
            &&& old_head matches Some(v) ==> {
                &&& n > 0 ==> before.callbacks[n - 1].version == v
                &&& forall|i: int|
                    n <= i < before.callbacks.len() ==> (
                    #[trigger] before.callbacks[i]).version != v
            }
            &&& after.ledger.reclaimed.len() == m + n
            &&& forall|i: int|
                0 <= i < m ==> #[trigger] after.ledger.reclaimed[i] == before.ledger.reclaimed[i]
            &&& forall|i: int|
                0 <= i < n ==> #[trigger] after.ledger.reclaimed[m + i] == before.callbacks[n - 1
                    - i].version
            &&& after.ledger.unqueued == before.ledger.unqueued
            &&& after.threads == before.threads.filter(
                |at: usize| threads.contains_key(at) && threads[at].active,
            )
            &&& !after.sync_locked
            &&& !after.thread_list_locked
            &&& after.current == before.current
            &&& after.version == before.version
            &&& after.counter == before.counter
            &&& after.rcu_id == before.rcu_id
            &&& after.callback_list_locked == before.callback_list_locked
        }),
{
    let released = before.after_release();
    let taken = before.safe_callbacks(old_head);
    let rest = released.after_take(old_head);
    let processed = rest.after_process(taken);
    law_taking_splits_the_queue(released, old_head);
    law_processing_reclaims_each_callback(rest, taken);
    law_cleaning_keeps_the_active(processed, threads);
    let n = before.callbacks.len() - rest.callbacks.len();
    assert(before.callbacks == taken + rest.callbacks);
    assert(taken =~= before.callbacks.take(n));
    assert(rest.callbacks =~= before.callbacks.skip(n));
    if let Some(v) = old_head {
        assert forall|i: int| n <= i < before.callbacks.len() implies (
        #[trigger] before.callbacks[i]).version != v by {
            assert(before.callbacks[i] == rest.callbacks[i - n]);
        }
    }
}

/// A collection that nobody interrupts is done exactly when no other listed active thread can be
/// in a critical section: each has announced the counter, or more, outside of one. It then has
/// reclaimed every value that was queued, whatever threads are listed, and the queue is empty.
pub proof fn law_uninterrupted_gc_reclaims_all<T>(
    s: RcuView<T>,
    registry: RegistryView,
    thread: usize,
    after: RcuView<T>,
    registry_after: RegistryView,
    status: GcStatus,
)
    requires
        collected(
            s.after_begin(),
            s.snapshot(registry.data_of(thread, s.rcu_id)),
            registry.after_announce(thread, s.rcu_id, s.counter, false),
            after,
            registry_after,
            status,
        ),
    ensures
        status is Done <==> (forall|i: int|
            0 <= i < s.threads.len() ==> {
                let at = #[trigger] s.threads[i];
                registry.threads.contains_key(at) && registry.threads[at].active
                    && registry.data_of(thread, s.rcu_id) != Some(at)
                    ==> registry.threads[at].local_counter > s.counter || (
                registry.threads[at].local_counter == s.counter && !registry.threads[at].reading)
            }),
        status is Done ==> {
            let m = s.ledger.reclaimed.len() as int;
            let n = s.callbacks.len() as int;
            &&& after.callbacks.len() == 0
            &&& after.ledger.reclaimed.len() == m + n
            &&& forall|i: int|
                0 <= i < m ==> #[trigger] after.ledger.reclaimed[i] == s.ledger.reclaimed[i]
            &&& forall|i: int|
                0 <= i < n ==> #[trigger] after.ledger.reclaimed[m + i] == s.callbacks[n - 1
                    - i].version
            &&& after.current == s.current
            &&& after.version == s.version
            &&& !after.sync_locked
            &&& forall|at: usize| #[trigger]
                after.threads.contains(at) ==> s.threads.contains(at)
        },
        status is Waiting ==> after.callbacks == s.callbacks && after.ledger == s.ledger
            && after.current == s.current && after.version == s.version,
{
    let begun = s.after_begin();
    let gp = s.snapshot(registry.data_of(thread, s.rcu_id));
    let told = registry.after_announce(thread, s.rcu_id, s.counter, false);
    law_collection_reclaims_what_it_remembers(begun, gp, told, after, registry_after, status);
    law_beginning_remembers_the_newest_callback(s, gp.caller);
    assert forall|at: usize| #[trigger]
        told.threads.contains_key(at) == registry.threads.contains_key(at) && (gp.caller != Some(
            at,
        ) ==> told.threads[at] == registry.threads[at]) by {}
    if status is Done {
        assert(forall|i: int|
            0 <= i < s.threads.len() ==> {
                let at = #[trigger] s.threads[i];
                told.threads.contains_key(at) && told.threads[at].active && gp.caller != Some(at)
                    ==> told.threads[at].local_counter > s.counter || (
                told.threads[at].local_counter == s.counter && !told.threads[at].reading)
            });
        law_cleaning_keeps_the_active(begun, told.threads);
        assert(after.threads == begun.after_clean(told.threads).threads);
        let k = begun.callbacks.len() - after.callbacks.len();
        if after.callbacks.len() > 0 {
            assert(begun.callbacks[begun.callbacks.len() - 1].version == gp.old_head->0);
        }
        assert(k == s.callbacks.len());
    }
}

/// A drop goes as a collection does. Once it is done the value is gone too, the last to be
/// reclaimed; nobody is listed; and all thread data that was listed has been given back.
pub proof fn law_drop_reclaims_everything<T>(
    before: RcuView<T>,
    gp: GracePeriodView,
    registry: RegistryView,
    after: RcuView<T>,
    registry_after: RegistryView,
    status: GcStatus,
)
    requires
        dropped(before, gp, registry, after, registry_after, status),
    ensures
        status is Done <==> (forall|i: int|
            0 <= i < before.threads.len() ==> {
                let at = #[trigger] before.threads[i];
                registry.threads.contains_key(at) && registry.threads[at].active
                    && gp.caller != Some(at)
                    ==> registry.threads[at].local_counter > gp.old_counter || (
                registry.threads[at].local_counter == gp.old_counter
                    && !registry.threads[at].reading)
            }),
        status is Done || status is Waiting,
        status is Waiting ==> status->Waiting_0@ == gp && after == before && registry_after
            == registry,
        status is Done ==> {
            let n = before.callbacks.len() - after.callbacks.len();
            let m = before.ledger.reclaimed.len() as int;
            &&& after.current is None
            &&& after.threads.len() == 0
            &&& 0 <= n
            &&& after.callbacks == before.callbacks.skip(n)
            &&& gp.old_head is None ==> n == 0
            &&& gp.old_head matches Some(v) ==> {
                &&& n > 0 ==> before.callbacks[n - 1].version == v
                &&& forall|i: int|
                    n <= i < before.callbacks.len() ==> (
                    #[trigger] before.callbacks[i]).version != v
            }
            &&& after.ledger.reclaimed.len() == m + n + (if before.current is Some {
                1int
            } else {
                0int
            })
            &&& forall|i: int|
                0 <= i < m ==> #[trigger] after.ledger.reclaimed[i] == before.ledger.reclaimed[i]
            &&& forall|i: int|
                0 <= i < n ==> #[trigger] after.ledger.reclaimed[m + i] == before.callbacks[n - 1
                    - i].version
            &&& before.current is Some ==> after.ledger.reclaimed[m + n] == before.version
            &&& after.ledger.unqueued == before.ledger.unqueued
            &&& after.version == before.version
            &&& after.counter == before.counter
            &&& !after.sync_locked
            &&& !after.thread_list_locked
            &&& after.rcu_id == before.rcu_id
            &&& registry_after.next_rcu_id == registry.next_rcu_id
            &&& forall|at: usize| #[trigger]
                registry_after.threads.contains_key(at) <==> registry.threads.contains_key(at)
                    && !before.threads.contains(at)
            &&& forall|at: usize| #[trigger]
                registry_after.threads.contains_key(at) ==> registry_after.threads[at]
                    == registry.threads[at]
            &&& registry_after.storages.len() == registry.storages.len()
            &&& forall|t: int|
                0 <= t < registry.storages.len() ==> #[trigger] registry_after.storages[t]
                    == registry.storages[t].filter(
                    |e: crate::storage::ThreadLocalStorage| e.rcu_id != before.rcu_id,
                )
        },
{
    law_period_is_over_once_nobody_can_be_inside(
        registry.threads,
        before.threads,
        gp.old_counter,
        gp.caller,
    );
    if status is Done {
        lemma_collection(before, gp.old_head, registry.threads);
        let rest = before.after_collection(gp.old_head, registry.threads);
        law_cleaning_keeps_the_active(before, registry.threads);
        assert(rest.threads == before.after_clean(registry.threads).threads);
        assert forall|at: usize| #[trigger]
            registry_after.threads.contains_key(at) <==> registry.threads.contains_key(at)
                && !before.threads.contains(at) by {
            assert(rest.threads.contains(at) <==> before.threads.contains(at)
                && registry.threads.contains_key(at) && registry.threads[at].active);
        }
        assert forall|t: int| 0 <= t < registry.storages.len() implies
            #[trigger] registry_after.storages[t] == registry.storages[t].filter(
            |e: crate::storage::ThreadLocalStorage| e.rcu_id != before.rcu_id,
        ) by {
            assert((|e: crate::storage::ThreadLocalStorage| e.rcu_id != before.rcu_id)
                =~= crate::storage::of_other_instances(before.rcu_id));
        }
    }
}

/// A drop that nobody interrupts leaves nothing queued: every value that was queued, and then the
/// current one, has been reclaimed.
pub proof fn law_uninterrupted_drop_reclaims_all<T>(
    s: RcuView<T>,
    registry: RegistryView,
    thread: usize,
    after: RcuView<T>,
    registry_after: RegistryView,
    status: GcStatus,
)
    requires
        dropped(
            s.after_begin(),
            s.snapshot(registry.data_of(thread, s.rcu_id)),
            registry.after_announce(thread, s.rcu_id, s.counter, false),
            after,
            registry_after,
            status,
        ),
    ensures
        status is Done <==> (forall|i: int|
            0 <= i < s.threads.len() ==> {
                let at = #[trigger] s.threads[i];
                registry.threads.contains_key(at) && registry.threads[at].active
                    && registry.data_of(thread, s.rcu_id) != Some(at)
                    ==> registry.threads[at].local_counter > s.counter || (
                registry.threads[at].local_counter == s.counter && !registry.threads[at].reading)
            }),
        status is Done ==> {
            let m = s.ledger.reclaimed.len() as int;
            let n = s.callbacks.len() as int;
            &&& after.current is None
            &&& after.callbacks.len() == 0
            &&& forall|i: int|
                0 <= i < m ==> #[trigger] after.ledger.reclaimed[i] == s.ledger.reclaimed[i]
            &&& forall|i: int|
                0 <= i < n ==> #[trigger] after.ledger.reclaimed[m + i] == s.callbacks[n - 1
                    - i].version
            &&& s.current is Some ==> after.ledger.reclaimed.len() == m + n + 1
                && after.ledger.reclaimed[m + n] == s.version
        },
{
    let begun = s.after_begin();
    let gp = s.snapshot(registry.data_of(thread, s.rcu_id));
    let told = registry.after_announce(thread, s.rcu_id, s.counter, false);
    law_drop_reclaims_everything(begun, gp, told, after, registry_after, status);
    law_beginning_remembers_the_newest_callback(s, gp.caller);
    assert forall|at: usize| #[trigger]
        told.threads.contains_key(at) == registry.threads.contains_key(at) && (gp.caller != Some(
            at,
        ) ==> told.threads[at] == registry.threads[at]) by {}
    if status is Done {
        assert(forall|i: int|
            0 <= i < s.threads.len() ==> {
                let at = #[trigger] s.threads[i];
                told.threads.contains_key(at) && told.threads[at].active && gp.caller != Some(at)
                    ==> told.threads[at].local_counter > s.counter || (
                told.threads[at].local_counter == s.counter && !told.threads[at].reading)
            });
        let k = begun.callbacks.len() - after.callbacks.len();
        if after.callbacks.len() > 0 {
            assert(begun.callbacks[begun.callbacks.len() - 1].version == gp.old_head->0);
        }
        assert(k == s.callbacks.len());
    }
}

} // verus!
