//! Laws of grace periods: whom a collection waits for.
use vstd::prelude::*;

use crate::grace::{caught_up, lags};
use crate::rcu::RcuView;
use crate::registry::{
    all_inactive, is_active, with_announcement, with_inactive, RegistryView, Threads,
};
use crate::storage::{points_to, ThreadLocalStorage};

verus! {

/// A collection waits for every active thread that has announced neither a new critical section
/// since it began, nor a quiescent state since the counter got to where it began; but for the
/// collecting thread.
pub proof fn law_lagging_thread_is_waited_for(
    threads: Threads,
    list: Seq<usize>,
    old_counter: usize,
    caller: Option<usize>,
    at: usize,
)
    requires
        list.contains(at),
        is_active(threads, at),
        lags(threads[at], old_counter),
        caller != Some(at),
    ensures
        !caught_up(threads, list, old_counter, caller),
{
    let k = choose|k: int| 0 <= k < list.len() && list[k] == at;
    assert(is_active(threads, list[k]));
}

/// The thread that starts a collection does not hold it up, and is left at the counter from
/// before.
pub proof fn law_collecting_thread_is_not_waited_for<T>(
    s: RcuView<T>,
    registry: RegistryView,
    thread: usize,
)
    requires
        registry.data_of(thread, s.rcu_id) matches Some(at) && registry.threads.contains_key(at),
    ensures
        ({
            let at = registry.data_of(thread, s.rcu_id);
            let told = registry.after_announce(thread, s.rcu_id, s.counter, false);
            let gp = s.snapshot(at);
            &&& told.threads[at->0].local_counter == gp.old_counter
            &&& caught_up(told.threads, seq![at->0], gp.old_counter, gp.caller)
        }),
{
}

/// A thread that announces a quiescent state, at the counter from before the period or later, or
/// a critical section at a later one, is not waited for again in that period. No such
/// announcement of another thread, and no thread's leaving, undoes that.
pub proof fn law_announcing_helps(
    threads: Threads,
    list: Seq<usize>,
    old_counter: usize,
    caller: Option<usize>,
    at: usize,
    counter: usize,
    reading: bool,
)
    requires
        old_counter < counter || (old_counter == counter && !reading),
    ensures
        caught_up(threads, list, old_counter, caller) ==> caught_up(
            with_announcement(threads, at, counter, reading),
            list,
            old_counter,
            caller,
        ),
        caught_up(threads, list, old_counter, caller) ==> caught_up(
            with_inactive(threads, at),
            list,
            old_counter,
            caller,
        ),
        caught_up(threads.remove(at), list, old_counter, caller) ==> caught_up(
            with_announcement(threads, at, counter, reading),
            list,
            old_counter,
            caller,
        ),
        caught_up(threads.remove(at), list, old_counter, caller) ==> caught_up(
            with_inactive(threads, at),
            list,
            old_counter,
            caller,
        ),
{
    assert forall|i: int|
        caught_up(threads, list, old_counter, caller) && 0 <= i < list.len() && is_active(
            with_announcement(threads, at, counter, reading),
            #[trigger] list[i],
        ) && caller != Some(list[i]) implies !lags(
        with_announcement(threads, at, counter, reading)[list[i]],
        old_counter,
    ) by {
        if list[i] != at {
            assert(is_active(threads, list[i]));
        }
    }
    assert forall|i: int|
        caught_up(threads, list, old_counter, caller) && 0 <= i < list.len() && is_active(
            with_inactive(threads, at),
            #[trigger] list[i],
        ) && caller != Some(list[i]) implies !lags(
        with_inactive(threads, at)[list[i]],
        old_counter,
    ) by {
        assert(list[i] != at);
        assert(is_active(threads, list[i]));
    }
    assert forall|i: int|
        caught_up(threads.remove(at), list, old_counter, caller) && 0 <= i < list.len()
            && is_active(
            with_announcement(threads, at, counter, reading),
            #[trigger] list[i],
        ) && caller != Some(list[i]) implies !lags(
        with_announcement(threads, at, counter, reading)[list[i]],
        old_counter,
    ) by {
        if list[i] != at {
            assert(is_active(threads.remove(at), list[i]));
        }
    }
    assert forall|i: int|
        caught_up(threads.remove(at), list, old_counter, caller) && 0 <= i < list.len()
            && is_active(
            with_inactive(threads, at),
            #[trigger] list[i],
        ) && caller != Some(list[i]) implies !lags(
        with_inactive(threads, at)[list[i]],
        old_counter,
    ) by {
        assert(list[i] != at);
        assert(is_active(threads.remove(at), list[i]));
    }
}

/// A thread that has dropped its thread data is not waited for by any instance.
pub proof fn law_dropped_thread_is_not_waited_for(
    threads: Threads,
    entries: Seq<ThreadLocalStorage>,
    list: Seq<usize>,
    old_counter: usize,
    caller: Option<usize>,
)
    requires
        forall|i: int|
            0 <= i < list.len() && is_active(threads, #[trigger] list[i]) && !points_to(
                entries,
                list[i],
            ) && caller != Some(list[i]) ==> !lags(threads[list[i]], old_counter),
    ensures
        caught_up(all_inactive(threads, entries), list, old_counter, caller),
{
    let after = all_inactive(threads, entries);
    assert forall|i: int|
        0 <= i < list.len() && is_active(after, #[trigger] list[i]) && caller != Some(
            list[i],
        ) implies !lags(after[list[i]], old_counter) by {
        assert(is_active(threads, list[i]));
    }
}

/// Where every other listed thread has announced a quiescent state at the current counter, a
/// collection that begins now is over at once, and so is a drop.
pub proof fn law_quiescent_threads_are_not_waited_for<T>(
    s: RcuView<T>,
    registry: RegistryView,
    thread: usize,
)
    requires
        forall|i: int|
            0 <= i < s.threads.len() && is_active(
                registry.threads,
                #[trigger] s.threads[i],
            ) && registry.data_of(thread, s.rcu_id) != Some(s.threads[i]) ==> registry.threads[
            s.threads[i]].local_counter == s.counter && !registry.threads[s.threads[i]].reading,
    ensures
        ({
            let told = registry.after_announce(thread, s.rcu_id, s.counter, false);
            let gp = s.snapshot(registry.data_of(thread, s.rcu_id));
            caught_up(told.threads, s.after_begin().threads, gp.old_counter, gp.caller)
        }),
{
    let told = registry.after_announce(thread, s.rcu_id, s.counter, false);
    assert forall|i: int|
        0 <= i < s.threads.len() && is_active(told.threads, #[trigger] s.threads[i])
            && registry.data_of(thread, s.rcu_id) != Some(s.threads[i]) implies !lags(
        told.threads[s.threads[i]],
        s.counter,
    ) by {
        assert(is_active(registry.threads, s.threads[i]));
    }
}

} // verus!
