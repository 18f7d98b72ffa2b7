//! Laws of read-side critical sections: what a reader uses is not reclaimed under it.
//!
//! `held` says which version the thread at an address uses in its critical section.
use vstd::prelude::*;

use crate::callback::{head_version, of_version, queued_through, Callback};
use crate::grace::{caught_up, GracePeriodView};
use crate::latest::{lemma_prefix_through, lemma_prefix_through_is, prefix_through};
use crate::laws::periods::law_lagging_thread_is_waited_for;
use crate::rcu::RcuView;
use crate::registry::{
    is_active, registered_data, with_announcement, with_inactive, Threads,
};
use crate::storage::ThreadLocalStorage;

verus! {

/// Whether the thread at `at` is listed, active, and in a critical section.
pub open spec fn is_reading<T>(
    s: RcuView<T>,
    threads: Threads,
    held: Map<usize, u64>,
    at: usize,
) -> bool {
    held.contains_key(at) && is_active(threads, at) && s.threads.contains(at)
}

/// No listed thread has announced more than the instance's counter.
pub open spec fn counters_behind<T>(s: RcuView<T>, threads: Threads) -> bool {
    forall|at: usize|
        #[trigger] s.threads.contains(at) && threads.contains_key(at)
            ==> threads[at].local_counter <= s.counter
}

/// `version` is queued, and was replaced when the counter was at least `counter`.
pub open spec fn is_queued_for<T>(s: RcuView<T>, version: u64, counter: usize) -> bool {
    exists|i: int|
        0 <= i < s.callbacks.len() && (#[trigger] s.callbacks[i]).version == version && counter
            <= s.callbacks[i].retired_at@
}

/// `version` is in the hands of the writer that replaced it, when the counter was at least
/// `counter`.
pub open spec fn is_unqueued_for<T>(s: RcuView<T>, version: u64, counter: usize) -> bool {
    s.ledger.unqueued.contains_key(version) && counter <= s.ledger.unqueued[version]
}

/// What a reading thread uses is the current value, or was replaced no earlier than the
/// thread's announcement and no collection has taken it.
pub open spec fn readers_safe<T>(s: RcuView<T>, threads: Threads, held: Map<usize, u64>) -> bool {
    forall|at: usize|
        #[trigger] is_reading(s, threads, held, at) ==> {
            ||| held[at] == s.version
            ||| is_queued_for(s, held[at], threads[at].local_counter)
            ||| is_unqueued_for(s, held[at], threads[at].local_counter)
        }
}

/// Every listed thread that uses a value shows that it is in a critical section.
pub open spec fn sections_shown<T>(s: RcuView<T>, threads: Threads, held: Map<usize, u64>) -> bool {
    forall|at: usize|
        #[trigger] held.contains_key(at) && s.threads.contains(at) && threads.contains_key(at)
            ==> threads[at].reading
}

/// Every reading thread entered its critical section past `old_counter`.
pub open spec fn readers_past<T>(
    s: RcuView<T>,
    threads: Threads,
    held: Map<usize, u64>,
    old_counter: usize,
) -> bool {
    forall|at: usize|
        #[trigger] is_reading(s, threads, held, at) ==> threads[at].local_counter > old_counter
}

/// No value was replaced at a counter that is yet to come.
pub open spec fn retired_behind<T>(s: RcuView<T>) -> bool {
    &&& forall|i: int|
        0 <= i < s.callbacks.len() ==> (#[trigger] s.callbacks[i]).retired_at@ <= s.counter
    &&& forall|v: u64|
        #[trigger] s.ledger.unqueued.contains_key(v) ==> s.ledger.unqueued[v] <= s.counter
}

/// What the collection of `gp` will take was replaced before it began.
pub open spec fn takes_only_old<T>(s: RcuView<T>, gp: GracePeriodView) -> bool {
    &&& gp.old_counter < s.counter
    &&& forall|i: int|
        0 <= i < queued_through(s.callbacks, gp.old_head) ==> (
        #[trigger] s.callbacks[i]).retired_at@ <= gp.old_counter
    &&& gp.old_head matches Some(v) ==> v < s.version && !s.ledger.unqueued.contains_key(v)
}

/// A thread that enters a critical section gets the current value, and what other readers use
/// stays safe. A grace period that was over for the readers stays over.
pub proof fn law_read_is_safe<T>(
    s: RcuView<T>,
    threads: Threads,
    held: Map<usize, u64>,
    at: usize,
    old_counter: usize,
)
    requires
        readers_safe(s, threads, held),
    ensures
        readers_safe(
            s,
            with_announcement(threads, at, s.counter, true),
            held.insert(at, s.version),
        ),
        readers_past(s, threads, held, old_counter) && old_counter < s.counter ==> readers_past(
            s,
            with_announcement(threads, at, s.counter, true),
            held.insert(at, s.version),
            old_counter,
        ),
{
    let after = with_announcement(threads, at, s.counter, true);
    let held_after = held.insert(at, s.version);
    assert forall|x: usize| #[trigger] is_reading(s, after, held_after, x) && x
        != at implies is_reading(s, threads, held, x) by {}
}

/// A thread that announces a quiescent state, and is in no critical section from then on,
/// leaves what other readers use safe.
pub proof fn law_quiescent_state_is_safe<T>(
    s: RcuView<T>,
    threads: Threads,
    held: Map<usize, u64>,
    at: usize,
)
    requires
        readers_safe(s, threads, held),
    ensures
        readers_safe(s, with_announcement(threads, at, s.counter, false), held.remove(at)),
{
    let after = with_announcement(threads, at, s.counter, false);
    assert forall|x: usize| #[trigger] is_reading(s, after, held.remove(at), x) implies is_reading(
        s,
        threads,
        held,
        x,
    ) && x != at by {}
}

/// A thread that leaves takes nothing away from other readers.
pub proof fn law_unregister_is_safe<T>(
    s: RcuView<T>,
    threads: Threads,
    held: Map<usize, u64>,
    at: usize,
)
    requires
        readers_safe(s, threads, held),
    ensures
        readers_safe(s, with_inactive(threads, at), held),
{
    let after = with_inactive(threads, at);
    assert forall|x: usize| #[trigger] is_reading(s, after, held, x) implies is_reading(
        s,
        threads,
        held,
        x,
    ) && x != at by {}
}

/// A thread that registers takes nothing away from other readers. Its data may stand at an
/// address where that of another thread stood; what that one used does not concern it.
pub proof fn law_register_is_safe<T>(
    s: RcuView<T>,
    threads: Threads,
    held: Map<usize, u64>,
    entry: ThreadLocalStorage,
)
    requires
        readers_safe(s, threads, held),
    ensures
        readers_safe(
            s.after_register(entry.thread_data),
            threads.insert(entry.thread_data, registered_data(entry)),
            held.remove(entry.thread_data),
        ),
{
    let at = entry.thread_data;
    let t = s.after_register(at);
    let after = threads.insert(at, registered_data(entry));
    let left = held.remove(at);
    assert forall|x: usize| #[trigger] t.threads.contains(x) && x != at implies s.threads.contains(
        x,
    ) by {
        let k = choose|k: int| 0 <= k < t.threads.len() && t.threads[k] == x;
        assert(s.threads[k] == x);
    }
    assert forall|x: usize| #[trigger] is_reading(t, after, left, x) implies {
        ||| left[x] == t.version
        ||| is_queued_for(t, left[x], after[x].local_counter)
        ||| is_unqueued_for(t, left[x], after[x].local_counter)
    } by {
        assert(t.threads.contains(x));
        assert(is_reading(s, threads, held, x));
        lemma_same_queue(s, t, held[x], threads[x].local_counter);
    }
}

proof fn lemma_same_queue<T>(s: RcuView<T>, t: RcuView<T>, version: u64, counter: usize)
    requires
        t.callbacks == s.callbacks,
    ensures
        is_queued_for(s, version, counter) == is_queued_for(t, version, counter),
{
}

/// A writer that replaces the current value takes nothing away from the readers: the old value
/// is in the writer's hands.
pub proof fn law_replace_is_safe<T>(
    s: RcuView<T>,
    threads: Threads,
    held: Map<usize, u64>,
    data: T,
)
    requires
        readers_safe(s, threads, held),
        counters_behind(s, threads),
        !s.ledger.unqueued.contains_key(s.version),
    ensures
        readers_safe(s.after_replace(data), threads, held),
        counters_behind(s.after_replace(data), threads),
{
    let t = s.after_replace(data);
    assert forall|x: usize| #[trigger] is_reading(t, threads, held, x) implies {
        ||| held[x] == t.version
        ||| is_queued_for(t, held[x], threads[x].local_counter)
        ||| is_unqueued_for(t, held[x], threads[x].local_counter)
    } by {
        assert(is_reading(s, threads, held, x));
        assert(s.threads.contains(x));
        lemma_same_queue(s, t, held[x], threads[x].local_counter);
    }
}

/// A writer that queues what it replaced takes nothing away from the readers.
pub proof fn law_queue_is_safe<T>(
    s: RcuView<T>,
    threads: Threads,
    held: Map<usize, u64>,
    callback: Callback<T>,
)
    requires
        readers_safe(s, threads, held),
        s.ledger.unqueued.contains_key(callback.version),
        s.ledger.unqueued[callback.version] == callback.retired_at@,
    ensures
        readers_safe(s.after_queue(callback), threads, held),
{
    let t = s.after_queue(callback);
    let n = s.callbacks.len() as int;
    assert forall|x: usize| #[trigger] is_reading(t, threads, held, x) implies {
        ||| held[x] == t.version
        ||| is_queued_for(t, held[x], threads[x].local_counter)
        ||| is_unqueued_for(t, held[x], threads[x].local_counter)
    } by {
        let counter = threads[x].local_counter;
        assert(is_reading(s, threads, held, x));
        if is_queued_for(s, held[x], counter) {
            let i = choose|i: int|
                0 <= i < s.callbacks.len() && (#[trigger] s.callbacks[i]).version == held[x]
                    && counter <= s.callbacks[i].retired_at@;
            assert(t.callbacks[i] == s.callbacks[i]);
        } else if held[x] == callback.version {
            assert(t.callbacks[n] == callback);
        }
    }
}

/// Beginning a grace period takes nothing away from the readers. It remembers only what was
/// replaced before it began.
pub proof fn law_begin_is_safe<T>(
    s: RcuView<T>,
    threads: Threads,
    held: Map<usize, u64>,
    caller: Option<usize>,
)
    requires
        readers_safe(s, threads, held),
        retired_behind(s),
        s.counter < usize::MAX,
        forall|i: int|
            0 <= i < s.callbacks.len() ==> (#[trigger] s.callbacks[i]).version < s.version
                && !s.ledger.unqueued.contains_key(s.callbacks[i].version),
    ensures
        readers_safe(s.after_begin(), threads, held),
        takes_only_old(s.after_begin(), s.snapshot(caller)),
{
    let t = s.after_begin();
    if let Some(version) = head_version(s.callbacks) {
        lemma_prefix_through(s.callbacks, of_version(version));
        assert(s.callbacks[s.callbacks.len() - 1].version == version);
    }
    assert forall|x: usize| #[trigger] is_reading(t, threads, held, x) implies {
        ||| held[x] == t.version
        ||| is_queued_for(t, held[x], threads[x].local_counter)
        ||| is_unqueued_for(t, held[x], threads[x].local_counter)
    } by {
        assert(is_reading(s, threads, held, x));
        lemma_same_queue(s, t, held[x], threads[x].local_counter);
    }
}

/// Once a grace period is over, every reader entered its critical section after it began: none
/// of the sections that were open then is open still. The collecting thread itself was in none.
pub proof fn law_elapsed_period_has_outlived_all_sections<T>(
    s: RcuView<T>,
    threads: Threads,
    held: Map<usize, u64>,
    old_counter: usize,
    caller: Option<usize>,
)
    requires
        caught_up(threads, s.threads, old_counter, caller),
        sections_shown(s, threads, held),
        caller matches Some(at) ==> (is_reading(s, threads, held, at)
            ==> threads[at].local_counter > old_counter),
    ensures
        readers_past(s, threads, held, old_counter),
{
    assert forall|x: usize| #[trigger] is_reading(
        s,
        threads,
        held,
        x,
    ) implies threads[x].local_counter > old_counter by {
        if threads[x].local_counter <= old_counter {
            law_lagging_thread_is_waited_for(threads, s.threads, old_counter, caller, x);
        }
    }
}

/// Taking callbacks that were replaced before a grace period began, once it is over, takes
/// nothing away from the readers.
pub proof fn law_take_is_safe<T>(
    s: RcuView<T>,
    threads: Threads,
    held: Map<usize, u64>,
    gp: GracePeriodView,
)
    requires
        readers_safe(s, threads, held),
        readers_past(s, threads, held, gp.old_counter),
        takes_only_old(s, gp),
    ensures
        readers_safe(s.after_take(gp.old_head), threads, held),
{
    let t = s.after_take(gp.old_head);
    let n = queued_through(s.callbacks, gp.old_head) as int;
    if let Some(version) = gp.old_head {
        lemma_prefix_through(s.callbacks, of_version(version));
    }
    assert forall|x: usize| #[trigger] is_reading(t, threads, held, x) implies {
        ||| held[x] == t.version
        ||| is_queued_for(t, held[x], threads[x].local_counter)
        ||| is_unqueued_for(t, held[x], threads[x].local_counter)
    } by {
        let counter = threads[x].local_counter;
        assert(is_reading(s, threads, held, x));
        if is_queued_for(s, held[x], counter) {
            let i = choose|i: int|
                0 <= i < s.callbacks.len() && (#[trigger] s.callbacks[i]).version == held[x]
                    && counter <= s.callbacks[i].retired_at@;
            assert(i >= n);
            assert(t.callbacks[i - n] == s.callbacks[i]);
        }
    }
}

/// A writer's steps leave what a collection will take alone.
pub proof fn law_writes_are_not_taken<T>(
    s: RcuView<T>,
    gp: GracePeriodView,
    data: T,
    callback: Callback<T>,
)
    requires
        takes_only_old(s, gp),
    ensures
        s.version < u64::MAX ==> takes_only_old(s.after_replace(data), gp),
        s.ledger.unqueued.contains_key(callback.version) ==> takes_only_old(
            s.after_queue(callback),
            gp,
        ),
{
    if s.ledger.unqueued.contains_key(callback.version) {
        let t = s.after_queue(callback);
        if let Some(version) = gp.old_head {
            lemma_prefix_through(s.callbacks, of_version(version));
            assert(t.callbacks.drop_last() =~= s.callbacks);
            assert(t.callbacks.last() == callback);
            assert(queued_through(t.callbacks, gp.old_head) == queued_through(
                s.callbacks,
                gp.old_head,
            ));
        }
        assert forall|i: int| 0 <= i < queued_through(t.callbacks, gp.old_head) implies (
        #[trigger] t.callbacks[i]).retired_at@ <= gp.old_counter by {
            assert(t.callbacks[i] == s.callbacks[i]);
        }
    }
}

/// What one collection takes leaves for another only what that one remembers.
pub proof fn law_taking_leaves_only_old<T>(
    s: RcuView<T>,
    gp: GracePeriodView,
    old_head: Option<u64>,
)
    requires
        takes_only_old(s, gp),
    ensures
        takes_only_old(s.after_take(old_head), gp),
{
    let t = s.after_take(old_head);
    let n = queued_through(s.callbacks, old_head) as int;
    if let Some(version) = old_head {
        lemma_prefix_through(s.callbacks, of_version(version));
    }
    if let Some(version) = gp.old_head {
        lemma_prefix_through_skip(s.callbacks, of_version(version), n);
        lemma_prefix_through(s.callbacks, of_version(version));
    }
    assert forall|i: int| 0 <= i < queued_through(t.callbacks, gp.old_head) implies (
    #[trigger] t.callbacks[i]).retired_at@ <= gp.old_counter by {
        assert(t.callbacks[i] == s.callbacks[i + n]);
    }
}

proof fn lemma_prefix_through_skip<A>(s: Seq<A>, p: spec_fn(A) -> bool, n: int)
    requires
        0 <= n <= s.len(),
    ensures
        prefix_through(s.skip(n), p) == (if prefix_through(s, p) > n {
            prefix_through(s, p) - n
        } else {
            0
        }),
{
    lemma_prefix_through(s, p);
    let q = prefix_through(s, p) as int;
    let t = s.skip(n);
    let k = if q > n {
        q - n
    } else {
        0
    };
    assert forall|j: int| k <= j < t.len() implies !p(#[trigger] t[j]) by {
        assert(t[j] == s[j + n]);
    }
    if k > 0 {
        assert(t[k - 1] == s[q - 1]);
    }
    lemma_prefix_through_is(t, p, k as nat);
}

} // verus!
