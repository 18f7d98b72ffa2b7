//! Laws of writes and reclamation: nothing is lost, nothing leaks, nothing is freed twice.
use vstd::prelude::*;

use crate::callback::{
    head_version, holds_version, of_version, queued_through, versions_newest_first, versions_of,
    Callback,
    Ledger,
};
use crate::latest::{lemma_prefix_through, lemma_prefix_through_is};
use crate::rcu::RcuView;
use crate::registry::Threads;

verus! {

/// The state after the values of `data` were written one after the other.
pub open spec fn after_writes<T>(s: RcuView<T>, data: Seq<T>) -> RcuView<T>
    decreases data.len(),
{
    if data.len() == 0 {
        s
    } else {
        after_writes(s, data.drop_last()).after_write(data.last())
    }
}

/// A write is what the next read sees; the value it replaced is queued behind all others, and
/// nothing else of the queue is touched.
pub proof fn law_write_then_read<T>(s: RcuView<T>, data: T)
    requires
        s.current is Some,
    ensures
        s.after_write(data).current == Some(data),
        s.after_write(data).callbacks.last().data == s.current->0,
        s.after_write(data).callbacks.drop_last() == s.callbacks,
        s.after_write(data).ledger.reclaimed == s.ledger.reclaimed,
{
    assert(s.after_write(data).callbacks.drop_last() =~= s.callbacks);
}

/// A run of writes leaves the last value current and queues exactly one value per write, in
/// the order in which they were replaced; what was queued before stays in front.
pub proof fn law_every_write_queues_one<T>(s: RcuView<T>, data: Seq<T>)
    requires
        s.current is Some,
        data.len() > 0,
    ensures
        ({
            let t = after_writes(s, data);
            let n = s.callbacks.len() as int;
            &&& t.current == Some(data.last())
            &&& t.callbacks.len() == n + data.len()
            &&& t.callbacks.take(n) == s.callbacks
            &&& t.callbacks[n].data == s.current->0
            &&& forall|i: int|
                0 < i < data.len() ==> (#[trigger] t.callbacks[n + i]).data == data[i - 1]
            &&& t.ledger.reclaimed == s.ledger.reclaimed
        }),
    decreases data.len(),
{
    lemma_after_writes(s, data);
    let t = after_writes(s, data);
    let n = s.callbacks.len() as int;
    let less = data.drop_last();
    let u = after_writes(s, less);
    lemma_after_writes(s, less);
    if data.len() > 1 {
        law_every_write_queues_one(s, less);
        assert forall|i: int| 0 < i < data.len() implies (#[trigger] t.callbacks[n + i]).data
            == data[i - 1] by {
            if i < data.len() - 1 {
                assert(t.callbacks[n + i] == u.callbacks[n + i]);
            }
        }
        assert(t.callbacks[n] == u.callbacks[n]);
    }
}

proof fn lemma_after_writes<T>(s: RcuView<T>, data: Seq<T>)
    ensures
        ({
            let t = after_writes(s, data);
            let n = s.callbacks.len() as int;
            &&& t.current == (if data.len() == 0 {
                s.current
            } else {
                Some(data.last())
            })
            &&& t.threads == s.threads
            &&& t.counter == s.counter
            &&& t.rcu_id == s.rcu_id
            &&& t.ledger.taken == s.ledger.taken
            &&& t.ledger.reclaimed == s.ledger.reclaimed
            &&& t.callbacks.len() == n + data.len()
            &&& t.callbacks.take(n) == s.callbacks
            &&& t.version == (s.version + data.len()) % 0x1_0000_0000_0000_0000
            &&& s.version + data.len() <= u64::MAX ==> forall|i: int|
                n <= i < n + data.len() ==> (#[trigger] t.callbacks[i]).version == s.version + i - n
        }),
    decreases data.len(),
{
    let t = after_writes(s, data);
    let n = s.callbacks.len() as int;
    if data.len() == 0 {
        assert(t.callbacks.take(n) =~= s.callbacks);
    } else {
        lemma_after_writes(s, data.drop_last());
        let u = after_writes(s, data.drop_last());
        assert(t.callbacks.take(n) =~= u.callbacks.take(n));
        if s.version + data.len() <= u64::MAX {
            assert forall|i: int| n <= i < n + data.len() implies (
            #[trigger] t.callbacks[i]).version == s.version + i - n by {
                if i < n + data.len() - 1 {
                    assert(t.callbacks[i] == u.callbacks[i]);
                }
            }
        }
    }
}

/// No update is lost: after other writers' writes, fewer than there are versions, a writer that
/// started from the version before them does not find it current any more.
pub proof fn law_stale_writer_is_refused<T>(s: RcuView<T>, data: Seq<T>)
    requires
        0 < data.len() <= u64::MAX,
    ensures
        after_writes(s, data).version != s.version,
{
    lemma_after_writes(s, data);
}

/// No two of `callbacks` hold the same version.
pub open spec fn distinct_versions<T>(callbacks: Seq<Callback<T>>) -> bool {
    forall|i: int, j: int|
        0 <= i < j < callbacks.len() ==> (#[trigger] callbacks[i]).version != (
        #[trigger] callbacks[j]).version
}

/// In how many places `version` is, of those a replaced version can be in: on the queue, in the
/// hands of the writer that replaced it, in the hands of a collection, among the reclaimed.
pub open spec fn places<T>(s: RcuView<T>, version: u64) -> nat {
    let queued: nat = if holds_version(s.callbacks, version) { 1 } else { 0 };
    let unqueued: nat = if s.ledger.unqueued.contains_key(version) { 1 } else { 0 };
    let taken: nat = if s.ledger.taken.contains(version) { 1 } else { 0 };
    let reclaimed: nat = if s.ledger.reclaimed.contains(version) { 1 } else { 0 };
    queued + unqueued + taken + reclaimed
}

/// Every replaced version is in exactly one place, once; versions that are current or yet to
/// come are in none. (Told while versions have not wrapped around.)
pub open spec fn accounted<T>(s: RcuView<T>) -> bool {
    &&& distinct_versions(s.callbacks)
    &&& s.ledger.reclaimed.no_duplicates()
    &&& forall|v: u64|
        #[trigger] places(s, v) == if v < s.version {
            1nat
        } else {
            0nat
        }
}

/// A new instance has nothing to account for.
pub proof fn law_new_is_accounted<T>(s: RcuView<T>)
    requires
        s.version == 0,
        s.callbacks.len() == 0,
        s.ledger == Ledger::empty(),
    ensures
        accounted(s),
{
}

/// Replacing the current value puts it into the writer's hands.
pub proof fn law_replace_keeps_account<T>(s: RcuView<T>, data: T)
    requires
        accounted(s),
        s.version < u64::MAX,
    ensures
        accounted(s.after_replace(data)),
        s.after_replace(data).ledger.unqueued.contains_key(s.version),
{
    let t = s.after_replace(data);
    assert forall|v: u64| #[trigger] places(t, v) == if v < t.version {
        1nat
    } else {
        0nat
    } by {
        assert(places(s, v) == if v < s.version {
            1nat
        } else {
            0nat
        });
    }
}

/// Queueing what a writer has replaced keeps the account.
pub proof fn law_queue_keeps_account<T>(s: RcuView<T>, callback: Callback<T>)
    requires
        accounted(s),
        s.ledger.unqueued.contains_key(callback.version),
    ensures
        accounted(s.after_queue(callback)),
{
    let t = s.after_queue(callback);
    let n = s.callbacks.len() as int;
    assert(places(s, callback.version) == 1);
    assert forall|v: u64| #[trigger]
        holds_version(t.callbacks, v) == (holds_version(s.callbacks, v) || v
        == callback.version) by {
        lemma_holds_version_push(s.callbacks, callback, v);
    }
    assert forall|i: int, j: int| 0 <= i < j < t.callbacks.len() implies (
    #[trigger] t.callbacks[i]).version != (#[trigger] t.callbacks[j]).version by {
        assert(t.callbacks[i] == s.callbacks[i]);
        assert(holds_version(s.callbacks, s.callbacks[i].version));
        if j < n {
            assert(t.callbacks[j] == s.callbacks[j]);
        }
    }
    assert forall|v: u64| #[trigger] places(t, v) == if v < t.version {
        1nat
    } else {
        0nat
    } by {
        assert(places(s, v) == if v < s.version {
            1nat
        } else {
            0nat
        });
    }
}

proof fn lemma_holds_version_push<T>(callbacks: Seq<Callback<T>>, callback: Callback<T>, v: u64)
    ensures
        holds_version(callbacks.push(callback), v) == (holds_version(callbacks, v) || v
            == callback.version),
{
    let more = callbacks.push(callback);
    if holds_version(callbacks, v) {
        let i = choose|i: int| 0 <= i < callbacks.len() && (#[trigger] callbacks[i]).version == v;
        assert(more[i].version == v);
    }
    if v == callback.version {
        assert(more[callbacks.len() as int].version == v);
    }
    if holds_version(more, v) && v != callback.version {
        let i = choose|i: int| 0 <= i < more.len() && (#[trigger] more[i]).version == v;
        assert(callbacks[i].version == v);
    }
}

/// A write keeps the account.
pub proof fn law_write_keeps_account<T>(s: RcuView<T>, data: T)
    requires
        accounted(s),
        s.version < u64::MAX,
    ensures
        accounted(s.after_write(data)),
        s.after_write(data).ledger == s.ledger,
{
    law_replace_keeps_account(s, data);
    law_queue_keeps_account(s.after_replace(data), s.replaced());
    assert(places(s, s.version) == 0);
    assert(s.after_write(data).ledger.unqueued =~= s.ledger.unqueued);
}

/// Taking callbacks off the queue, up to whichever one, puts them into the collection's hands:
/// each was queued once, and all can be processed.
pub proof fn law_take_keeps_account<T>(s: RcuView<T>, old_head: Option<u64>)
    requires
        accounted(s),
    ensures
        accounted(s.after_take(old_head)),
        distinct_versions(s.safe_callbacks(old_head)),
        versions_of(s.safe_callbacks(old_head)).subset_of(s.after_take(old_head).ledger.taken),
{
    let t = s.after_take(old_head);
    let safe = s.safe_callbacks(old_head);
    let n = queued_through(s.callbacks, old_head) as int;
    if let Some(version) = old_head {
        lemma_prefix_through(s.callbacks, of_version(version));
    }
    assert forall|i: int, j: int| 0 <= i < j < safe.len() implies (#[trigger] safe[i]).version != (
    #[trigger] safe[j]).version by {
        assert(safe[i] == s.callbacks[i] && safe[j] == s.callbacks[j]);
    }
    assert forall|i: int, j: int| 0 <= i < j < t.callbacks.len() implies (
    #[trigger] t.callbacks[i]).version != (#[trigger] t.callbacks[j]).version by {
        assert(t.callbacks[i] == s.callbacks[i + n] && t.callbacks[j] == s.callbacks[j + n]);
    }
    assert forall|v: u64| #[trigger] places(t, v) == if v < t.version {
        1nat
    } else {
        0nat
    } by {
        assert(places(s, v) == if v < s.version {
            1nat
        } else {
            0nat
        });
        lemma_holds_version_split(s.callbacks, n, v);
    }
}

proof fn lemma_holds_version_split<T>(callbacks: Seq<Callback<T>>, n: int, v: u64)
    requires
        0 <= n <= callbacks.len(),
        distinct_versions(callbacks),
    ensures
        holds_version(callbacks, v) == (holds_version(callbacks.take(n), v) || holds_version(
            callbacks.skip(n),
            v,
        )),
        !(holds_version(callbacks.take(n), v) && holds_version(callbacks.skip(n), v)),
{
    let a = callbacks.take(n);
    let b = callbacks.skip(n);
    if holds_version(a, v) {
        let i = choose|i: int| 0 <= i < a.len() && (#[trigger] a[i]).version == v;
        assert(callbacks[i].version == v);
        if holds_version(b, v) {
            let j = choose|j: int| 0 <= j < b.len() && (#[trigger] b[j]).version == v;
            assert(callbacks[j + n].version == v);
        }
    }
    if holds_version(b, v) {
        let j = choose|j: int| 0 <= j < b.len() && (#[trigger] b[j]).version == v;
        assert(callbacks[j + n].version == v);
    }
    if holds_version(callbacks, v) {
        let i = choose|i: int| 0 <= i < callbacks.len() && (#[trigger] callbacks[i]).version == v;
        if i < n {
            assert(a[i].version == v);
        } else {
            assert(b[i - n].version == v);
        }
    }
}

/// Processing callbacks that a collection has in its hands reclaims each of them, once.
pub proof fn law_process_keeps_account<T>(s: RcuView<T>, callbacks: Seq<Callback<T>>)
    requires
        accounted(s),
        distinct_versions(callbacks),
        versions_of(callbacks).subset_of(s.ledger.taken),
    ensures
        accounted(s.after_process(callbacks)),
{
    let t = s.after_process(callbacks);
    let m = s.ledger.reclaimed.len() as int;
    let more = versions_newest_first(callbacks);
    let k = callbacks.len() as int;
    assert forall|v: u64| #[trigger] places(t, v) == if v < t.version {
        1nat
    } else {
        0nat
    } by {
        assert(places(s, v) == if v < s.version {
            1nat
        } else {
            0nat
        });
        assert(versions_of(callbacks).contains(v) ==> s.ledger.taken.contains(v));
        lemma_reclaimed_after(s.ledger, callbacks, v);
    }
    assert forall|i: int, j: int|
        0 <= i < t.ledger.reclaimed.len() && 0 <= j < t.ledger.reclaimed.len() && i
            != j implies t.ledger.reclaimed[i] != t.ledger.reclaimed[j] by {
        if i < m && j >= m {
            lemma_reclaimed_apart(s, callbacks, i, j - m);
        } else if i >= m && j < m {
            lemma_reclaimed_apart(s, callbacks, j, i - m);
        } else if i >= m && j >= m {
            assert(t.ledger.reclaimed[i] == callbacks[k - 1 - (i - m)].version);
            assert(t.ledger.reclaimed[j] == callbacks[k - 1 - (j - m)].version);
        }
    }
}

proof fn lemma_reclaimed_after<T>(ledger: Ledger, callbacks: Seq<Callback<T>>, v: u64)
    ensures
        ledger.after_process(callbacks).reclaimed.contains(v) == (ledger.reclaimed.contains(v)
            || holds_version(callbacks, v)),
{
    let m = ledger.reclaimed.len() as int;
    let k = callbacks.len() as int;
    let all = ledger.after_process(callbacks).reclaimed;
    if ledger.reclaimed.contains(v) {
        let i = choose|i: int| 0 <= i < m && ledger.reclaimed[i] == v;
        assert(all[i] == v);
    }
    if holds_version(callbacks, v) {
        let i = choose|i: int| 0 <= i < k && (#[trigger] callbacks[i]).version == v;
        assert(all[m + (k - 1 - i)] == v);
    }
    if all.contains(v) {
        let i = choose|i: int| 0 <= i < all.len() && all[i] == v;
        if i < m {
            assert(ledger.reclaimed[i] == v);
        } else {
            assert(callbacks[k - 1 - (i - m)].version == v);
        }
    }
}

proof fn lemma_reclaimed_apart<T>(s: RcuView<T>, callbacks: Seq<Callback<T>>, i: int, j: int)
    requires
        accounted(s),
        versions_of(callbacks).subset_of(s.ledger.taken),
        0 <= i < s.ledger.reclaimed.len(),
        0 <= j < callbacks.len(),
    ensures
        s.ledger.reclaimed[i] != versions_newest_first(callbacks)[j],
{
    let v = s.ledger.reclaimed[i];
    assert(s.ledger.reclaimed.contains(v));
    assert(places(s, v) <= 1);
    let w = callbacks[callbacks.len() - 1 - j].version;
    assert(holds_version(callbacks, w));
    assert(versions_of(callbacks).contains(w));
}

/// Steps that do not move versions keep the account: registering, beginning and ending a grace
/// period, cleaning up threads.
pub proof fn law_thread_steps_keep_account<T>(s: RcuView<T>, at: usize, threads: Threads)
    requires
        accounted(s),
    ensures
        accounted(s.after_register(at)),
        accounted(s.after_begin()),
        accounted(s.after_release()),
        accounted(s.after_clean(threads)),
{
    lemma_same_places(s, s.after_register(at));
    lemma_same_places(s, s.after_begin());
    lemma_same_places(s, s.after_release());
    lemma_same_places(s, s.after_clean(threads));
}

proof fn lemma_same_places<T>(s: RcuView<T>, t: RcuView<T>)
    requires
        accounted(s),
        t.version == s.version,
        t.callbacks == s.callbacks,
        t.ledger == s.ledger,
    ensures
        accounted(t),
{
    assert forall|v: u64| #[trigger] places(t, v) == if v < t.version {
        1nat
    } else {
        0nat
    } by {
        assert(places(s, v) == if v < s.version {
            1nat
        } else {
            0nat
        });
    }
}

/// A whole collection keeps the account, whichever callback it remembers.
pub proof fn law_collection_keeps_account<T>(
    s: RcuView<T>,
    old_head: Option<u64>,
    threads: Threads,
)
    requires
        accounted(s),
    ensures
        accounted(s.after_collection(old_head, threads)),
{
    law_thread_steps_keep_account(s, 0, threads);
    let a = s.after_release();
    law_take_keeps_account(a, old_head);
    let b = a.after_take(old_head);
    law_process_keeps_account(b, s.safe_callbacks(old_head));
    law_thread_steps_keep_account(b.after_process(s.safe_callbacks(old_head)), 0, threads);
}

/// A collection that remembers the callback at position `n - 1` takes the `n` oldest.
pub proof fn law_snapshot_splits_the_queue<T>(callbacks: Seq<Callback<T>>, n: int)
    requires
        distinct_versions(callbacks),
        0 < n <= callbacks.len(),
    ensures
        queued_through(callbacks, Some(callbacks[n - 1].version)) == n,
{
    lemma_prefix_through_is(callbacks, of_version(callbacks[n - 1].version), n as nat);
}

/// A collection that nobody interrupts reclaims all that was queued, the most recent first, and
/// leaves the value and its version alone.
pub proof fn law_gc_reclaims_all<T>(s: RcuView<T>, threads: Threads)
    ensures
        ({
            let t = s.after_begin().after_collection(head_version(s.callbacks), threads);
            &&& t.callbacks == Seq::<Callback<T>>::empty()
            &&& t.ledger.reclaimed == s.ledger.reclaimed + versions_newest_first(s.callbacks)
            &&& t.ledger.reclaimed.len() == s.ledger.reclaimed.len() + s.callbacks.len()
            &&& t.current == s.current
            &&& t.version == s.version
            &&& !t.sync_locked
            &&& !t.thread_list_locked
        }),
{
    let t = s.after_begin().after_collection(head_version(s.callbacks), threads);
    assert(t.callbacks =~= Seq::<Callback<T>>::empty());
    assert(s.after_begin().safe_callbacks(head_version(s.callbacks)) =~= s.callbacks);
}

/// So does a reclamation that has waited for the readers of the instance and of the domain.
pub proof fn law_call_rcu_reclaims_all<T>(s: RcuView<T>)
    ensures
        ({
            let b = s.after_begin();
            let head = head_version(s.callbacks);
            let t = b.after_release().after_take(head).after_process(b.safe_callbacks(head));
            &&& t.callbacks == Seq::<Callback<T>>::empty()
            &&& t.ledger.reclaimed == s.ledger.reclaimed + versions_newest_first(s.callbacks)
            &&& t.current == s.current
            &&& t.version == s.version
            &&& accounted(s) ==> accounted(t)
        }),
{
    let b = s.after_begin();
    let head = head_version(s.callbacks);
    let r = b.after_release();
    assert(r.after_take(head).callbacks =~= Seq::<Callback<T>>::empty());
    assert(b.safe_callbacks(head) =~= s.callbacks);
    if accounted(s) {
        lemma_same_places(s, r);
        law_take_keeps_account(r, head);
        law_process_keeps_account(r.after_take(head), s.callbacks);
    }
}

/// Values replaced while a collection waits stay queued; those queued before it started are
/// what it takes.
pub proof fn law_later_writes_stay_queued<T>(s: RcuView<T>, data: Seq<T>)
    requires
        accounted(s),
        s.version + data.len() <= u64::MAX,
    ensures
        ({
            let t = after_writes(s.after_begin(), data);
            let n = s.callbacks.len() as int;
            &&& t.safe_callbacks(head_version(s.callbacks)) == s.callbacks
            &&& t.after_take(head_version(s.callbacks)).callbacks == t.callbacks.skip(n)
            &&& t.callbacks.skip(n).len() == data.len()
            &&& t.after_take(head_version(s.callbacks)).current == t.current
        }),
{
    let b = s.after_begin();
    let t = after_writes(b, data);
    let n = s.callbacks.len() as int;
    lemma_after_writes(b, data);
    if n > 0 {
        let head = s.callbacks[n - 1].version;
        assert(t.callbacks[n - 1] == t.callbacks.take(n)[n - 1]);
        assert(holds_version(s.callbacks, head));
        assert(places(s, head) >= 1);
        lemma_prefix_through_is(t.callbacks, of_version(head), n as nat);
    }
    assert(t.safe_callbacks(head_version(s.callbacks)) =~= t.callbacks.take(n));
}

/// Two collections never take the same callback: what one has taken, another that remembers the
/// same callback does not find, whatever was written in between.
pub proof fn law_callbacks_are_taken_once<T>(s: RcuView<T>, n: int, data: Seq<T>)
    requires
        accounted(s),
        0 < n <= s.callbacks.len(),
        s.version + data.len() <= u64::MAX,
    ensures
        ({
            let old_head = Some(s.callbacks[n - 1].version);
            let t = after_writes(s.after_take(old_head), data);
            &&& t.safe_callbacks(old_head) == Seq::<Callback<T>>::empty()
            &&& t.after_take(old_head) == t
        }),
{
    let version = s.callbacks[n - 1].version;
    let old_head = Some(version);
    law_snapshot_splits_the_queue(s.callbacks, n);
    let u = s.after_take(old_head);
    let t = after_writes(u, data);
    let m = u.callbacks.len() as int;
    lemma_after_writes(u, data);
    assert(holds_version(s.callbacks, version));
    assert(places(s, version) >= 1);
    assert forall|j: int| 0 <= j < t.callbacks.len() implies !of_version(version)(
        #[trigger] t.callbacks[j],
    ) by {
        if j < m {
            assert(t.callbacks[j] == t.callbacks.take(m)[j]);
            assert(u.callbacks[j] == s.callbacks[j + n]);
        }
    }
    lemma_prefix_through_is(t.callbacks, of_version(version), 0);
    assert(t.safe_callbacks(old_head) =~= Seq::<Callback<T>>::empty());
    assert(t.after_take(old_head).callbacks =~= t.callbacks);
    t.ledger.lemma_after_process_empty(t.safe_callbacks(old_head));
}

/// Once an instance was collected and dropped, with no writer or collection holding on to
/// anything, every version there ever was has been reclaimed, the last one included, and each
/// once.
pub proof fn law_drop_reclaims_everything<T>(s: RcuView<T>, threads: Threads)
    requires
        accounted(s),
        s.current is Some,
        s.ledger.unqueued == Map::<u64, usize>::empty(),
        s.ledger.taken == Set::<u64>::empty(),
    ensures
        ({
            let t = s.after_begin().after_collection(
                head_version(s.callbacks),
                threads,
            ).after_drop();
            &&& t.current is None
            &&& t.callbacks.len() == 0
            &&& t.threads.len() == 0
            &&& t.ledger.reclaimed.no_duplicates()
            &&& forall|v: u64| #[trigger] t.ledger.reclaimed.contains(v) <==> v <= s.version
        }),
{
    let b = s.after_begin();
    let c = b.after_collection(head_version(s.callbacks), threads);
    law_thread_steps_keep_account(s, 0, threads);
    law_collection_keeps_account(b, head_version(s.callbacks), threads);
    law_gc_reclaims_all(s, threads);
    let t = c.after_drop();
    assert(b.safe_callbacks(head_version(s.callbacks)) =~= s.callbacks);
    assert(c.ledger.taken =~= Set::<u64>::empty());
    assert forall|v: u64| #[trigger] t.ledger.reclaimed.contains(v) <==> v <= s.version by {
        assert(places(c, v) == if v < c.version {
            1nat
        } else {
            0nat
        });
        if c.ledger.reclaimed.contains(v) {
            let k = choose|k: int| 0 <= k < c.ledger.reclaimed.len() && c.ledger.reclaimed[k] == v;
            assert(t.ledger.reclaimed[k] == v);
        }
        if v == s.version {
            assert(t.ledger.reclaimed[c.ledger.reclaimed.len() as int] == v);
        }
        if t.ledger.reclaimed.contains(v) {
            let k = choose|k: int| 0 <= k < t.ledger.reclaimed.len() && t.ledger.reclaimed[k] == v;
            if k < c.ledger.reclaimed.len() {
                assert(c.ledger.reclaimed[k] == v);
                assert(c.ledger.reclaimed.contains(v));
            }
        }
    }
    assert(places(c, s.version) == 0);
    assert(!c.ledger.reclaimed.contains(s.version));
}

} // verus!
