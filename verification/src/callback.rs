//! Deferred reclamation of replaced values.
use vstd::prelude::*;

use crate::latest::prefix_through;

verus! {

/// A replaced value that waits for its reclamation.
pub struct Callback<T> {
    /// The version of the protected value that `data` was.
    pub version: u64,
    /// The replaced value.
    pub data: T,
    /// The instance's counter when the value was replaced.
    pub retired_at: Ghost<usize>,
}

/// Callbacks that a collection of an instance has taken once its grace period was over. They are
/// safe to process.
pub struct SafeCallbacks<T> {
    rcu_id: usize,
    callbacks: Vec<Callback<T>>,
}

impl<T> View for SafeCallbacks<T> {
    type V = Seq<Callback<T>>;

    closed spec fn view(&self) -> Seq<Callback<T>> {
        self.callbacks@
    }
}

impl<T> SafeCallbacks<T> {
    /// The instance they belong to.
    pub closed spec fn of_rcu(self) -> usize {
        self.rcu_id
    }

    pub(crate) fn new(rcu_id: usize, callbacks: Vec<Callback<T>>) -> (safe: Self)
        ensures
            safe.of_rcu() == rcu_id,
            safe@ == callbacks@,
    {
        SafeCallbacks { rcu_id, callbacks }
    }

    /// Identifier of the instance they belong to.
    pub fn rcu_id(&self) -> (id: usize)
        ensures
            id == self.of_rcu(),
    {
        self.rcu_id
    }

    /// The callbacks, the most recent last.
    pub fn callbacks(&self) -> (callbacks: &Vec<Callback<T>>)
        ensures
            callbacks@ == self@,
    {
        &self.callbacks
    }

    pub(crate) fn into_callbacks(self) -> (callbacks: Vec<Callback<T>>)
        ensures
            callbacks@ == self@,
    {
        self.callbacks
    }
}

/// Selects the callbacks that hold the value of `version`.
pub open spec fn of_version<T>(version: u64) -> spec_fn(Callback<T>) -> bool {
    |c: Callback<T>| c.version == version
}

/// The version held by the most recent of `callbacks`.
pub open spec fn head_version<T>(callbacks: Seq<Callback<T>>) -> Option<u64> {
    if callbacks.len() == 0 {
        None
    } else {
        Some(callbacks.last().version)
    }
}

/// How many of `callbacks`, counted from the oldest, were queued up to the one that holds
/// `old_head`; 0 where that one is not queued.
pub open spec fn queued_through<T>(callbacks: Seq<Callback<T>>, old_head: Option<u64>) -> nat {
    match old_head {
        Some(version) => prefix_through(callbacks, of_version(version)),
        None => 0,
    }
}

/// Whether one of `callbacks` holds the value of `version`.
pub open spec fn holds_version<T>(callbacks: Seq<Callback<T>>, version: u64) -> bool {
    exists|i: int| 0 <= i < callbacks.len() && (#[trigger] callbacks[i]).version == version
}

/// The versions that `callbacks` hold.
pub open spec fn versions_of<T>(callbacks: Seq<Callback<T>>) -> Set<u64> {
    Set::new(|version: u64| holds_version(callbacks, version))
}

/// The versions that `callbacks` hold, the most recent first.
pub open spec fn versions_newest_first<T>(callbacks: Seq<Callback<T>>) -> Seq<u64> {
    Seq::new(callbacks.len(), |i: int| callbacks[callbacks.len() - 1 - i].version)
}

/// Where the replaced versions of an instance are that are not queued.
pub struct Ledger {
    /// Replaced by a writer that has yet to queue it, with the counter at that time.
    pub unqueued: Map<u64, usize>,
    /// Taken off the queue by a collection that has yet to reclaim it.
    pub taken: Set<u64>,
    /// Reclaimed, in order.
    pub reclaimed: Seq<u64>,
}

impl Ledger {
    /// A ledger without entries.
    pub open spec fn empty() -> Self {
        Ledger { unqueued: Map::empty(), taken: Set::empty(), reclaimed: Seq::empty() }
    }

    /// After a writer replaced `version` when the counter was `counter`.
    pub open spec fn after_replace(self, version: u64, counter: usize) -> Self {
        Ledger { unqueued: self.unqueued.insert(version, counter), ..self }
    }

    /// After the writer queued `version`.
    pub open spec fn after_queue(self, version: u64) -> Self {
        Ledger { unqueued: self.unqueued.remove(version), ..self }
    }

    /// After a collection took `callbacks` off the queue.
    pub open spec fn after_take<T>(self, callbacks: Seq<Callback<T>>) -> Self {
        Ledger { taken: self.taken.union(versions_of(callbacks)), ..self }
    }

    /// After `version` was reclaimed.
    pub open spec fn after_free(self, version: u64) -> Self {
        Ledger {
            taken: self.taken.remove(version),
            reclaimed: self.reclaimed.push(version),
            ..self
        }
    }

    /// After the values of `callbacks` were reclaimed, the most recent first.
    pub open spec fn after_process<T>(self, callbacks: Seq<Callback<T>>) -> Self {
        Ledger {
            taken: self.taken.difference(versions_of(callbacks)),
            reclaimed: self.reclaimed + versions_newest_first(callbacks),
            ..self
        }
    }

    /// Reclaiming some callbacks and then, as the oldest of all, one more is reclaiming them
    /// together.
    pub proof fn lemma_after_process_step<T>(
        self,
        older: Callback<T>,
        callbacks: Seq<Callback<T>>,
    )
        ensures
            self.after_process(callbacks).after_free(older.version) == self.after_process(
                seq![older] + callbacks,
            ),
    {
        let all = seq![older] + callbacks;
        assert forall|v: u64| #[trigger] holds_version(all, v) == (holds_version(callbacks, v) || v
            == older.version) by {
            if holds_version(callbacks, v) {
                let i = choose|i: int|
                    0 <= i < callbacks.len() && (#[trigger] callbacks[i]).version == v;
                assert(all[i + 1].version == v);
            }
            if v == older.version {
                assert(all[0].version == v);
            }
            if holds_version(all, v) && v != older.version {
                let i = choose|i: int| 0 <= i < all.len() && (#[trigger] all[i]).version == v;
                assert(callbacks[i - 1].version == v);
            }
        }
        let one = self.after_process(callbacks).after_free(older.version);
        let other = self.after_process(all);
        assert(one.taken =~= other.taken);
        assert(one.reclaimed =~= other.reclaimed);
    }

    /// Reclaiming nothing changes nothing.
    pub proof fn lemma_after_process_empty<T>(self, callbacks: Seq<Callback<T>>)
        requires
            callbacks.len() == 0,
        ensures
            self.after_process(callbacks) == self,
            self.after_take(callbacks) == self,
    {
        assert(self.after_process(callbacks).taken =~= self.taken);
        assert(self.after_process(callbacks).reclaimed =~= self.reclaimed);
        assert(self.after_take(callbacks).taken =~= self.taken);
    }
}

/// Reclaims the value that `callback` holds, and enters that in the ledger.
pub(crate) fn free_callback<T>(callback: Callback<T>, ledger: &mut Ghost<Ledger>)
    ensures
        final(ledger)@ == old(ledger)@.after_free(callback.version),
{
    *ledger = Ghost(ledger@.after_free(callback.version));
}

} // verus!
