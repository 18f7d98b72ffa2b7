//! Grace periods: what a collection waits for, and how far it has come.
use vstd::prelude::*;

use crate::callback::SafeCallbacks;
use crate::registry::{is_active, Registry, ThreadData, Threads};

verus! {

/// What a collection saw when it started.
pub struct GracePeriodView {
    /// The instance.
    pub rcu_id: usize,
    /// The instance's counter before the collection advanced it.
    pub old_counter: usize,
    /// The version that the most recent callback held.
    pub old_head: Option<u64>,
    /// Where the data of the collecting thread stands, if it is registered.
    pub caller: Option<usize>,
}

/// A grace period that a collection has begun. While it lasts, the collection keeps the
/// instance's thread list locked.
pub struct GracePeriod {
    rcu_id: usize,
    old_counter: usize,
    old_head: Option<u64>,
    caller: Option<usize>,
}

impl View for GracePeriod {
    type V = GracePeriodView;

    closed spec fn view(&self) -> GracePeriodView {
        GracePeriodView {
            rcu_id: self.rcu_id,
            old_counter: self.old_counter,
            old_head: self.old_head,
            caller: self.caller,
        }
    }
}

impl GracePeriod {
    pub(crate) fn new(
        rcu_id: usize,
        old_counter: usize,
        old_head: Option<u64>,
        caller: Option<usize>,
    ) -> (gp: Self)
        ensures
            gp@ == (GracePeriodView { rcu_id, old_counter, old_head, caller }),
    {
        GracePeriod { rcu_id, old_counter, old_head, caller }
    }

    /// Identifier of the instance.
    pub fn rcu_id(&self) -> (id: usize)
        ensures
            id == self@.rcu_id,
    {
        self.rcu_id
    }

    /// Ends the period.
    pub(crate) fn elapse(self) -> (elapsed: ElapsedPeriod)
        ensures
            elapsed@ == self@,
    {
        ElapsedPeriod { gp: self }
    }

    /// The instance's counter before the collection advanced it.
    pub fn old_counter(&self) -> (counter: usize)
        ensures
            counter == self@.old_counter,
    {
        self.old_counter
    }

    /// The version that the most recent callback held when the period began.
    pub fn old_head(&self) -> (head: Option<u64>)
        ensures
            head == self@.old_head,
    {
        self.old_head
    }

    /// Where the data of the collecting thread stands, if it is registered.
    pub fn caller(&self) -> (caller: Option<usize>)
        ensures
            caller == self@.caller,
    {
        self.caller
    }
}

/// A grace period that is over: the callbacks that it remembers can be taken.
pub struct ElapsedPeriod {
    gp: GracePeriod,
}

impl View for ElapsedPeriod {
    type V = GracePeriodView;

    closed spec fn view(&self) -> GracePeriodView {
        self.gp@
    }
}

impl ElapsedPeriod {
    /// Identifier of the instance.
    pub fn rcu_id(&self) -> (id: usize)
        ensures
            id == self@.rcu_id,
    {
        self.gp.rcu_id
    }

    /// The version that the most recent callback held when the period began.
    pub fn old_head(&self) -> (head: Option<u64>)
        ensures
            head == self@.old_head,
    {
        self.gp.old_head
    }
}

/// How far waiting for the readers has come.
pub enum SyncStatus<T> {
    /// Another collection is waiting for the readers. Nothing was changed.
    Busy,
    /// Some active thread has not caught up.
    Waiting(GracePeriod),
    /// No active thread lags; these callbacks are safe to process.
    Safe(SafeCallbacks<T>),
}

/// How far a garbage collection has come.
pub enum GcStatus {
    /// Another collection is waiting for the readers. Nothing was changed.
    Busy,
    /// Some active thread has not caught up.
    Waiting(GracePeriod),
    /// The collection is complete.
    Done,
}

/// Whether a thread may be in a critical section that it entered when the counter was at
/// `old_counter` or before: it has announced less, or has announced that very counter on entering
/// a section. A thread that announced `old_counter` in a quiescent state is in none.
pub open spec fn lags(data: ThreadData, old_counter: usize) -> bool {
    data.local_counter < old_counter || (data.local_counter == old_counter && data.reading)
}

/// No active thread of `list`, but perhaps the one at `caller`, lags behind `old_counter`.
pub open spec fn caught_up(
    threads: Threads,
    list: Seq<usize>,
    old_counter: usize,
    caller: Option<usize>,
) -> bool {
    forall|i: int|
        0 <= i < list.len() && is_active(threads, #[trigger] list[i]) && caller != Some(list[i])
            ==> !lags(threads[list[i]], old_counter)
}

/// One pass over the thread list: whether every active thread has caught up.
pub(crate) fn all_threads_observed(
    registry: &Registry,
    list: &Vec<usize>,
    old_counter: usize,
    caller: Option<usize>,
) -> (observed: bool)
    ensures
        observed == caught_up(registry@.threads, list@, old_counter, caller),
{
    let mut i: usize = list.len();
    while i > 0
        invariant
            i <= list@.len(),
            forall|j: int|
                i <= j < list@.len() && is_active(registry@.threads, #[trigger] list@[j])
                    && caller != Some(list@[j]) ==> !lags(
                    registry@.threads[list@[j]],
                    old_counter,
                ),
        decreases i,
    {
        i = i - 1;
        let at: usize = list[i];
        let is_caller = match caller {
            Some(own) => own == at,
            None => false,
        };
        if !is_caller {
            if let Some(data) = registry.thread(at) {
                let lagging = data.local_counter < old_counter || (data.local_counter
                    == old_counter && data.reading);
                if data.active && lagging {
                    assert(is_active(registry@.threads, list@[i as int]));
                    return false;
                }
            }
        }
    }
    true
}

} // verus!
