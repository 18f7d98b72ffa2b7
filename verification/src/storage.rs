//! What a thread keeps for itself: one entry per instance it takes part in.
use vstd::prelude::*;

use crate::latest::{lemma_prefix_through_is, prefix_through};

verus! {

/// A thread's entry for one RCU instance.
#[derive(Clone, Copy, Debug, PartialEq, Eq, Structural)]
pub struct ThreadLocalStorage {
    /// Where in the registry the thread's data for the instance stands.
    pub thread_data: usize,
    /// Identifier of the instance.
    pub rcu_id: usize,
}

impl ThreadLocalStorage {
    /// Creates the entry that ties the instance `rcu_id` to the thread data at `thread_data`.
    pub fn new(rcu_id: usize, thread_data: usize) -> (entry: Self)
        ensures
            entry.rcu_id == rcu_id,
            entry.thread_data == thread_data,
    {
        ThreadLocalStorage { thread_data, rcu_id }
    }
}

/// All entries of one thread, the most recent last.
pub struct ThreadStorage {
    entries: Vec<ThreadLocalStorage>,
}

/// Selects the entries of the instance `rcu_id`.
pub open spec fn of_instance(rcu_id: usize) -> spec_fn(ThreadLocalStorage) -> bool {
    |e: ThreadLocalStorage| e.rcu_id == rcu_id
}

/// Selects the entries equal to `entry`.
pub open spec fn same_entry(entry: ThreadLocalStorage) -> spec_fn(ThreadLocalStorage) -> bool {
    |e: ThreadLocalStorage| e.rcu_id == entry.rcu_id && e.thread_data == entry.thread_data
}

/// The most recent entry of `rcu_id` among `entries`.
pub open spec fn lookup(entries: Seq<ThreadLocalStorage>, rcu_id: usize) -> Option<
    ThreadLocalStorage,
> {
    let k = prefix_through(entries, of_instance(rcu_id));
    if k == 0 {
        None
    } else {
        Some(entries[k - 1])
    }
}

/// `entries` without the most recent one equal to `entry`, if there is one.
pub open spec fn without(
    entries: Seq<ThreadLocalStorage>,
    entry: ThreadLocalStorage,
) -> Seq<ThreadLocalStorage> {
    let k = prefix_through(entries, same_entry(entry));
    if k == 0 {
        entries
    } else {
        entries.remove(k - 1)
    }
}

/// Selects the entries of other instances than `rcu_id`.
pub open spec fn of_other_instances(rcu_id: usize) -> spec_fn(ThreadLocalStorage) -> bool {
    |e: ThreadLocalStorage| e.rcu_id != rcu_id
}

/// `entries` without those of the instance `rcu_id`, in order.
pub open spec fn other_entries(
    entries: Seq<ThreadLocalStorage>,
    rcu_id: usize,
) -> Seq<ThreadLocalStorage> {
    entries.filter(of_other_instances(rcu_id))
}

/// Whether one of `entries` points to the thread data at `at`.
pub open spec fn points_to(entries: Seq<ThreadLocalStorage>, at: usize) -> bool {
    exists|i: int| 0 <= i < entries.len() && (#[trigger] entries[i]).thread_data == at
}

/// A thread has at most one entry per instance.
pub open spec fn one_per_instance(entries: Seq<ThreadLocalStorage>) -> bool {
    forall|i: int, j: int|
        0 <= i < j < entries.len() ==> (#[trigger] entries[i]).rcu_id != (
        #[trigger] entries[j]).rcu_id
}

impl View for ThreadStorage {
    type V = Seq<ThreadLocalStorage>;

    closed spec fn view(&self) -> Seq<ThreadLocalStorage> {
        self.entries@
    }
}

impl ThreadStorage {
    /// The storage of a thread that has not registered anywhere.
    pub fn new() -> (storage: Self)
        ensures
            storage@ == Seq::<ThreadLocalStorage>::empty(),
    {
        ThreadStorage { entries: Vec::new() }
    }

    /// Number of entries.
    pub fn len(&self) -> (n: usize)
        ensures
            n == self@.len(),
    {
        self.entries.len()
    }

    /// The entry at position `i`, counted from the oldest.
    pub fn get(&self, i: usize) -> (entry: ThreadLocalStorage)
        requires
            i < self@.len(),
        ensures
            entry == self@[i as int],
    {
        self.entries[i]
    }

    /// The thread's entry for the instance `rcu_id`.
    pub fn find(&self, rcu_id: usize) -> (found: Option<ThreadLocalStorage>)
        ensures
            found == lookup(self@, rcu_id),
    {
        let mut i: usize = self.entries.len();
        while i > 0
            invariant
                i <= self.entries@.len(),
                forall|j: int|
                    i <= j < self.entries@.len() ==> !of_instance(rcu_id)(
                        #[trigger] self.entries@[j],
                    ),
            decreases i,
        {
            let entry = self.entries[i - 1];
            if entry.rcu_id == rcu_id {
                proof {
                    lemma_prefix_through_is(self@, of_instance(rcu_id), i as nat);
                }
                return Some(entry);
            }
            i = i - 1;
        }
        proof {
            lemma_prefix_through_is(self@, of_instance(rcu_id), 0);
        }
        None
    }

    /// Whether one of the entries points to the thread data at `at`.
    pub(crate) fn names(&self, at: usize) -> (named: bool)
        ensures
            named == points_to(self@, at),
    {
        let mut i: usize = 0;
        while i < self.entries.len()
            invariant
                i <= self.entries@.len(),
                forall|j: int| 0 <= j < i ==> (#[trigger] self.entries@[j]).thread_data != at,
            decreases self.entries@.len() - i,
        {
            if self.entries[i].thread_data == at {
                assert(self@[i as int].thread_data == at);
                return true;
            }
            i = i + 1;
        }
        false
    }

    /// Removes the entries of the instance `rcu_id`; the order of the others stays.
    pub(crate) fn remove_instance(&mut self, rcu_id: usize)
        ensures
            final(self)@ == other_entries(old(self)@, rcu_id),
    {
        let ghost keep = of_other_instances(rcu_id);
        let mut kept: Vec<ThreadLocalStorage> = Vec::new();
        let mut i: usize = 0;
        proof {
            reveal(Seq::filter);
            assert(self@.take(0).filter(keep) =~= kept@);
        }
        while i < self.entries.len()
            invariant
                *self == *old(self),
                i <= self.entries@.len(),
                keep == of_other_instances(rcu_id),
                kept@ == self@.take(i as int).filter(keep),
            decreases self.entries@.len() - i,
        {
            let entry = self.entries[i];
            proof {
                reveal(Seq::filter);
                let more = self@.take(i + 1);
                assert(more.drop_last() =~= self@.take(i as int));
                assert(more.last() == entry);
            }
            if entry.rcu_id != rcu_id {
                kept.push(entry);
            }
            i = i + 1;
        }
        assert(self@.take(i as int) =~= self@);
        self.entries = kept;
    }

    /// The most recent entry.
    pub fn newest(&self) -> (head: Option<&ThreadLocalStorage>)
        ensures
            head == (if self@.len() == 0 {
                None
            } else {
                Some(&self@.last())
            }),
    {
        if self.entries.len() == 0 {
            None
        } else {
            Some(&self.entries[self.entries.len() - 1])
        }
    }

    /// Adds an entry in front of all others.
    pub(crate) fn add_entry(&mut self, entry: ThreadLocalStorage)
        ensures
            final(self)@ == old(self)@.push(entry),
    {
        self.entries.push(entry);
    }
}

/// Among the entries of other instances there is none of the instance.
pub proof fn lemma_other_entries(entries: Seq<ThreadLocalStorage>, rcu_id: usize)
    ensures
        lookup(other_entries(entries, rcu_id), rcu_id) is None,
{
    let rest = other_entries(entries, rcu_id);
    assert forall|j: int| 0 <= j < rest.len() implies !of_instance(rcu_id)(
        #[trigger] rest[j],
    ) by {
        entries.lemma_filter_pred(of_other_instances(rcu_id), j);
    }
    lemma_prefix_through_is(rest, of_instance(rcu_id), 0);
}

/// Takes `entry` out of a thread's storage; the order of the others stays.
pub fn remove_thread_local_storage(storage: &mut ThreadStorage, entry: &ThreadLocalStorage)
    ensures
        final(storage)@ == without(old(storage)@, *entry),
{
    let mut i: usize = storage.entries.len();
    while i > 0
        invariant
            storage@ == old(storage)@,
            i <= storage.entries@.len(),
            forall|j: int|
                i <= j < storage.entries@.len() ==> !same_entry(*entry)(
                    #[trigger] storage.entries@[j],
                ),
        decreases i,
    {
        let current = storage.entries[i - 1];
        if current.rcu_id == entry.rcu_id && current.thread_data == entry.thread_data {
            proof {
                lemma_prefix_through_is(storage@, same_entry(*entry), i as nat);
            }
            storage.entries.remove(i - 1);
            return;
        }
        i = i - 1;
    }
    proof {
        lemma_prefix_through_is(storage@, same_entry(*entry), 0);
    }
}

} // verus!
