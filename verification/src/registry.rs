//! The memory that all instances of a process share: instance identifiers, thread data, and
//! what each thread keeps for itself.
use vstd::prelude::*;

use crate::storage::{
    lookup, other_entries, points_to, remove_thread_local_storage, without, ThreadLocalStorage,
    ThreadStorage,
};

verus! {

/// The state of one thread towards one RCU instance.
#[derive(Clone, Copy, Debug)]
pub struct ThreadData {
    /// The instance's counter, as the thread last announced to have seen it.
    pub local_counter: usize,
    /// Whether that announcement began a critical section.
    pub reading: bool,
    /// Whether a collection has to wait for the thread.
    pub active: bool,
    /// The thread's own entry that points here.
    pub tls_ptr: Option<ThreadLocalStorage>,
}

impl ThreadData {
    /// Creates the data of a thread that is active and has announced nothing.
    pub fn new() -> (data: Self)
        ensures
            data == (ThreadData {
                local_counter: 0,
                reading: false,
                active: true,
                tls_ptr: None,
            }),
    {
        ThreadData { local_counter: 0, reading: false, active: true, tls_ptr: None }
    }
}

/// Thread data by address.
pub type Threads = Map<usize, ThreadData>;

/// `threads` after the one at `at`, if there is one, announced `counter`, on entering a critical
/// section or on passing a quiescent state.
pub open spec fn with_announcement(
    threads: Threads,
    at: usize,
    counter: usize,
    reading: bool,
) -> Threads {
    if threads.contains_key(at) {
        threads.insert(at, ThreadData { local_counter: counter, reading, ..threads[at] })
    } else {
        threads
    }
}

/// `threads` after the one at `at`, if there is one, was marked inactive.
pub open spec fn with_inactive(threads: Threads, at: usize) -> Threads {
    if threads.contains_key(at) {
        threads.insert(at, ThreadData { active: false, ..threads[at] })
    } else {
        threads
    }
}

/// `threads` after every one that `entries` points to was marked inactive.
pub open spec fn all_inactive(threads: Threads, entries: Seq<ThreadLocalStorage>) -> Threads {
    Map::new(
        |at: usize| threads.contains_key(at),
        |at: usize|
            if points_to(entries, at) {
                ThreadData { active: false, ..threads[at] }
            } else {
                threads[at]
            },
    )
}

/// The data of a thread that has just registered with `entry`.
pub open spec fn registered_data(entry: ThreadLocalStorage) -> ThreadData {
    ThreadData { local_counter: 0, reading: false, active: true, tls_ptr: Some(entry) }
}

/// Whether the thread data at `at` is in use and active.
pub open spec fn is_active(threads: Threads, at: usize) -> bool {
    threads.contains_key(at) && threads[at].active
}

/// `threads` without the data of the inactive ones in `list`.
pub open spec fn cleaned(threads: Threads, list: Seq<usize>) -> Threads {
    Map::new(
        |at: usize| threads.contains_key(at) && (list.contains(at) ==> threads[at].active),
        |at: usize| threads[at],
    )
}

/// `threads` without those that `list` names.
pub open spec fn without_listed(threads: Threads, list: Seq<usize>) -> Threads {
    Map::new(|at: usize| threads.contains_key(at) && !list.contains(at), |at: usize| threads[at])
}

/// The state of a [`Registry`].
pub struct RegistryView {
    /// Identifier that the next instance gets.
    pub next_rcu_id: usize,
    /// The thread data in use.
    pub threads: Threads,
    /// The entries of each thread of the process, by the thread's number.
    pub storages: Seq<Seq<ThreadLocalStorage>>,
}

impl RegistryView {
    /// The entries of the thread `thread`.
    pub open spec fn entries(self, thread: usize) -> Seq<ThreadLocalStorage> {
        if thread < self.storages.len() {
            self.storages[thread as int]
        } else {
            Seq::empty()
        }
    }

    /// Whether some thread has an entry that points to the thread data at `at`.
    pub open spec fn is_named(self, at: usize) -> bool {
        exists|t: int| 0 <= t < self.storages.len() && points_to(#[trigger] self.storages[t], at)
    }

    /// Where the data of `thread` for the instance `rcu_id` stands.
    pub open spec fn data_of(self, thread: usize, rcu_id: usize) -> Option<usize> {
        match lookup(self.entries(thread), rcu_id) {
            Some(entry) => Some(entry.thread_data),
            None => None,
        }
    }

    /// After `thread` announced `counter` to the instance `rcu_id`, on entering a critical section
    /// or on passing a quiescent state.
    pub open spec fn after_announce(
        self,
        thread: usize,
        rcu_id: usize,
        counter: usize,
        reading: bool,
    ) -> Self {
        match self.data_of(thread, rcu_id) {
            Some(at) => RegistryView {
                threads: with_announcement(self.threads, at, counter, reading),
                ..self
            },
            None => self,
        }
    }

    /// After `thread` was registered with the instance `rcu_id`, with its data at `at`.
    pub open spec fn after_register(self, thread: usize, rcu_id: usize, at: usize) -> Self {
        let entry = ThreadLocalStorage { thread_data: at, rcu_id };
        RegistryView {
            threads: self.threads.insert(at, registered_data(entry)),
            storages: self.storages.update(thread as int, self.entries(thread).push(entry)),
            ..self
        }
    }

    /// After the registration of `thread` with the instance `rcu_id` was taken back.
    pub open spec fn after_unregister(self, thread: usize, rcu_id: usize) -> Self {
        match lookup(self.entries(thread), rcu_id) {
            Some(entry) => RegistryView {
                threads: with_inactive(self.threads, entry.thread_data),
                storages: self.storages.update(
                    thread as int,
                    without(self.entries(thread), entry),
                ),
                ..self
            },
            None => self,
        }
    }

    /// After `thread` stopped taking part anywhere.
    pub open spec fn after_drop_thread_data(self, thread: usize) -> Self {
        RegistryView { threads: all_inactive(self.threads, self.entries(thread)), ..self }
    }

    /// After the data of the inactive threads in `list` was given back.
    pub open spec fn after_clean(self, list: Seq<usize>) -> Self {
        RegistryView { threads: cleaned(self.threads, list), ..self }
    }

    /// After the instance `rcu_id`, which listed `list`, was dropped: its thread data is given
    /// back, and no thread keeps an entry for it.
    pub open spec fn after_release(self, rcu_id: usize, list: Seq<usize>) -> Self {
        RegistryView {
            threads: without_listed(self.threads, list),
            storages: Seq::new(
                self.storages.len(),
                |t: int| other_entries(self.storages[t], rcu_id),
            ),
            ..self
        }
    }
}

/// What the instances and threads of a process share: the identifier the next instance gets, the
/// data of every registered thread, and every thread's own entries.
pub struct Registry {
    next_rcu_id: usize,
    slots: Vec<Option<ThreadData>>,
    storages: Vec<ThreadStorage>,
}

impl View for Registry {
    type V = RegistryView;

    closed spec fn view(&self) -> RegistryView {
        RegistryView {
            next_rcu_id: self.next_rcu_id,
            threads: Map::new(
                |at: usize| at < self.slots@.len() && self.slots@[at as int] is Some,
                |at: usize| self.slots@[at as int]->0,
            ),
            storages: Seq::new(self.storages@.len(), |t: int| self.storages@[t]@),
        }
    }
}

impl Registry {
    /// Entries point to addresses that have been handed out before.
    pub closed spec fn wf(&self) -> bool {
        forall|t: int, i: int|
            0 <= t < self@.storages.len() && 0 <= i < self@.storages[t].len() ==> (
            #[trigger] self@.storages[t][i]).thread_data < self.slots@.len()
    }

    /// A registry without instances and threads. Identifiers start at 1.
    pub fn new() -> (registry: Self)
        ensures
            registry.wf(),
            registry@ == (RegistryView {
                next_rcu_id: 1,
                threads: Threads::empty(),
                storages: Seq::empty(),
            }),
    {
        let registry = Registry { next_rcu_id: 1, slots: Vec::new(), storages: Vec::new() };
        assert(registry@.threads =~= Threads::empty());
        assert(registry@.storages =~= Seq::empty());
        registry
    }

    /// Adds a thread of the process and returns its number. It has no entries yet.
    pub fn add_thread(&mut self) -> (thread: usize)
        requires
            old(self).wf(),
        ensures
            final(self).wf(),
            thread == old(self)@.storages.len(),
            final(self)@ == (RegistryView {
                storages: old(self)@.storages.push(Seq::empty()),
                ..old(self)@
            }),
    {
        let thread: usize = self.storages.len();
        self.storages.push(ThreadStorage::new());
        assert(self@.storages =~= old(self)@.storages.push(Seq::empty()));
        assert forall|t: int, i: int|
            0 <= t < self@.storages.len() && 0 <= i < self@.storages[t].len() implies (
        #[trigger] self@.storages[t][i]).thread_data < self.slots@.len() by {
            assert(self@.storages[t] == old(self)@.storages[t]);
            assert(old(self)@.storages[t][i] == self@.storages[t][i]);
        }
        thread
    }

    /// Number of threads of the process.
    pub fn thread_count(&self) -> (n: usize)
        ensures
            n == self@.storages.len(),
    {
        self.storages.len()
    }

    /// What `thread` keeps for itself.
    pub fn storage(&self, thread: usize) -> (storage: Option<&ThreadStorage>)
        ensures
            match storage {
                Some(storage) => thread < self@.storages.len() && storage@ == self@.entries(
                    thread,
                ),
                None => thread >= self@.storages.len(),
            },
    {
        if thread < self.storages.len() {
            Some(&self.storages[thread])
        } else {
            None
        }
    }

    /// The entry of `thread` for the instance `rcu_id`.
    pub fn entry(&self, thread: usize, rcu_id: usize) -> (entry: Option<ThreadLocalStorage>)
        ensures
            entry == lookup(self@.entries(thread), rcu_id),
    {
        match self.storage(thread) {
            Some(storage) => storage.find(rcu_id),
            None => None,
        }
    }

    /// Where the data of `thread` for the instance `rcu_id` stands.
    pub(crate) fn data_of(&self, thread: usize, rcu_id: usize) -> (at: Option<usize>)
        ensures
            at == self@.data_of(thread, rcu_id),
    {
        match self.entry(thread, rcu_id) {
            Some(entry) => Some(entry.thread_data),
            None => None,
        }
    }

    /// Hands out the next identifier. The counter wraps around at the end of its range.
    pub(crate) fn assign_rcu_id(&mut self) -> (id: usize)
        requires
            old(self).wf(),
        ensures
            final(self).wf(),
            id == old(self)@.next_rcu_id,
            final(self)@ == (RegistryView {
                next_rcu_id: old(self)@.next_rcu_id.wrapping_add(1),
                ..old(self)@
            }),
    {
        let id: usize = self.next_rcu_id;
        self.next_rcu_id = id.wrapping_add(1);
        assert(self@.storages == old(self)@.storages);
        id
    }

    /// The thread data at `at`; `None` where nothing is in use.
    pub fn thread(&self, at: usize) -> (data: Option<ThreadData>)
        ensures
            data == (if self@.threads.contains_key(at) {
                Some(self@.threads[at])
            } else {
                None
            }),
    {
        if at < self.slots.len() {
            self.slots[at]
        } else {
            None
        }
    }

    /// Whether some thread has an entry that points to the thread data at `at`.
    fn is_named(&self, at: usize) -> (named: bool)
        ensures
            named == self@.is_named(at),
    {
        let mut t: usize = 0;
        while t < self.storages.len()
            invariant
                t <= self.storages@.len(),
                forall|u: int| 0 <= u < t ==> !points_to(#[trigger] self@.storages[u], at),
            decreases self.storages@.len() - t,
        {
            if self.storages[t].names(at) {
                assert(points_to(self@.storages[t as int], at));
                return true;
            }
            t = t + 1;
        }
        false
    }

    /// Puts `data` at an address that was not in use and that no entry points to, and returns
    /// the address.
    fn allocate(&mut self, data: ThreadData) -> (at: usize)
        requires
            old(self).wf(),
        ensures
            final(self).wf(),
            at < final(self).slots@.len(),
            final(self).slots@.len() >= old(self).slots@.len(),
            final(self).storages@ == old(self).storages@,
            !old(self)@.threads.contains_key(at),
            !old(self)@.is_named(at),
            final(self)@ == (RegistryView {
                threads: old(self)@.threads.insert(at, data),
                ..old(self)@
            }),
    {
        let mut i: usize = 0;
        while i < self.slots.len()
            invariant
                *self == *old(self),
                self.wf(),
            decreases self.slots@.len() - i,
        {
            if self.slots[i].is_none() {
                if !self.is_named(i) {
                    self.slots.set(i, Some(data));
                    assert(self@.threads =~= old(self)@.threads.insert(i, data));
                    assert(self@.storages == old(self)@.storages);
                    return i;
                }
            }
            i = i + 1;
        }
        let at: usize = self.slots.len();
        proof {
            if self@.is_named(at) {
                let t = choose|t: int|
                    0 <= t < self@.storages.len() && points_to(#[trigger] self@.storages[t], at);
                let k = choose|k: int|
                    0 <= k < self@.storages[t].len() && (
                    #[trigger] self@.storages[t][k]).thread_data == at;
                assert(self@.storages[t][k].thread_data < self.slots@.len());
            }
        }
        self.slots.push(Some(data));
        assert(self@.threads =~= old(self)@.threads.insert(at, data));
        assert(self@.storages == old(self)@.storages);
        at
    }

    /// Registers `thread` with the instance `rcu_id`, and returns where its data stands.
    pub(crate) fn register(&mut self, thread: usize, rcu_id: usize) -> (at: usize)
        requires
            old(self).wf(),
            thread < old(self)@.storages.len(),
        ensures
            final(self).wf(),
            !old(self)@.threads.contains_key(at),
            !old(self)@.is_named(at),
            final(self)@ == old(self)@.after_register(thread, rcu_id, at),
    {
        let at: usize = self.allocate(ThreadData::new());
        let entry = ThreadLocalStorage::new(rcu_id, at);
        self.put(at, ThreadData { tls_ptr: Some(entry), ..ThreadData::new() });
        let ghost before = *self;
        assert(before@.storages == old(self)@.storages);
        self.storages[thread].add_entry(entry);
        proof {
            let after = old(self)@.after_register(thread, rcu_id, at);
            assert(self@.threads =~= before@.threads);
            assert(before@.threads =~= after.threads);
            assert(self@.storages =~= after.storages) by {
                assert forall|t: int| 0 <= t < self@.storages.len() implies self@.storages[t]
                    == after.storages[t] by {
                    if t == thread {
                        assert(before@.storages[t] == before.storages@[t]@);
                    } else {
                        assert(self.storages@[t] == before.storages@[t]);
                        assert(before@.storages[t] == before.storages@[t]@);
                    }
                }
            }
            assert forall|t: int, i: int|
                0 <= t < self@.storages.len() && 0 <= i < self@.storages[t].len() implies (
            #[trigger] self@.storages[t][i]).thread_data < self.slots@.len() by {
                if t == thread {
                    if i < old(self)@.storages[t].len() {
                        assert(self@.storages[t][i] == old(self)@.storages[t][i]);
                    }
                } else {
                    assert(self@.storages[t] == old(self)@.storages[t]);
                    assert(old(self)@.storages[t][i] == self@.storages[t][i]);
                }
            }
        }
        at
    }

    /// Replaces the data at `at`.
    fn put(&mut self, at: usize, data: ThreadData)
        requires
            old(self).wf(),
            old(self)@.threads.contains_key(at),
        ensures
            final(self).slots@.len() == old(self).slots@.len(),
            final(self).wf(),
            final(self)@ == (RegistryView {
                threads: old(self)@.threads.insert(at, data),
                ..old(self)@
            }),
    {
        self.slots.set(at, Some(data));
        assert(self@.threads =~= old(self)@.threads.insert(at, data));
        assert(self@.storages == old(self)@.storages);
    }

    /// Gives the address `at` back.
    fn free(&mut self, at: usize)
        requires
            old(self).wf(),
        ensures
            final(self).wf(),
            final(self)@ == (RegistryView {
                threads: old(self)@.threads.remove(at),
                ..old(self)@
            }),
    {
        if at < self.slots.len() {
            self.slots.set(at, None);
        }
        assert(self@.threads =~= old(self)@.threads.remove(at));
        assert(self@.storages == old(self)@.storages);
    }

    /// Announces `counter` to the instance `rcu_id` for `thread`, if it has an entry.
    pub(crate) fn announce(&mut self, thread: usize, rcu_id: usize, counter: usize, reading: bool)
        requires
            old(self).wf(),
        ensures
            final(self).wf(),
            final(self)@ == old(self)@.after_announce(thread, rcu_id, counter, reading),
    {
        if let Some(at) = self.data_of(thread, rcu_id) {
            if let Some(data) = self.thread(at) {
                self.put(at, ThreadData { local_counter: counter, reading, ..data });
            }
        }
    }

    /// Marks the thread data at `at` inactive.
    fn deactivate(&mut self, at: usize)
        requires
            old(self).wf(),
        ensures
            final(self).slots@.len() == old(self).slots@.len(),
            final(self).wf(),
            final(self)@ == (RegistryView {
                threads: with_inactive(old(self)@.threads, at),
                ..old(self)@
            }),
    {
        if let Some(data) = self.thread(at) {
            self.put(at, ThreadData { active: false, ..data });
        }
    }

    /// Takes the registration of `thread` with the instance `rcu_id` back, if it has one.
    pub(crate) fn unregister(&mut self, thread: usize, rcu_id: usize)
        requires
            old(self).wf(),
        ensures
            final(self).wf(),
            final(self)@ == old(self)@.after_unregister(thread, rcu_id),
    {
        if let Some(entry) = self.entry(thread, rcu_id) {
            proof {
                assert(thread < self@.storages.len());
            }
            self.deactivate(entry.thread_data);
            let ghost before = self.storages@;
            remove_thread_local_storage(&mut self.storages[thread], &entry);
            proof {
                let after = old(self)@.after_unregister(thread, rcu_id);
                assert(self@.storages =~= after.storages) by {
                    assert forall|t: int| 0 <= t < self@.storages.len() implies self@.storages[t]
                        == after.storages[t] by {
                        if t != thread {
                            assert(self.storages@[t] == before[t]);
                        }
                    }
                }
                assert(self@.threads =~= after.threads);
                assert forall|t: int, i: int|
                    0 <= t < self@.storages.len() && 0 <= i < self@.storages[t].len() implies (
                #[trigger] self@.storages[t][i]).thread_data < self.slots@.len() by {
                    let was = old(self)@.storages[t];
                    if t == thread {
                        let j = lemma_without_subset(was, entry, i);
                        assert(was[j].thread_data < old(self).slots@.len());
                    } else {
                        assert(was[i] == self@.storages[t][i]);
                    }
                }
            }
        }
    }

    /// Gives back the data of the inactive threads in `list` and returns the others, in order.
    pub(crate) fn clean(&mut self, list: &Vec<usize>) -> (kept: Vec<usize>)
        requires
            old(self).wf(),
        ensures
            final(self).wf(),
            kept@ == list@.filter(active_in(old(self)@.threads)),
            final(self)@ == old(self)@.after_clean(list@),
    {
        let ghost before = self@.threads;
        let mut kept: Vec<usize> = Vec::new();
        let mut i: usize = 0;
        proof {
            reveal(Seq::filter);
            assert(list@.take(0).filter(active_in(before)) =~= kept@);
            assert(cleaned(before, list@.take(0)) =~= before);
        }
        while i < list.len()
            invariant
                self.wf(),
                i <= list@.len(),
                before == old(self)@.threads,
                kept@ == list@.take(i as int).filter(active_in(before)),
                self@ == old(self)@.after_clean(list@.take(i as int)),
            decreases list@.len() - i,
        {
            let at: usize = list[i];
            let keep = match self.thread(at) {
                Some(data) => data.active,
                None => false,
            };
            proof {
                reveal(Seq::filter);
                let more = list@.take(i + 1);
                assert(more.drop_last() =~= list@.take(i as int));
                assert(more.last() == at);
                assert(keep == is_active(before, at));
            }
            if keep {
                kept.push(at);
            } else {
                self.free(at);
            }
            proof {
                let less = list@.take(i as int);
                let more = list@.take(i + 1);
                assert(more =~= less.push(at));
                assert forall|x: usize| #[trigger] more.contains(x) == (less.contains(x) || x
                    == at) by {
                    lemma_contains_push(less, at, x);
                }
                assert(self@.threads =~= cleaned(before, more));
            }
            i = i + 1;
        }
        assert(list@.take(i as int) =~= list@);
        kept
    }

    /// Gives back the data of all threads in `list`, and removes every thread's entries for the
    /// instance `rcu_id`.
    pub(crate) fn release(&mut self, rcu_id: usize, list: &Vec<usize>)
        requires
            old(self).wf(),
        ensures
            final(self).wf(),
            final(self)@ == old(self)@.after_release(rcu_id, list@),
    {
        let mut i: usize = 0;
        proof {
            assert(without_listed(self@.threads, list@.take(0)) =~= self@.threads);
        }
        while i < list.len()
            invariant
                self.wf(),
                i <= list@.len(),
                self@ == (RegistryView {
                    threads: without_listed(old(self)@.threads, list@.take(i as int)),
                    ..old(self)@
                }),
            decreases list@.len() - i,
        {
            let at: usize = list[i];
            self.free(at);
            proof {
                let less = list@.take(i as int);
                let more = list@.take(i + 1);
                assert(more =~= less.push(at));
                assert forall|x: usize| #[trigger] more.contains(x) == (less.contains(x) || x
                    == at) by {
                    lemma_contains_push(less, at, x);
                }
                assert(self@.threads =~= without_listed(old(self)@.threads, more));
            }
            i = i + 1;
        }
        assert(list@.take(i as int) =~= list@);
        let ghost freed = self@;
        let mut t: usize = 0;
        while t < self.storages.len()
            invariant
                self.wf(),
                t <= self.storages@.len(),
                freed == (RegistryView {
                    threads: without_listed(old(self)@.threads, list@),
                    ..old(self)@
                }),
                self@.threads == freed.threads,
                self@.next_rcu_id == freed.next_rcu_id,
                self@.storages.len() == freed.storages.len(),
                forall|u: int|
                    0 <= u < t ==> #[trigger] self@.storages[u] == other_entries(
                        freed.storages[u],
                        rcu_id,
                    ),
                forall|u: int|
                    t <= u < self@.storages.len() ==> #[trigger] self@.storages[u]
                        == freed.storages[u],
            decreases self.storages@.len() - t,
        {
            let ghost before = *self;
            self.storages[t].remove_instance(rcu_id);
            proof {
                assert forall|u: int| 0 <= u < self@.storages.len() && u
                    != t implies #[trigger] self@.storages[u] == before@.storages[u] by {
                    assert(self.storages@[u] == before.storages@[u]);
                }
                assert(before@.storages[t as int] == freed.storages[t as int]);
                assert(before@.storages[t as int] == before.storages@[t as int]@);
                assert(self@.storages[t as int] == other_entries(
                    freed.storages[t as int],
                    rcu_id,
                ));
                assert(self@.threads =~= before@.threads);
                assert forall|u: int, i: int|
                    0 <= u < self@.storages.len() && 0 <= i < self@.storages[u].len() implies (
                #[trigger] self@.storages[u][i]).thread_data < self.slots@.len() by {
                    let was = before@.storages[u];
                    if u == t {
                        let e = self@.storages[u][i];
                        assert(was == freed.storages[u]);
                        assert(self@.storages[u].contains(e));
                        was.lemma_filter_contains_rev(
                            crate::storage::of_other_instances(rcu_id),
                            e,
                        );
                        let j = choose|j: int| 0 <= j < was.len() && was[j] == e;
                        assert(was[j].thread_data < before.slots@.len());
                    } else {
                        assert(was[i] == self@.storages[u][i]);
                    }
                }
            }
            t = t + 1;
        }
        assert(self@.storages =~= old(self)@.after_release(rcu_id, list@).storages);
    }
}

/// Selects the addresses whose thread data is active.
pub open spec fn active_in(threads: Threads) -> spec_fn(usize) -> bool {
    |at: usize| is_active(threads, at)
}

proof fn lemma_contains_push(less: Seq<usize>, at: usize, x: usize)
    ensures
        less.push(at).contains(x) == (less.contains(x) || x == at),
{
    let more = less.push(at);
    if less.contains(x) {
        let k = choose|k: int| 0 <= k < less.len() && less[k] == x;
        assert(more[k] == x);
    }
    if x == at {
        assert(more[less.len() as int] == x);
    }
    if more.contains(x) && x != at {
        let k = choose|k: int| 0 <= k < more.len() && more[k] == x;
        assert(less[k] == x);
    }
}

/// What is left after an entry was removed was there before.
pub proof fn lemma_without_subset(
    entries: Seq<ThreadLocalStorage>,
    entry: ThreadLocalStorage,
    i: int,
) -> (j: int)
    requires
        0 <= i < without(entries, entry).len(),
    ensures
        0 <= j < entries.len(),
        without(entries, entry)[i] == entries[j],
{
    let k = crate::latest::prefix_through(entries, crate::storage::same_entry(entry)) as int;
    crate::latest::lemma_prefix_through(entries, crate::storage::same_entry(entry));
    if k == 0 || i < k - 1 {
        i
    } else {
        i + 1
    }
}

/// The most recent entry of `thread`; `None` where it has none.
pub fn get_current_thread_storage(registry: &Registry, thread: usize) -> (head: Option<
    &ThreadLocalStorage,
>)
    ensures
        head == (if registry@.entries(thread).len() == 0 {
            None
        } else {
            Some(&registry@.entries(thread).last())
        }),
{
    match registry.storage(thread) {
        Some(storage) => storage.newest(),
        None => None,
    }
}

/// Marks `thread` as no longer taking part in any instance it is registered with. The thread
/// keeps its entries.
pub fn drop_thread_data(registry: &mut Registry, thread: usize)
    requires
        old(registry).wf(),
    ensures
        final(registry).wf(),
        final(registry)@ == old(registry)@.after_drop_thread_data(thread),
{
    let ghost entries = registry@.entries(thread);
    let count: usize = match registry.storage(thread) {
        Some(storage) => storage.len(),
        None => 0,
    };
    let mut i: usize = count;
    proof {
        assert(entries.skip(i as int).len() == 0);
        assert(registry@.threads =~= all_inactive(registry@.threads, entries.skip(i as int)));
    }
    while i > 0
        invariant
            registry.wf(),
            i <= count,
            count == entries.len(),
            entries == old(registry)@.entries(thread),
            registry@ == (RegistryView {
                threads: all_inactive(old(registry)@.threads, entries.skip(i as int)),
                ..old(registry)@
            }),
        decreases i,
    {
        i = i - 1;
        assert(registry@.entries(thread) == entries);
        if let Some(storage) = registry.storage(thread) {
            let entry = storage.get(i);
            registry.deactivate(entry.thread_data);
            proof {
                let before = old(registry)@.threads;
                let rest = entries.skip(i + 1);
                let more = entries.skip(i as int);
                assert(more[0] == entry);
                assert forall|at: usize| points_to(more, at) == (points_to(rest, at) || at
                    == entry.thread_data) by {
                    if points_to(rest, at) {
                        let k = choose|k: int|
                            0 <= k < rest.len() && (#[trigger] rest[k]).thread_data == at;
                        assert(more[k + 1].thread_data == at);
                    }
                    if points_to(more, at) {
                        let k = choose|k: int|
                            0 <= k < more.len() && (#[trigger] more[k]).thread_data == at;
                        if k > 0 {
                            assert(rest[k - 1].thread_data == at);
                        }
                    }
                }
                assert(registry@.threads =~= all_inactive(before, more));
            }
        }
    }
    assert(entries.skip(0) =~= entries);
}

} // verus!
