//! The RCU instance: the protected value, its readers and its writers.
use vstd::prelude::*;

use crate::callback::{
    free_callback, head_version, of_version, queued_through, Callback, Ledger, SafeCallbacks,
};
use crate::grace::{
    all_threads_observed, caught_up, ElapsedPeriod, GcStatus, GracePeriod, GracePeriodView,
    SyncStatus,
};
use crate::latest::lemma_prefix_through_is;
use crate::laws::instances::{
    law_callbacks_are_handed_out_once_nobody_can_be_inside, law_uninterrupted_gc_reclaims_all,
    law_uninterrupted_wait_hands_out_all,
};
use crate::laws::threads::law_lookup_finds_the_most_recent;
use crate::lock::SpinLock;
use crate::registry::{active_in, Registry, RegistryView, Threads};
use crate::storage::{lemma_other_entries, lookup};

verus! {

/// A value that readers use while writers replace it.
///
/// The value is never changed in place: a write installs a new version and queues the old one,
/// and a collection reclaims queued versions once the registered threads have caught up.
pub struct Rcu<T> {
    /// The current value; `None` once the instance has been dropped.
    ptr: Option<T>,
    /// The current value's version: how many writes there were, modulo the range of the type.
    version: u64,
    /// Addresses of the registered threads' data, the most recent last.
    thread_list: Vec<usize>,
    /// Replaced values, the most recent last.
    callbacks: Vec<Callback<T>>,
    /// Counts the grace periods begun, from 1.
    global_counter: usize,
    /// Guards `callbacks`.
    callback_list_lock: SpinLock,
    /// Guards `thread_list`.
    thread_list_lock: SpinLock,
    /// Admits one collection at a time to waiting for the readers.
    sync_lock: SpinLock,
    /// Identifier of the instance.
    rcu_id: usize,
    /// Where replaced values are that are not queued.
    ledger: Ghost<Ledger>,
}

/// The state of an [`Rcu`].
pub struct RcuView<T> {
    /// The current value; `None` once the instance has been dropped.
    pub current: Option<T>,
    /// The current value's version.
    pub version: u64,
    /// Addresses of the registered threads' data, the most recent last.
    pub threads: Seq<usize>,
    /// Replaced values that wait for their reclamation, the most recent last.
    pub callbacks: Seq<Callback<T>>,
    /// Counts the grace periods begun, from 1.
    pub counter: usize,
    /// Whether the list of callbacks is locked.
    pub callback_list_locked: bool,
    /// Whether the thread list is locked.
    pub thread_list_locked: bool,
    /// Whether a collection is waiting for the readers.
    pub sync_locked: bool,
    /// Identifier of the instance.
    pub rcu_id: usize,
    /// Where replaced values are that are not queued.
    pub ledger: Ledger,
}

impl<T> RcuView<T> {
    /// Between two steps the list of callbacks is not locked, and the thread list is locked
    /// exactly while a collection waits.
    pub open spec fn wf(self) -> bool {
        &&& !self.callback_list_locked
        &&& self.thread_list_locked == self.sync_locked
    }

    /// What a writer that replaces the current value has to queue.
    pub open spec fn replaced(self) -> Callback<T> {
        Callback {
            version: self.version,
            data: self.current->0,
            retired_at: Ghost(self.counter),
        }
    }

    /// After a writer replaced the current value by `data`.
    pub open spec fn after_replace(self, data: T) -> Self {
        RcuView {
            current: Some(data),
            version: self.version.wrapping_add(1),
            ledger: self.ledger.after_replace(self.version, self.counter),
            ..self
        }
    }

    /// After `callback` was queued.
    pub open spec fn after_queue(self, callback: Callback<T>) -> Self {
        RcuView {
            callbacks: self.callbacks.push(callback),
            ledger: self.ledger.after_queue(callback.version),
            ..self
        }
    }

    /// After a write that installed `data`: the old value is replaced and queued.
    pub open spec fn after_write(self, data: T) -> Self {
        self.after_replace(data).after_queue(self.replaced())
    }

    /// After the thread data at `at` was listed.
    pub open spec fn after_register(self, at: usize) -> Self {
        RcuView { threads: self.threads.push(at), ..self }
    }

    /// What a collection that starts now remembers; `caller` is where the data of the
    /// collecting thread stands.
    pub open spec fn snapshot(self, caller: Option<usize>) -> GracePeriodView {
        GracePeriodView {
            rcu_id: self.rcu_id,
            old_counter: self.counter,
            old_head: head_version(self.callbacks),
            caller,
        }
    }

    /// After a collection started to wait for the readers.
    pub open spec fn after_begin(self) -> Self {
        RcuView {
            counter: self.counter.wrapping_add(1),
            thread_list_locked: true,
            sync_locked: true,
            ..self
        }
    }

    /// After a collection stopped waiting for the readers.
    pub open spec fn after_release(self) -> Self {
        RcuView { thread_list_locked: false, sync_locked: false, ..self }
    }

    /// The callbacks queued up to the one that holds the version `old_head`.
    pub open spec fn safe_callbacks(self, old_head: Option<u64>) -> Seq<Callback<T>> {
        self.callbacks.take(queued_through(self.callbacks, old_head) as int)
    }

    /// After the callbacks queued up to the one that holds `old_head` were taken.
    pub open spec fn after_take(self, old_head: Option<u64>) -> Self {
        RcuView {
            callbacks: self.callbacks.skip(queued_through(self.callbacks, old_head) as int),
            ledger: self.ledger.after_take(self.safe_callbacks(old_head)),
            ..self
        }
    }

    /// After the values of `callbacks` were reclaimed.
    pub open spec fn after_process(self, callbacks: Seq<Callback<T>>) -> Self {
        RcuView { ledger: self.ledger.after_process(callbacks), ..self }
    }

    /// After the threads that are inactive in `threads` were taken off the list.
    pub open spec fn after_clean(self, threads: Threads) -> Self {
        RcuView { threads: self.threads.filter(active_in(threads)), ..self }
    }

    /// After a collection that started with `old_head` ran to its end.
    pub open spec fn after_collection(self, old_head: Option<u64>, threads: Threads) -> Self {
        self.after_release().after_take(old_head).after_process(
            self.safe_callbacks(old_head),
        ).after_clean(threads)
    }

    /// After the instance was dropped.
    pub open spec fn after_drop(self) -> Self {
        RcuView {
            current: None,
            threads: Seq::empty(),
            ledger: if self.current is Some {
                self.ledger.after_free(self.version)
            } else {
                self.ledger
            },
            ..self
        }
    }
}

impl<T> View for Rcu<T> {
    type V = RcuView<T>;

    closed spec fn view(&self) -> RcuView<T> {
        RcuView {
            current: self.ptr,
            version: self.version,
            threads: self.thread_list@,
            callbacks: self.callbacks@,
            counter: self.global_counter,
            callback_list_locked: self.callback_list_lock.locked(),
            thread_list_locked: self.thread_list_lock.locked(),
            sync_locked: self.sync_lock.locked(),
            rcu_id: self.rcu_id,
            ledger: self.ledger@,
        }
    }
}

impl<T> Rcu<T> {
    /// The invariant of an instance.
    pub open spec fn wf(&self) -> bool {
        self@.wf()
    }

    /// Creates an instance that protects `data`, and registers the creating thread with it.
    pub fn new(data: T, registry: &mut Registry, thread: usize) -> (rcu: Self)
        requires
            old(registry).wf(),
            thread < old(registry)@.storages.len(),
        ensures
            rcu.wf(),
            final(registry).wf(),
            ({
                let bare = new_instance(data, old(registry)@.next_rcu_id);
                let counted = RegistryView {
                    next_rcu_id: old(registry)@.next_rcu_id.wrapping_add(1),
                    ..old(registry)@
                };
                registered(counted, thread, bare, final(registry)@, rcu@, true)
            }),
    {
        let rcu_id: usize = registry.assign_rcu_id();
        let mut rcu = Rcu {
            ptr: Some(data),
            version: 0,
            thread_list: Vec::new(),
            callbacks: Vec::new(),
            global_counter: 1,
            callback_list_lock: SpinLock::new(),
            thread_list_lock: SpinLock::new(),
            sync_lock: SpinLock::new(),
            rcu_id,
            ledger: Ghost(Ledger::empty()),
        };
        rcu.register_thread(registry, thread);
        rcu
    }

    /// Identifier of the instance.
    pub fn rcu_id(&self) -> (id: usize)
        ensures
            id == self@.rcu_id,
    {
        self.rcu_id
    }

    /// Version of the current value.
    pub fn version(&self) -> (version: u64)
        ensures
            version == self@.version,
    {
        self.version
    }

    /// Whether a collection is waiting for the readers.
    pub fn is_waiting(&self) -> (waiting: bool)
        ensures
            waiting == self@.sync_locked,
    {
        self.sync_lock.is_locked()
    }

    /// Runs `f` on the current value, in a read-side critical section of `thread`. Gives `Err`
    /// where there is no value, that is once the instance was dropped.
    ///
    /// A read never waits, and changes nothing but the thread's own announcement.
    pub fn read<F, R>(&self, registry: &mut Registry, thread: usize, f: F) -> (result: Result<
        R,
        (),
    >) where F: FnOnce(&T) -> R
        requires
            old(registry).wf(),
            self@.current matches Some(value) ==> f.requires((&value,)),
        ensures
            final(registry).wf(),
            final(registry)@ == old(registry)@.after_announce(
                thread,
                self@.rcu_id,
                self@.counter,
                true,
            ),
            forall|at: usize| #[trigger]
                old(registry)@.threads.contains_key(at) ==> final(registry)@.threads.contains_key(
                    at,
                ) && final(registry)@.threads[at].active == old(registry)@.threads[at].active,
            match self@.current {
                Some(value) => result is Ok && f.ensures((&value,), result->Ok_0),
                None => result is Err,
            },
    {
        self.rcu_read_lock(registry, thread);
        match self.rcu_dereference() {
            None => {
                self.rcu_read_unlock(registry);
                Err(())
            },
            Some(value) => {
                let result = f(value);
                self.rcu_read_unlock(registry);
                Ok(result)
            },
        }
    }

    /// Begins a read-side critical section: the thread announces the counter it starts at.
    pub fn rcu_read_lock(&self, registry: &mut Registry, thread: usize)
        requires
            old(registry).wf(),
        ensures
            final(registry).wf(),
            final(registry)@ == old(registry)@.after_announce(
                thread,
                self@.rcu_id,
                self@.counter,
                true,
            ),
            forall|at: usize| #[trigger]
                old(registry)@.threads.contains_key(at) ==> final(registry)@.threads.contains_key(
                    at,
                ) && final(registry)@.threads[at].active == old(registry)@.threads[at].active,
    {
        registry.announce(thread, self.rcu_id, self.global_counter, true);
    }

    /// Ends a read-side critical section. There is nothing to do: the section counts as left
    /// with the thread's next announcement.
    pub fn rcu_read_unlock(&self, registry: &mut Registry)
        ensures
            *final(registry) == *old(registry),
    {
    }

    /// The current value; `None` once the instance was dropped.
    pub fn rcu_dereference(&self) -> (value: Option<&T>)
        ensures
            match self@.current {
                Some(current) => value == Some(&current),
                None => value is None,
            },
    {
        match &self.ptr {
            Some(value) => Some(value),
            None => None,
        }
    }

    /// Replaces the current value by what `f` makes of it, and queues the old one for
    /// reclamation. Gives `Err`, and changes nothing, where there is no value.
    pub fn write<F>(&mut self, f: F) -> (result: Result<(), ()>) where F: Fn(&T) -> T
        requires
            old(self).wf(),
            old(self)@.current matches Some(value) ==> f.requires((&value,)),
        ensures
            final(self).wf(),
            match old(self)@.current {
                Some(value) => {
                    &&& result is Ok
                    &&& final(self)@.current is Some
                    &&& f.ensures((&value,), final(self)@.current->0)
                    &&& final(self)@ == old(self)@.after_write(final(self)@.current->0)
                },
                None => result is Err && final(self)@ == old(self)@,
            },
    {
        let version: u64 = self.version;
        let data = match self.rcu_dereference() {
            Some(value) => f(value),
            None => {
                return Err(());
            },
        };
        match self.compare_exchange(version, data) {
            Ok(callback) => {
                self.add_callback(callback);
                Ok(())
            },
            Err(_) => Err(()),
        }
    }

    /// Installs `data`, made from the value of version `expected`. The value it replaced comes
    /// back, for the writer to queue with [`Rcu::add_callback`]. Where `expected` is no longer
    /// the current version, `data` comes back and nothing is changed: the writer starts over
    /// from the current value.
    pub fn compare_exchange(&mut self, expected: u64, data: T) -> (result: Result<Callback<T>, T>)
        requires
            old(self).wf(),
        ensures
            final(self).wf(),
            if old(self)@.current is Some && old(self)@.version == expected {
                &&& result == Ok::<Callback<T>, T>(old(self)@.replaced())
                &&& final(self)@ == old(self)@.after_replace(data)
            } else {
                &&& result == Err::<Callback<T>, T>(data)
                &&& final(self)@ == old(self)@
            },
    {
        if self.version != expected {
            return Err(data);
        }
        match self.ptr.take() {
            None => Err(data),
            Some(old_data) => {
                self.ptr = Some(data);
                self.version = expected.wrapping_add(1);
                self.ledger = Ghost(self.ledger@.after_replace(expected, self.global_counter));
                Ok(
                    Callback {
                        version: expected,
                        data: old_data,
                        retired_at: Ghost(self.global_counter),
                    },
                )
            },
        }
    }

    /// Queues a replaced value for reclamation.
    pub fn add_callback(&mut self, callback: Callback<T>)
        requires
            old(self).wf(),
        ensures
            final(self).wf(),
            final(self)@ == old(self)@.after_queue(callback),
    {
        let locked = self.lock_callback_list();
        assert(locked);
        self.ledger = Ghost(self.ledger@.after_queue(callback.version));
        self.callbacks.push(callback);
        self.unlock_callback_list();
    }

    fn lock_callback_list(&mut self) -> (acquired: bool)
        ensures
            acquired == !old(self)@.callback_list_locked,
            final(self)@ == (RcuView { callback_list_locked: true, ..old(self)@ }),
    {
        self.callback_list_lock.try_lock()
    }

    fn unlock_callback_list(&mut self)
        ensures
            final(self)@ == (RcuView { callback_list_locked: false, ..old(self)@ }),
    {
        self.callback_list_lock.unlock()
    }

    fn lock_thread_list(&mut self) -> (acquired: bool)
        ensures
            acquired == !old(self)@.thread_list_locked,
            final(self)@ == (RcuView { thread_list_locked: true, ..old(self)@ }),
    {
        self.thread_list_lock.try_lock()
    }

    fn unlock_thread_list(&mut self)
        ensures
            final(self)@ == (RcuView { thread_list_locked: false, ..old(self)@ }),
    {
        self.thread_list_lock.unlock()
    }

    fn lock_sync(&mut self) -> (acquired: bool)
        ensures
            acquired == !old(self)@.sync_locked,
            final(self)@ == (RcuView { sync_locked: true, ..old(self)@ }),
    {
        self.sync_lock.try_lock()
    }

    fn unlock_sync(&mut self)
        ensures
            final(self)@ == (RcuView { sync_locked: false, ..old(self)@ }),
    {
        self.sync_lock.unlock()
    }

    /// Registers `thread`. A thread that has an entry for the instance is not registered again.
    ///
    /// Gives `false`, and changes nothing, while a collection keeps the thread list locked: the
    /// caller yields and tries again.
    pub fn register_thread(&mut self, registry: &mut Registry, thread: usize) -> (done: bool)
        requires
            old(self).wf(),
            old(registry).wf(),
            thread < old(registry)@.storages.len(),
        ensures
            final(self).wf(),
            final(registry).wf(),
            registered(old(registry)@, thread, old(self)@, final(registry)@, final(self)@, done),
            done ==> exists|i: int|
                0 <= i < final(registry)@.storages[thread as int].len() && (
                #[trigger] final(registry)@.storages[thread as int][i]).rcu_id
                    == old(self)@.rcu_id,
            !done ==> old(self)@.thread_list_locked,
    {
        let ghost entries = registry@.storages[thread as int];
        proof {
            law_lookup_finds_the_most_recent(entries, self@.rcu_id);
        }
        if registry.entry(thread, self.rcu_id).is_some() {
            return true;
        }
        if !self.lock_thread_list() {
            return false;
        }
        let at: usize = registry.register(thread, self.rcu_id);
        self.thread_list.push(at);
        self.unlock_thread_list();
        proof {
            assert(registry@.entries(thread).last().thread_data == at);
            assert(registry@.storages[thread as int][entries.len() as int].rcu_id == self@.rcu_id);
        }
        true
    }

    /// Takes the registration of `thread` back. The thread's data stays until the next
    /// collection cleans it up. A thread without an entry is left as it is.
    pub fn unregister_thread(&self, registry: &mut Registry, thread: usize)
        requires
            old(registry).wf(),
        ensures
            final(registry).wf(),
            final(registry)@ == old(registry)@.after_unregister(thread, self@.rcu_id),
    {
        registry.unregister(thread, self.rcu_id);
    }

    /// Announces that `thread` is outside of any read-side critical section it was in before.
    pub fn rcu_quiescent_state(&self, registry: &mut Registry, thread: usize)
        requires
            old(registry).wf(),
        ensures
            final(registry).wf(),
            final(registry)@ == old(registry)@.after_announce(
                thread,
                self@.rcu_id,
                self@.counter,
                false,
            ),
            forall|at: usize| #[trigger]
                old(registry)@.threads.contains_key(at) ==> final(registry)@.threads.contains_key(
                    at,
                ) && final(registry)@.threads[at].active == old(registry)@.threads[at].active,
    {
        registry.announce(thread, self.rcu_id, self.global_counter, false);
    }

    /// Begins a grace period: locks the thread list, announces the calling thread as quiescent,
    /// advances the counter, and remembers which callbacks are queued. Gives `None`, and changes
    /// nothing, while another collection is waiting for the readers.
    pub fn begin_grace_period(&mut self, registry: &mut Registry, thread: usize) -> (gp: Option<
        GracePeriod,
    >)
        requires
            old(self).wf(),
            old(registry).wf(),
        ensures
            final(self).wf(),
            final(registry).wf(),
            if old(self)@.sync_locked {
                &&& gp is None
                &&& final(self)@ == old(self)@
                &&& final(registry)@ == old(registry)@
            } else {
                &&& gp is Some
                &&& gp->0@ == old(self)@.snapshot(
                    old(registry)@.data_of(thread, old(self)@.rcu_id),
                )
                &&& final(self)@ == old(self)@.after_begin()
                &&& final(registry)@ == old(registry)@.after_announce(
                    thread,
                    old(self)@.rcu_id,
                    old(self)@.counter,
                    false,
                )
            },
    {
        if !self.lock_sync() {
            return None;
        }
        let locked = self.lock_thread_list();
        assert(locked);
        let caller = registry.data_of(thread, self.rcu_id);
        self.rcu_quiescent_state(registry, thread);
        let old_counter: usize = self.global_counter;
        self.global_counter = old_counter.wrapping_add(1);
        Some(GracePeriod::new(self.rcu_id, old_counter, self.newest_callback(), caller))
    }

    /// The version that the most recent callback holds.
    fn newest_callback(&self) -> (head: Option<u64>)
        ensures
            head == head_version(self@.callbacks),
    {
        if self.callbacks.len() == 0 {
            None
        } else {
            Some(self.callbacks[self.callbacks.len() - 1].version)
        }
    }

    /// One look at the readers. Once no active thread lags behind the counter from before the
    /// period, but perhaps the collecting one, no section that was open when it began is open
    /// still, and the period is over: the thread list is unlocked, and the callbacks that the
    /// period remembers can be taken. Otherwise the period comes back and nothing is changed: the
    /// caller yields and tries again.
    pub fn poll_grace_period(&mut self, registry: &Registry, gp: GracePeriod) -> (result: Result<
        ElapsedPeriod,
        GracePeriod,
    >)
        requires
            old(self).wf(),
            old(self)@.sync_locked,
            gp@.rcu_id == old(self)@.rcu_id,
        ensures
            final(self).wf(),
            if caught_up(registry@.threads, old(self)@.threads, gp@.old_counter, gp@.caller) {
                &&& result is Ok
                &&& result->Ok_0@ == gp@
                &&& final(self)@ == old(self)@.after_release()
            } else {
                &&& result == Err::<ElapsedPeriod, GracePeriod>(gp)
                &&& final(self)@ == old(self)@
            },
    {
        if all_threads_observed(registry, &self.thread_list, gp.old_counter(), gp.caller()) {
            self.unlock_thread_list();
            self.unlock_sync();
            Ok(gp.elapse())
        } else {
            Err(gp)
        }
    }

    /// Takes the callbacks that were queued when the period, which is over, began. Later ones
    /// stay. Where another collection has taken the most recent of them, nothing is left to take.
    pub fn take_safe_callbacks(&mut self, elapsed: ElapsedPeriod) -> (safe: SafeCallbacks<T>)
        requires
            old(self).wf(),
            elapsed@.rcu_id == old(self)@.rcu_id,
        ensures
            final(self).wf(),
            safe.of_rcu() == old(self)@.rcu_id,
            safe@ == old(self)@.safe_callbacks(elapsed@.old_head),
            final(self)@ == old(self)@.after_take(elapsed@.old_head),
    {
        let old_head = elapsed.old_head();
        let locked = self.lock_callback_list();
        assert(locked);
        let mut safe: Vec<Callback<T>> = Vec::new();
        if let Some(version) = old_head {
            let mut i: usize = self.callbacks.len();
            while i > 0 && self.callbacks[i - 1].version != version
                invariant
                    i <= self.callbacks@.len(),
                    forall|j: int|
                        i <= j < self.callbacks@.len() ==> !of_version(version)(
                            #[trigger] self.callbacks@[j],
                        ),
                decreases i,
            {
                i = i - 1;
            }
            proof {
                lemma_prefix_through_is(self.callbacks@, of_version(version), i as nat);
            }
            safe = self.callbacks.split_off(i);
            std::mem::swap(&mut safe, &mut self.callbacks);
        }
        self.ledger = Ghost(self.ledger@.after_take(safe@));
        self.unlock_callback_list();
        proof {
            assert(safe@ =~= old(self)@.safe_callbacks(old_head));
            assert(self@.callbacks =~= old(self)@.after_take(old_head).callbacks);
        }
        SafeCallbacks::new(self.rcu_id, safe)
    }

    /// Waits until the registered threads have caught up, and takes the callbacks that were
    /// queued before.
    pub fn synchronize_rcu(&mut self, registry: &mut Registry, thread: usize) -> (status:
        SyncStatus<T>)
        requires
            old(self).wf(),
            old(registry).wf(),
        ensures
            final(self).wf(),
            final(registry).wf(),
            if old(self)@.sync_locked {
                &&& status is Busy
                &&& final(self)@ == old(self)@
                &&& final(registry)@ == old(registry)@
            } else {
                &&& final(registry)@ == old(registry)@.after_announce(
                    thread,
                    old(self)@.rcu_id,
                    old(self)@.counter,
                    false,
                )
                &&& synchronized(
                    old(self)@.after_begin(),
                    old(self)@.snapshot(old(registry)@.data_of(thread, old(self)@.rcu_id)),
                    final(registry)@.threads,
                    final(self)@,
                    status,
                )
            },
            status is Safe ==> {
                &&& status->Safe_0@ == old(self)@.callbacks
                &&& final(self)@.callbacks.len() == 0
                &&& forall|i: int|
                    0 <= i < old(self)@.threads.len() && final(registry)@.threads.contains_key(
                        #[trigger] old(self)@.threads[i],
                    ) && final(registry)@.threads[old(self)@.threads[i]].active && old(
                        registry,
                    )@.data_of(thread, old(self)@.rcu_id) != Some(old(self)@.threads[i])
                        ==> final(registry)@.threads[old(self)@.threads[i]].local_counter >= old(
                        self,
                    )@.counter
            },
    {
        match self.begin_grace_period(registry, thread) {
            None => SyncStatus::Busy,
            Some(gp) => {
                let ghost begun = gp@;
                let status = self.resume_synchronize(registry, gp);
                proof {
                    law_callbacks_are_handed_out_once_nobody_can_be_inside(
                        old(self)@.after_begin(),
                        begun,
                        registry@.threads,
                        self@,
                        status,
                    );
                    if status is Safe {
                        law_uninterrupted_wait_hands_out_all(
                            old(self)@,
                            begun.caller,
                            registry@.threads,
                            self@,
                            status,
                        );
                    }
                }
                status
            },
        }
    }

    /// Goes on waiting in a grace period that was begun before.
    pub fn resume_synchronize(&mut self, registry: &Registry, gp: GracePeriod) -> (status:
        SyncStatus<T>)
        requires
            old(self).wf(),
            old(self)@.sync_locked,
            gp@.rcu_id == old(self)@.rcu_id,
        ensures
            final(self).wf(),
            synchronized(old(self)@, gp@, registry@.threads, final(self)@, status),
    {
        match self.poll_grace_period(registry, gp) {
            Ok(elapsed) => SyncStatus::Safe(self.take_safe_callbacks(elapsed)),
            Err(gp) => SyncStatus::Waiting(gp),
        }
    }

    /// Reclaims the values that `callbacks` hold, the most recent first.
    pub fn process_callbacks(&mut self, callbacks: SafeCallbacks<T>)
        requires
            old(self).wf(),
            callbacks.of_rcu() == old(self)@.rcu_id,
        ensures
            final(self).wf(),
            final(self)@ == old(self)@.after_process(callbacks@),
    {
        let mut callbacks = callbacks.into_callbacks();
        let ghost all = callbacks@;
        proof {
            self.ledger@.lemma_after_process_empty(all.skip(all.len() as int));
        }
        while callbacks.len() > 0
            invariant
                callbacks@.len() <= all.len(),
                callbacks@ == all.take(callbacks@.len() as int),
                self@ == old(self)@.after_process(all.skip(callbacks@.len() as int)),
            decreases callbacks@.len(),
        {
            let ghost left = callbacks@.len();
            if let Some(callback) = callbacks.pop() {
                proof {
                    let freed = all.skip(left as int);
                    assert(callback == all[left - 1]);
                    assert(all.skip(left - 1) =~= seq![callback] + freed);
                    old(self)@.ledger.lemma_after_process_step(callback, freed);
                }
                free_callback(callback, &mut self.ledger);
            }
        }
        assert(all.skip(0) =~= all);
    }

    /// Takes inactive threads off the thread list and gives their data back. Gives `false`, and
    /// changes nothing, while a collection keeps the thread list locked.
    pub fn clean_thread_list(&mut self, registry: &mut Registry) -> (cleaned_up: bool)
        requires
            old(self).wf(),
            old(registry).wf(),
        ensures
            final(self).wf(),
            final(registry).wf(),
            cleaned_up == !old(self)@.thread_list_locked,
            if cleaned_up {
                &&& final(self)@ == old(self)@.after_clean(old(registry)@.threads)
                &&& final(registry)@ == old(registry)@.after_clean(old(self)@.threads)
            } else {
                &&& final(self)@ == old(self)@
                &&& final(registry)@ == old(registry)@
            },
    {
        if !self.lock_thread_list() {
            return false;
        }
        self.thread_list = registry.clean(&self.thread_list);
        self.unlock_thread_list();
        true
    }

    /// Collects garbage: waits until the registered threads have caught up, reclaims what was
    /// queued before, and cleans up after threads that have left.
    pub fn gc(&mut self, registry: &mut Registry, thread: usize) -> (status: GcStatus)
        requires
            old(self).wf(),
            old(registry).wf(),
        ensures
            final(self).wf(),
            final(registry).wf(),
            if old(self)@.sync_locked {
                &&& status is Busy
                &&& final(self)@ == old(self)@
                &&& final(registry)@ == old(registry)@
            } else {
                collected(
                    old(self)@.after_begin(),
                    old(self)@.snapshot(old(registry)@.data_of(thread, old(self)@.rcu_id)),
                    old(registry)@.after_announce(
                        thread,
                        old(self)@.rcu_id,
                        old(self)@.counter,
                        false,
                    ),
                    final(self)@,
                    final(registry)@,
                    status,
                )
            },
            status is Done ==> {
                &&& final(self)@.callbacks.len() == 0
                &&& final(self)@.ledger.reclaimed.len() == old(self)@.ledger.reclaimed.len() + old(
                    self,
                )@.callbacks.len()
                &&& final(self)@.current == old(self)@.current
            },
    {
        match self.begin_grace_period(registry, thread) {
            None => GcStatus::Busy,
            Some(gp) => {
                let status = self.resume_gc(registry, gp);
                proof {
                    law_uninterrupted_gc_reclaims_all(
                        old(self)@,
                        old(registry)@,
                        thread,
                        self@,
                        registry@,
                        status,
                    );
                }
                status
            },
        }
    }

    /// Goes on with a collection that had to wait.
    pub fn resume_gc(&mut self, registry: &mut Registry, gp: GracePeriod) -> (status: GcStatus)
        requires
            old(self).wf(),
            old(registry).wf(),
            old(self)@.sync_locked,
            gp@.rcu_id == old(self)@.rcu_id,
        ensures
            final(self).wf(),
            final(registry).wf(),
            collected(
                old(self)@,
                gp@,
                old(registry)@,
                final(self)@,
                final(registry)@,
                status,
            ),
    {
        match self.resume_synchronize(registry, gp) {
            SyncStatus::Safe(callbacks) => {
                self.process_callbacks(callbacks);
                let cleaned_up = self.clean_thread_list(registry);
                assert(cleaned_up);
                GcStatus::Done
            },
            SyncStatus::Waiting(gp) => GcStatus::Waiting(gp),
            SyncStatus::Busy => GcStatus::Busy,
        }
    }

    /// Drops the instance: collects garbage, then reclaims the current value, gives back the data
    /// of the registered threads, and removes every thread's entry for the instance. Reads and
    /// writes fail from then on.
    ///
    /// Where the collection has to wait, nothing is dropped yet: the caller goes on with
    /// [`Rcu::resume_drop`].
    pub fn drop(&mut self, registry: &mut Registry, thread: usize) -> (status: GcStatus)
        requires
            old(self).wf(),
            old(registry).wf(),
        ensures
            final(self).wf(),
            final(registry).wf(),
            if old(self)@.sync_locked {
                &&& status is Busy
                &&& final(self)@ == old(self)@
                &&& final(registry)@ == old(registry)@
            } else {
                dropped(
                    old(self)@.after_begin(),
                    old(self)@.snapshot(old(registry)@.data_of(thread, old(self)@.rcu_id)),
                    old(registry)@.after_announce(
                        thread,
                        old(self)@.rcu_id,
                        old(self)@.counter,
                        false,
                    ),
                    final(self)@,
                    final(registry)@,
                    status,
                )
            },
            status is Done ==> forall|t: usize|
                lookup(#[trigger] final(registry)@.entries(t), old(self)@.rcu_id) is None,
    {
        match self.begin_grace_period(registry, thread) {
            None => GcStatus::Busy,
            Some(gp) => self.resume_drop(registry, gp),
        }
    }

    /// Goes on with a [`Rcu::drop`] that had to wait.
    pub fn resume_drop(&mut self, registry: &mut Registry, gp: GracePeriod) -> (status: GcStatus)
        requires
            old(self).wf(),
            old(registry).wf(),
            old(self)@.sync_locked,
            gp@.rcu_id == old(self)@.rcu_id,
        ensures
            final(self).wf(),
            final(registry).wf(),
            dropped(old(self)@, gp@, old(registry)@, final(self)@, final(registry)@, status),
            status is Done ==> forall|t: usize|
                lookup(#[trigger] final(registry)@.entries(t), old(self)@.rcu_id) is None,
    {
        match self.resume_gc(registry, gp) {
            GcStatus::Done => {
                self.release(registry);
                GcStatus::Done
            },
            other => other,
        }
    }

    /// Reclaims the current value, gives back the data of all listed threads, and removes every
    /// thread's entry for the instance.
    fn release(&mut self, registry: &mut Registry)
        requires
            old(self).wf(),
            old(registry).wf(),
        ensures
            final(self).wf(),
            final(registry).wf(),
            final(self)@ == old(self)@.after_drop(),
            final(registry)@ == old(registry)@.after_release(
                old(self)@.rcu_id,
                old(self)@.threads,
            ),
            forall|t: usize|
                lookup(#[trigger] final(registry)@.entries(t), old(self)@.rcu_id) is None,
    {
        if let Some(data) = self.ptr.take() {
            let callback = Callback {
                version: self.version,
                data,
                retired_at: Ghost(self.global_counter),
            };
            free_callback(callback, &mut self.ledger);
        }
        registry.release(self.rcu_id, &self.thread_list);
        self.thread_list = Vec::new();
        proof {
            assert forall|t: usize| lookup(
                #[trigger] registry@.entries(t),
                old(self)@.rcu_id,
            ) is None by {
                if t < registry@.storages.len() {
                    lemma_other_entries(old(registry)@.storages[t as int], old(self)@.rcu_id);
                }
            }
        }
    }
}

/// A new instance with the identifier `rcu_id` that protects `data`, before any thread has
/// registered with it.
pub open spec fn new_instance<T>(data: T, rcu_id: usize) -> RcuView<T> {
    RcuView {
        current: Some(data),
        version: 0,
        threads: Seq::empty(),
        callbacks: Seq::empty(),
        counter: 1,
        callback_list_locked: false,
        thread_list_locked: false,
        sync_locked: false,
        rcu_id,
        ledger: Ledger::empty(),
    }
}

/// How registering `thread` ends: a thread that has an entry is left as it is; another one gets
/// one new entry and one new thread data, which are tied to each other and which nothing else
/// names, unless the thread list is locked.
pub open spec fn registered<T>(
    before: RegistryView,
    thread: usize,
    rcu: RcuView<T>,
    after: RegistryView,
    rcu_after: RcuView<T>,
    done: bool,
) -> bool {
    if lookup(before.entries(thread), rcu.rcu_id) is None && !rcu.thread_list_locked {
        let at = after.entries(thread).last().thread_data;
        &&& done
        &&& !before.threads.contains_key(at)
        &&& !before.is_named(at)
        &&& after == before.after_register(thread, rcu.rcu_id, at)
        &&& rcu_after == rcu.after_register(at)
    } else {
        &&& done == (lookup(before.entries(thread), rcu.rcu_id) is Some)
        &&& after == before
        &&& rcu_after == rcu
    }
}

/// How a step in the grace period `gp`, from `before` to `after`, ends: once the threads have
/// caught up it is over and the callbacks queued before are handed out, otherwise nothing is
/// changed.
pub open spec fn synchronized<T>(
    before: RcuView<T>,
    gp: GracePeriodView,
    threads: Threads,
    after: RcuView<T>,
    status: SyncStatus<T>,
) -> bool {
    if caught_up(threads, before.threads, gp.old_counter, gp.caller) {
        &&& status is Safe
        &&& status->Safe_0.of_rcu() == before.rcu_id
        &&& status->Safe_0@ == before.safe_callbacks(gp.old_head)
        &&& after == before.after_release().after_take(gp.old_head)
    } else {
        &&& status is Waiting
        &&& status->Waiting_0@ == gp
        &&& after == before
    }
}

/// How a step of a collection in the grace period `gp` ends: once the threads have caught up
/// the collection is complete, otherwise nothing is changed.
pub open spec fn collected<T>(
    before: RcuView<T>,
    gp: GracePeriodView,
    registry: RegistryView,
    after: RcuView<T>,
    registry_after: RegistryView,
    status: GcStatus,
) -> bool {
    if caught_up(registry.threads, before.threads, gp.old_counter, gp.caller) {
        &&& status is Done
        &&& after == before.after_collection(gp.old_head, registry.threads)
        &&& registry_after == registry.after_clean(before.threads)
    } else {
        &&& status is Waiting
        &&& status->Waiting_0@ == gp
        &&& after == before
        &&& registry_after == registry
    }
}

/// How a step of dropping an instance in the grace period `gp` ends: once the threads have caught
/// up the collection is completed and the instance is gone, otherwise nothing is changed.
pub open spec fn dropped<T>(
    before: RcuView<T>,
    gp: GracePeriodView,
    registry: RegistryView,
    after: RcuView<T>,
    registry_after: RegistryView,
    status: GcStatus,
) -> bool {
    if caught_up(registry.threads, before.threads, gp.old_counter, gp.caller) {
        let rest = before.after_collection(gp.old_head, registry.threads);
        &&& status is Done
        &&& after == rest.after_drop()
        &&& registry_after == registry.after_clean(before.threads).after_release(
            before.rcu_id,
            rest.threads,
        )
    } else {
        &&& status is Waiting
        &&& status->Waiting_0@ == gp
        &&& after == before
        &&& registry_after == registry
    }
}

} // verus!
