//! Reader tracking for a whole process, without instances: one counter, one list of threads.
use vstd::prelude::*;

use crate::callback::SafeCallbacks;
use crate::grace::{caught_up, GracePeriod, GracePeriodView, SyncStatus};
use crate::laws::domains::law_uninterrupted_call_reclaims_all;
use crate::rcu::{Rcu, RcuView};
use crate::registry::{Registry, Threads};

verus! {

/// The state of one thread.
#[derive(Clone, Copy, Debug)]
pub struct ThreadData {
    /// Whether the thread takes part.
    pub registered: bool,
    /// The domain's counter, as the thread saw it when it last entered a critical section.
    pub local_counter: usize,
}

impl ThreadData {
    /// Creates the data of a thread that does not take part yet.
    pub fn new() -> (data: Self)
        ensures
            !data.registered,
            data.local_counter == 0,
    {
        ThreadData { registered: false, local_counter: 0 }
    }
}

/// The threads of a process and the counter they are measured by.
pub struct Domain {
    global_counter: usize,
    threads: Vec<ThreadData>,
}

/// The state of a [`Domain`].
pub struct DomainView {
    /// Counts the grace periods begun, from 1.
    pub counter: usize,
    /// The threads, the most recently registered last. None ever leaves.
    pub threads: Seq<ThreadData>,
}

impl DomainView {
    /// Every registered thread, but for the one listed at `caller`, has entered a critical section
    /// past `old_counter`, and so has left any section it was in when the counter was there.
    pub open spec fn caught_up(self, old_counter: usize, caller: Option<usize>) -> bool {
        forall|i: int|
            0 <= i < self.threads.len() && (#[trigger] self.threads[i]).registered && caller
                != Some(i as usize) ==> self.threads[i].local_counter > old_counter
    }

    /// After a thread was listed; it has not entered a critical section yet.
    pub open spec fn after_register(self) -> Self {
        DomainView {
            threads: self.threads.push(ThreadData { registered: true, local_counter: 0 }),
            ..self
        }
    }

    /// After the thread that stands at `at` entered a critical section; `None` stands for a
    /// thread that is not listed.
    pub open spec fn after_read_lock(self, at: Option<usize>) -> Self {
        match at {
            Some(at) => DomainView {
                threads: self.threads.update(
                    at as int,
                    ThreadData { local_counter: self.counter, ..self.threads[at as int] },
                ),
                ..self
            },
            None => DomainView {
                threads: self.threads.push(
                    ThreadData { registered: true, local_counter: self.counter },
                ),
                ..self
            },
        }
    }

    /// After a grace period was begun.
    pub open spec fn after_begin(self) -> Self {
        DomainView { counter: self.counter.wrapping_add(1), ..self }
    }
}

impl View for Domain {
    type V = DomainView;

    closed spec fn view(&self) -> DomainView {
        DomainView { counter: self.global_counter, threads: self.threads@ }
    }
}

impl Domain {
    /// A domain without threads.
    pub fn new() -> (domain: Self)
        ensures
            domain@ == (DomainView { counter: 1, threads: Seq::empty() }),
    {
        Domain { global_counter: 1, threads: Vec::new() }
    }

    /// The counter, which is one more than the number of grace periods begun.
    pub fn counter(&self) -> (counter: usize)
        ensures
            counter == self@.counter,
    {
        self.global_counter
    }

    /// One pass over the threads: whether every registered one has caught up.
    fn all_threads_observed(&self, old_counter: usize, caller: Option<usize>) -> (observed: bool)
        ensures
            observed == self@.caught_up(old_counter, caller),
    {
        let mut i: usize = self.threads.len();
        while i > 0
            invariant
                i <= self.threads@.len(),
                forall|j: int|
                    i <= j < self.threads@.len() && (#[trigger] self.threads@[j]).registered
                        && caller != Some(j as usize) ==> self.threads@[j].local_counter
                        > old_counter,
            decreases i,
        {
            i = i - 1;
            let data = self.threads[i];
            let is_caller = match caller {
                Some(own) => own == i,
                None => false,
            };
            if !is_caller && data.registered && data.local_counter <= old_counter {
                assert(self@.threads[i as int].registered);
                return false;
            }
        }
        true
    }
}

/// What a thread keeps for itself: where the domain lists it. A thread is listed when it first
/// enters a critical section.
pub struct DomainThread {
    slot: Option<usize>,
}

impl View for DomainThread {
    type V = Option<usize>;

    closed spec fn view(&self) -> Option<usize> {
        self.slot
    }
}

impl DomainThread {
    /// A thread that has not entered a critical section yet.
    pub fn new() -> (thread: Self)
        ensures
            thread@ is None,
    {
        DomainThread { slot: None }
    }
}

/// Where `domain` lists the thread that keeps `slot`.
pub open spec fn listed_at(domain: DomainView, slot: Option<usize>) -> Option<usize> {
    match slot {
        Some(at) if at < domain.threads.len() => Some(at),
        _ => None,
    }
}

/// What a grace period of a [`Domain`] remembers.
pub struct DomainGracePeriodView {
    /// The counter before it was advanced.
    pub old_counter: usize,
    /// Where the waiting thread is listed.
    pub caller: Option<usize>,
}

/// A grace period of a [`Domain`] that was begun.
pub struct DomainGracePeriod {
    old_counter: usize,
    caller: Option<usize>,
}

impl View for DomainGracePeriod {
    type V = DomainGracePeriodView;

    closed spec fn view(&self) -> DomainGracePeriodView {
        DomainGracePeriodView { old_counter: self.old_counter, caller: self.caller }
    }
}

/// Where `domain` lists `thread`.
fn find_thread(domain: &Domain, thread: &DomainThread) -> (at: Option<usize>)
    ensures
        at == listed_at(domain@, thread@),
{
    match thread.slot {
        Some(at) => if at < domain.threads.len() {
            Some(at)
        } else {
            None
        },
        None => None,
    }
}

/// Lists `thread`, as registered, and returns where it stands. A thread that is listed is not
/// listed again.
pub fn register_thread(domain: &mut Domain, thread: &mut DomainThread) -> (at: usize)
    ensures
        final(thread)@ == Some(at),
        match listed_at(old(domain)@, old(thread)@) {
            Some(k) => at == k && final(domain)@ == old(domain)@,
            None => at == old(domain)@.threads.len() && final(domain)@
                == old(domain)@.after_register(),
        },
{
    match find_thread(domain, thread) {
        Some(at) => at,
        None => {
            let at: usize = domain.threads.len();
            domain.threads.push(ThreadData { registered: true, ..ThreadData::new() });
            thread.slot = Some(at);
            at
        },
    }
}

/// Begins a read-side critical section of `thread`: it announces the counter it starts at. On
/// its first time the thread is listed.
pub fn rcu_read_lock(domain: &mut Domain, thread: &mut DomainThread)
    ensures
        final(domain)@ == old(domain)@.after_read_lock(listed_at(old(domain)@, old(thread)@)),
        final(thread)@ == Some(
            match listed_at(old(domain)@, old(thread)@) {
                Some(at) => at,
                None => old(domain)@.threads.len() as usize,
            },
        ),
{
    let at: usize = register_thread(domain, thread);
    let data = domain.threads[at];
    domain.threads.set(at, ThreadData { local_counter: domain.global_counter, ..data });
    assert(domain@.threads =~= old(domain)@.after_read_lock(
        listed_at(old(domain)@, old(thread)@),
    ).threads);
}

/// Ends a read-side critical section. There is nothing to do: the section counts as left when
/// the thread enters its next one.
pub fn rcu_read_unlock(domain: &mut Domain)
    ensures
        *final(domain) == *old(domain),
{
}

/// Begins a grace period for `thread`: advances the counter and remembers what it was.
fn begin_synchronize(domain: &mut Domain, thread: &DomainThread) -> (gp: DomainGracePeriod)
    ensures
        final(domain)@ == old(domain)@.after_begin(),
        gp@ == (DomainGracePeriodView {
            old_counter: old(domain)@.counter,
            caller: listed_at(old(domain)@, thread@),
        }),
{
    let caller = find_thread(domain, thread);
    let old_counter: usize = domain.global_counter;
    domain.global_counter = old_counter.wrapping_add(1);
    DomainGracePeriod { old_counter, caller }
}

/// Waits until the critical sections of all threads but `thread`, which waits, have been left:
/// begins a grace period and takes a first look. Where some thread has not caught up, the period
/// comes back, to go on with [`resume_synchronize`].
pub fn synchronize_rcu(domain: &mut Domain, thread: &DomainThread) -> (result: Result<
    (),
    DomainGracePeriod,
>)
    ensures
        final(domain)@ == old(domain)@.after_begin(),
        ({
            let gp = DomainGracePeriodView {
                old_counter: old(domain)@.counter,
                caller: listed_at(old(domain)@, thread@),
            };
            if old(domain)@.caught_up(gp.old_counter, gp.caller) {
                result is Ok
            } else {
                result is Err && result->Err_0@ == gp
            }
        }),
{
    let gp = begin_synchronize(domain, thread);
    assert(domain@.threads == old(domain)@.threads);
    resume_synchronize(domain, gp)
}

/// Another look at the threads in a grace period that was begun before.
pub fn resume_synchronize(domain: &Domain, gp: DomainGracePeriod) -> (result: Result<
    (),
    DomainGracePeriod,
>)
    ensures
        if domain@.caught_up(gp@.old_counter, gp@.caller) {
            result is Ok
        } else {
            result == Err::<(), DomainGracePeriod>(gp)
        },
{
    if domain.all_threads_observed(gp.old_counter, gp.caller) {
        Ok(())
    } else {
        Err(gp)
    }
}

/// What a reclamation waits for that looks at the readers of an instance and of the domain.
pub struct CallPeriod {
    /// The grace period of the instance.
    pub instance: GracePeriod,
    /// The grace period of the domain.
    pub domain: DomainGracePeriod,
}

/// How far waiting for the readers of an instance and of the domain has come.
pub enum CallSync<T> {
    /// A collection of the instance is waiting for its readers. Nothing was changed.
    Busy,
    /// Some thread has not caught up.
    Waiting(CallPeriod),
    /// All have caught up; these callbacks are safe to process.
    Safe(SafeCallbacks<T>),
}

/// How far a [`call_rcu`] has come.
pub enum CallStatus {
    /// A collection of the instance is waiting for its readers. Nothing was changed.
    Busy,
    /// Some thread has not caught up.
    Waiting(CallPeriod),
    /// Everything that was queued before has been reclaimed.
    Done,
}

/// Whether the readers of the instance `rcu` and of `domain` have all caught up.
pub open spec fn call_elapsed<T>(
    rcu: RcuView<T>,
    gp: GracePeriodView,
    threads: Threads,
    domain: DomainView,
    domain_gp: DomainGracePeriodView,
) -> bool {
    &&& caught_up(threads, rcu.threads, gp.old_counter, gp.caller)
    &&& domain.caught_up(domain_gp.old_counter, domain_gp.caller)
}

/// How a step of waiting for both ends: once all have caught up the wait is over and the
/// callbacks queued before are handed out, otherwise nothing is changed.
pub open spec fn call_synchronized<T>(
    before: RcuView<T>,
    gp: GracePeriodView,
    threads: Threads,
    domain: DomainView,
    domain_gp: DomainGracePeriodView,
    after: RcuView<T>,
    status: CallSync<T>,
) -> bool {
    if call_elapsed(before, gp, threads, domain, domain_gp) {
        &&& status is Safe
        &&& status->Safe_0.of_rcu() == before.rcu_id
        &&& status->Safe_0@ == before.safe_callbacks(gp.old_head)
        &&& after == before.after_release().after_take(gp.old_head)
    } else {
        &&& status is Waiting
        &&& status->Waiting_0.instance@ == gp
        &&& status->Waiting_0.domain@ == domain_gp
        &&& after == before
    }
}

/// How a step of [`call_rcu`] ends.
pub open spec fn called<T>(
    before: RcuView<T>,
    gp: GracePeriodView,
    threads: Threads,
    domain: DomainView,
    domain_gp: DomainGracePeriodView,
    after: RcuView<T>,
    status: CallStatus,
) -> bool {
    if call_elapsed(before, gp, threads, domain, domain_gp) {
        &&& status is Done
        &&& after == before.after_release().after_take(gp.old_head).after_process(
            before.safe_callbacks(gp.old_head),
        )
    } else {
        &&& status is Waiting
        &&& status->Waiting_0.instance@ == gp
        &&& status->Waiting_0.domain@ == domain_gp
        &&& after == before
    }
}

/// Begins a grace period of `rcu` and one of `domain`, for the thread that is `thread` in the
/// registry and `domain_thread` in the domain, and takes a first look at the readers of both.
/// Once all have caught up, what `rcu` had queued before is handed out.
pub fn synchronize_call<T>(
    rcu: &mut Rcu<T>,
    registry: &mut Registry,
    thread: usize,
    domain: &mut Domain,
    domain_thread: &DomainThread,
) -> (status: CallSync<T>)
    requires
        old(rcu).wf(),
        old(registry).wf(),
    ensures
        final(rcu).wf(),
        final(registry).wf(),
        if old(rcu)@.sync_locked {
            &&& status is Busy
            &&& final(rcu)@ == old(rcu)@
            &&& final(registry)@ == old(registry)@
            &&& final(domain)@ == old(domain)@
        } else {
            &&& final(registry)@ == old(registry)@.after_announce(
                thread,
                old(rcu)@.rcu_id,
                old(rcu)@.counter,
                false,
            )
            &&& final(domain)@ == old(domain)@.after_begin()
            &&& call_synchronized(
                old(rcu)@.after_begin(),
                old(rcu)@.snapshot(old(registry)@.data_of(thread, old(rcu)@.rcu_id)),
                final(registry)@.threads,
                final(domain)@,
                DomainGracePeriodView {
                    old_counter: old(domain)@.counter,
                    caller: listed_at(old(domain)@, domain_thread@),
                },
                final(rcu)@,
                status,
            )
        },
{
    match rcu.begin_grace_period(registry, thread) {
        None => CallSync::Busy,
        Some(instance) => {
            let domain_gp = begin_synchronize(domain, domain_thread);
            resume_synchronize_call(
                rcu,
                registry,
                domain,
                CallPeriod { instance, domain: domain_gp },
            )
        },
    }
}

/// Another look at the readers in periods that were begun before.
pub fn resume_synchronize_call<T>(
    rcu: &mut Rcu<T>,
    registry: &Registry,
    domain: &Domain,
    period: CallPeriod,
) -> (status: CallSync<T>)
    requires
        old(rcu).wf(),
        old(rcu)@.sync_locked,
        period.instance@.rcu_id == old(rcu)@.rcu_id,
    ensures
        final(rcu).wf(),
        call_synchronized(
            old(rcu)@,
            period.instance@,
            registry@.threads,
            domain@,
            period.domain@,
            final(rcu)@,
            status,
        ),
{
    if !domain.all_threads_observed(period.domain.old_counter, period.domain.caller) {
        return CallSync::Waiting(period);
    }
    match rcu.resume_synchronize(registry, period.instance) {
        SyncStatus::Safe(callbacks) => CallSync::Safe(callbacks),
        SyncStatus::Waiting(instance) => CallSync::Waiting(
            CallPeriod { instance, domain: period.domain },
        ),
        SyncStatus::Busy => CallSync::Busy,
    }
}

/// Waits until the critical sections of `rcu` and of `domain` that are open now have been left,
/// and then reclaims everything that `rcu` has queued now. Where some thread has not caught up,
/// nothing is reclaimed and the periods come back, to go on with [`resume_call_rcu`].
pub fn call_rcu<T>(
    rcu: &mut Rcu<T>,
    registry: &mut Registry,
    thread: usize,
    domain: &mut Domain,
    domain_thread: &DomainThread,
) -> (status: CallStatus)
    requires
        old(rcu).wf(),
        old(registry).wf(),
    ensures
        final(rcu).wf(),
        final(registry).wf(),
        if old(rcu)@.sync_locked {
            &&& status is Busy
            &&& final(rcu)@ == old(rcu)@
            &&& final(registry)@ == old(registry)@
            &&& final(domain)@ == old(domain)@
        } else {
            &&& final(registry)@ == old(registry)@.after_announce(
                thread,
                old(rcu)@.rcu_id,
                old(rcu)@.counter,
                false,
            )
            &&& final(domain)@ == old(domain)@.after_begin()
            &&& called(
                old(rcu)@.after_begin(),
                old(rcu)@.snapshot(old(registry)@.data_of(thread, old(rcu)@.rcu_id)),
                final(registry)@.threads,
                final(domain)@,
                DomainGracePeriodView {
                    old_counter: old(domain)@.counter,
                    caller: listed_at(old(domain)@, domain_thread@),
                },
                final(rcu)@,
                status,
            )
        },
        status is Done ==> {
            &&& final(rcu)@.callbacks.len() == 0
            &&& final(rcu)@.ledger.reclaimed.len() == old(rcu)@.ledger.reclaimed.len() + old(
                rcu,
            )@.callbacks.len()
            &&& forall|i: int|
                0 <= i < old(domain)@.threads.len() && (
                #[trigger] old(domain)@.threads[i]).registered && domain_thread@ != Some(
                    i as usize,
                ) ==> old(domain)@.threads[i].local_counter > old(domain)@.counter
        },
{
    let status = match synchronize_call(rcu, registry, thread, domain, domain_thread) {
        CallSync::Busy => CallStatus::Busy,
        CallSync::Waiting(period) => CallStatus::Waiting(period),
        CallSync::Safe(callbacks) => {
            rcu.process_callbacks(callbacks);
            CallStatus::Done
        },
    };
    proof {
        if status is Done {
            law_uninterrupted_call_reclaims_all(
                old(rcu)@,
                old(registry)@,
                thread,
                old(domain)@,
                domain_thread@,
                rcu@,
                status,
            );
        }
    }
    status
}

/// Goes on with a [`call_rcu`] that had to wait.
pub fn resume_call_rcu<T>(
    rcu: &mut Rcu<T>,
    registry: &Registry,
    domain: &Domain,
    period: CallPeriod,
) -> (status: CallStatus)
    requires
        old(rcu).wf(),
        old(rcu)@.sync_locked,
        period.instance@.rcu_id == old(rcu)@.rcu_id,
    ensures
        final(rcu).wf(),
        called(
            old(rcu)@,
            period.instance@,
            registry@.threads,
            domain@,
            period.domain@,
            final(rcu)@,
            status,
        ),
{
    match resume_synchronize_call(rcu, registry, domain, period) {
        CallSync::Busy => CallStatus::Busy,
        CallSync::Waiting(period) => CallStatus::Waiting(period),
        CallSync::Safe(callbacks) => {
            rcu.process_callbacks(callbacks);
            CallStatus::Done
        },
    }
}

/// A pointer that writers replace while readers follow it; `None` is the null pointer.
pub struct RcuPointer<T> {
    target: Option<Box<T>>,
}

impl<T> View for RcuPointer<T> {
    type V = Option<Box<T>>;

    closed spec fn view(&self) -> Option<Box<T>> {
        self.target
    }
}

impl<T> RcuPointer<T> {
    /// A pointer to `target`.
    pub fn new(target: Option<Box<T>>) -> (pointer: Self)
        ensures
            pointer@ == target,
    {
        RcuPointer { target }
    }
}

/// Points `p` to `v`. What it pointed to before comes back, for the caller to reclaim.
pub fn rcu_assign_pointer<T>(p: &mut RcuPointer<T>, v: Option<Box<T>>) -> (replaced: Option<
    Box<T>,
>)
    ensures
        final(p)@ == v,
        replaced == old(p)@,
{
    let mut replaced = v;
    std::mem::swap(&mut p.target, &mut replaced);
    replaced
}

/// What `p` points to; `None` for the null pointer.
pub fn rcu_dereference<T>(p: &RcuPointer<T>) -> (target: Option<&T>)
    ensures
        match p@ {
            Some(boxed) => target == Some(&*boxed),
            None => target is None,
        },
{
    match &p.target {
        Some(boxed) => Some(&**boxed),
        None => None,
    }
}

} // verus!
