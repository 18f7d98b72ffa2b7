//! Laws of the process-wide domain.
use vstd::prelude::*;

use crate::grace::GracePeriodView;
use crate::laws::instances::{
    law_beginning_remembers_the_newest_callback, law_period_is_over_once_nobody_can_be_inside,
    law_processing_reclaims_each_callback, law_taking_splits_the_queue,
};
use crate::rcu::RcuView;
use crate::registry::{RegistryView, Threads};
use crate::thread_data::{
    call_synchronized, called, listed_at, CallStatus, CallSync,
    DomainGracePeriodView, DomainView, ThreadData,
};

verus! {

// Whom a grace period waits for.

/// A grace period waits for every registered thread that has not entered a critical section
/// since it began, but for the waiting thread.
pub proof fn law_domain_waits_for_lagging_thread(
    domain: DomainView,
    old_counter: usize,
    caller: Option<usize>,
    at: usize,
)
    requires
        at < domain.threads.len(),
        domain.threads[at as int].registered,
        domain.threads[at as int].local_counter <= old_counter,
        caller != Some(at),
    ensures
        !domain.caught_up(old_counter, caller),
{
    assert(domain.threads[at as int].registered);
}

/// The waiting thread is not waited for: whether its grace period is over does not depend on
/// what it shows itself. Where it alone is listed, every period is over at once.
pub proof fn law_domain_does_not_wait_for_caller(
    domain: DomainView,
    old_counter: usize,
    at: usize,
    data: ThreadData,
)
    requires
        at < domain.threads.len() <= usize::MAX,
    ensures
        domain.caught_up(old_counter, Some(at)) == (DomainView {
            threads: domain.threads.update(at as int, data),
            ..domain
        }).caught_up(old_counter, Some(at)),
        domain.threads.len() == 1 ==> domain.caught_up(old_counter, Some(at)),
{
    let other = DomainView { threads: domain.threads.update(at as int, data), ..domain };
    assert forall|i: int| 0 <= i < domain.threads.len() && i != at implies domain.threads[i]
        == #[trigger] other.threads[i] by {}
    if domain.caught_up(old_counter, Some(at)) {
        assert forall|i: int|
            0 <= i < other.threads.len() && (#[trigger] other.threads[i]).registered && at
                != i as usize implies other.threads[i].local_counter > old_counter by {
            assert(domain.threads[i].registered);
        }
    }
    if other.caught_up(old_counter, Some(at)) {
        assert forall|i: int|
            0 <= i < domain.threads.len() && (#[trigger] domain.threads[i]).registered && at
                != i as usize implies domain.threads[i].local_counter > old_counter by {
            assert(other.threads[i].registered);
        }
    }
}

/// A thread that enters a critical section is not waited for any more, and undoes nothing for
/// others.
pub proof fn law_domain_read_lock_helps(
    domain: DomainView,
    old_counter: usize,
    caller: Option<usize>,
    slot: Option<usize>,
)
    requires
        old_counter < domain.counter,
        domain.threads.len() < usize::MAX,
        forall|i: int|
            0 <= i < domain.threads.len() && (#[trigger] domain.threads[i]).registered && caller
                != Some(i as usize) && slot != Some(i as usize)
                ==> domain.threads[i].local_counter > old_counter,
    ensures
        domain.after_read_lock(listed_at(domain, slot)).caught_up(old_counter, caller),
{
    let after = domain.after_read_lock(listed_at(domain, slot));
    assert forall|i: int|
        0 <= i < after.threads.len() && (#[trigger] after.threads[i]).registered && caller != Some(
            i as usize,
        ) implies after.threads[i].local_counter > old_counter by {
        if i < domain.threads.len() && slot != Some(i as usize) {
            assert(after.threads[i] == domain.threads[i]);
        }
    }
}

// Whole runs.

/// A domain among its threads.
pub struct DomainRun {
    /// The domain.
    pub domain: DomainView,
    /// What each thread keeps for itself.
    pub slots: Map<nat, Option<usize>>,
    /// The threads inside a critical section, with the counter at which they last entered one.
    pub inside: Map<nat, usize>,
}

/// A step of some thread.
pub enum DomainStep {
    /// The thread starts.
    Start(nat),
    /// The thread registers.
    Register(nat),
    /// The thread enters a critical section, perhaps inside another one.
    Enter(nat),
    /// The thread leaves its critical section.
    Leave(nat),
    /// The thread begins a grace period.
    Begin(nat),
}

/// Whether a thread can take `step`: threads leave what they have entered, begin grace periods
/// outside of their critical sections, and there is room for one more; and the counter does not
/// wrap around.
pub open spec fn possible(run: DomainRun, step: DomainStep) -> bool {
    match step {
        DomainStep::Start(t) => !run.slots.contains_key(t),
        DomainStep::Register(t) => run.slots.contains_key(t) && run.domain.threads.len()
            < usize::MAX,
        DomainStep::Enter(t) => run.slots.contains_key(t) && run.domain.threads.len()
            < usize::MAX,
        DomainStep::Leave(t) => run.inside.contains_key(t),
        DomainStep::Begin(t) => run.slots.contains_key(t) && !run.inside.contains_key(t)
            && run.domain.counter < usize::MAX,
    }
}

/// After `step`.
pub open spec fn after_step(run: DomainRun, step: DomainStep) -> DomainRun {
    match step {
        DomainStep::Start(t) => DomainRun { slots: run.slots.insert(t, None), ..run },
        DomainStep::Register(t) => match listed_at(run.domain, run.slots[t]) {
            Some(_) => run,
            None => DomainRun {
                domain: run.domain.after_register(),
                slots: run.slots.insert(t, Some(run.domain.threads.len() as usize)),
                ..run
            },
        },
        DomainStep::Enter(t) => {
            let at = listed_at(run.domain, run.slots[t]);
            let slot = match at {
                Some(at) => at,
                None => run.domain.threads.len() as usize,
            };
            DomainRun {
                domain: run.domain.after_read_lock(at),
                slots: run.slots.insert(t, Some(slot)),
                inside: run.inside.insert(t, run.domain.counter),
            }
        },
        DomainStep::Leave(t) => DomainRun { inside: run.inside.remove(t), ..run },
        DomainStep::Begin(_) => DomainRun { domain: run.domain.after_begin(), ..run },
    }
}

/// After `steps`, in whatever order the threads came to take them.
pub open spec fn after_steps(run: DomainRun, steps: Seq<DomainStep>) -> DomainRun
    decreases steps.len(),
{
    if steps.len() == 0 {
        run
    } else {
        after_step(after_steps(run, steps.drop_last()), steps.last())
    }
}

/// Whether each of `steps` can be taken when its turn comes.
pub open spec fn all_possible(run: DomainRun, steps: Seq<DomainStep>) -> bool
    decreases steps.len(),
{
    steps.len() == 0 || (all_possible(run, steps.drop_last()) && possible(
        after_steps(run, steps.drop_last()),
        steps.last(),
    ))
}

/// What a thread keeps for itself names a slot of its own, where it is listed as registered; a
/// thread in a critical section shows there the counter at which it entered; and no thread shows
/// more than the domain's counter.
pub open spec fn consistent(run: DomainRun) -> bool {
    &&& forall|t: nat| #[trigger]
        run.slots.contains_key(t) ==> (run.slots[t] matches Some(at) ==> at
            < run.domain.threads.len() && run.domain.threads[at as int].registered)
    &&& forall|t: nat, u: nat| #[trigger]
        run.slots.contains_key(t) && #[trigger] run.slots.contains_key(u) && t != u
            && run.slots[t] is Some ==> run.slots[t] != run.slots[u]
    &&& forall|t: nat| #[trigger]
        run.inside.contains_key(t) ==> run.slots.contains_key(t) && (run.slots[t] matches Some(
            at,
        ) && run.domain.threads[at as int].local_counter == run.inside[t])
    &&& forall|i: int|
        0 <= i < run.domain.threads.len() ==> (#[trigger] run.domain.threads[i]).local_counter
            <= run.domain.counter
}

/// Every step keeps threads and domain consistent, and no step moves a thread that is listed.
pub proof fn law_every_step_is_consistent(run: DomainRun, step: DomainStep)
    requires
        consistent(run),
        possible(run, step),
    ensures
        consistent(after_step(run, step)),
        forall|t: nat| #[trigger]
            run.slots.contains_key(t) && run.slots[t] is Some ==> after_step(
                run,
                step,
            ).slots.contains_key(t) && after_step(run, step).slots[t] == run.slots[t],
{
    let after = after_step(run, step);
    match step {
        DomainStep::Register(t) => {
            lemma_threads_grow(run, after, t);
        },
        DomainStep::Enter(t) => {
            lemma_threads_grow(run, after, t);
        },
        _ => {},
    }
}

proof fn lemma_threads_grow(run: DomainRun, after: DomainRun, t: nat)
    requires
        consistent(run),
        run.slots.contains_key(t),
        run.domain.threads.len() < usize::MAX,
        after == after_step(run, DomainStep::Register(t)) || after == after_step(
            run,
            DomainStep::Enter(t),
        ),
    ensures
        consistent(after),
        forall|u: nat| #[trigger]
            run.slots.contains_key(u) && run.slots[u] is Some ==> after.slots.contains_key(u)
                && after.slots[u] == run.slots[u],
{
    assert(listed_at(run.domain, run.slots[t]) == run.slots[t]);
    assert forall|i: int| 0 <= i < run.domain.threads.len() && run.slots[t] != Some(
        i as usize,
    ) implies #[trigger] after.domain.threads[i] == run.domain.threads[i] by {}
    assert forall|u: nat| #[trigger] after.inside.contains_key(u) implies after.slots.contains_key(
        u,
    ) && (after.slots[u] matches Some(at) && after.domain.threads[at as int].local_counter
        == after.inside[u]) by {
        if u != t {
            assert(run.inside.contains_key(u));
            assert(run.slots.contains_key(u));
            assert(run.slots[u] != run.slots[t]);
        } else if run.inside.contains_key(t) {
            assert(run.slots[t] is Some);
        }
    }
    assert forall|u: nat| #[trigger] after.slots.contains_key(u) implies (
    after.slots[u] matches Some(at) ==> at < after.domain.threads.len()
        && after.domain.threads[at as int].registered) by {
        assert(run.slots.contains_key(u));
    }
    assert forall|u: nat, v: nat| #[trigger]
        after.slots.contains_key(u) && #[trigger] after.slots.contains_key(v) && u != v
            && after.slots[u] is Some implies after.slots[u] != after.slots[v] by {
        assert(run.slots.contains_key(u) && run.slots.contains_key(v));
    }
}

/// However the steps of threads interleave, what a thread keeps for itself stays in range, its
/// own, and listed as registered.
pub proof fn law_every_run_is_consistent(run: DomainRun, steps: Seq<DomainStep>)
    requires
        consistent(run),
        all_possible(run, steps),
    ensures
        consistent(after_steps(run, steps)),
        forall|t: nat| #[trigger]
            run.slots.contains_key(t) && run.slots[t] is Some ==> after_steps(
                run,
                steps,
            ).slots.contains_key(t) && after_steps(run, steps).slots[t] == run.slots[t],
    decreases steps.len(),
{
    if steps.len() > 0 {
        law_every_run_is_consistent(run, steps.drop_last());
        let before = after_steps(run, steps.drop_last());
        law_every_step_is_consistent(before, steps.last());
        assert forall|t: nat| #[trigger]
            run.slots.contains_key(t) && run.slots[t] is Some implies after_steps(
            run,
            steps,
        ).slots.contains_key(t) && after_steps(run, steps).slots[t] == run.slots[t] by {
            assert(before.slots.contains_key(t));
        }
    }
}

/// A new domain, whose threads have not registered, is consistent.
pub proof fn law_new_domain_is_consistent(run: DomainRun)
    requires
        run.domain.threads.len() == 0,
        forall|t: nat| #[trigger] run.slots.contains_key(t) ==> run.slots[t] is None,
        forall|t: nat| !#[trigger] run.inside.contains_key(t),
    ensures
        consistent(run),
{
}

/// Once a grace period is over, every thread but the waiting one that is in a critical section
/// entered it after the period began.
pub proof fn law_elapsed_domain_period_has_outlived_all_sections(
    run: DomainRun,
    old_counter: usize,
    caller: nat,
    t: nat,
)
    requires
        consistent(run),
        run.slots.contains_key(caller),
        run.domain.caught_up(old_counter, run.slots[caller]),
        run.inside.contains_key(t),
        t != caller,
    ensures
        run.inside[t] > old_counter,
{
    let at = run.slots[t]->0;
    assert(run.domain.threads[at as int].registered);
    assert(run.slots[t] != run.slots[caller]);
}

/// How many of `steps` begin a grace period.
pub open spec fn periods_begun(steps: Seq<DomainStep>) -> nat
    decreases steps.len(),
{
    if steps.len() == 0 {
        0
    } else {
        periods_begun(steps.drop_last()) + (if steps.last() is Begin {
            1nat
        } else {
            0nat
        })
    }
}

/// The domain's counter counts the grace periods begun, and nothing else changes it. A new
/// domain starts at 1.
pub proof fn law_domain_counter_counts_periods(run: DomainRun, steps: Seq<DomainStep>)
    requires
        all_possible(run, steps),
    ensures
        after_steps(run, steps).domain.counter == run.domain.counter + periods_begun(steps),
    decreases steps.len(),
{
    if steps.len() > 0 {
        law_domain_counter_counts_periods(run, steps.drop_last());
    }
}

// What each operation does.

/// Registering lists the thread, behind all others, as taking part and with nothing announced;
/// the counter and the others stay.
pub proof fn law_domain_registering_lists_one_thread(domain: DomainView)
    ensures
        ({
            let after = domain.after_register();
            let n = domain.threads.len() as int;
            &&& after.threads.len() == n + 1
            &&& after.threads[n].registered
            &&& after.threads[n].local_counter == 0
            &&& forall|i: int| 0 <= i < n ==> #[trigger] after.threads[i] == domain.threads[i]
            &&& after.counter == domain.counter
        }),
{
}

/// A thread is listed where its slot says, if the list reaches that far.
pub proof fn law_domain_slot_says_where(domain: DomainView, slot: Option<usize>)
    ensures
        slot is None ==> listed_at(domain, slot) is None,
        slot matches Some(at) ==> if at < domain.threads.len() {
            listed_at(domain, slot) == Some(at)
        } else {
            listed_at(domain, slot) is None
        },
{
}

/// Entering a critical section shows the domain's counter at the thread's place, and lists a
/// thread that was not listed as taking part; the counter and the others stay.
pub proof fn law_domain_entering_shows_the_counter(domain: DomainView, slot: Option<usize>)
    requires
        slot matches Some(at) ==> at < domain.threads.len(),
    ensures
        ({
            let after = domain.after_read_lock(slot);
            let n = domain.threads.len() as int;
            let own = match slot {
                Some(at) => at as int,
                None => n,
            };
            &&& after.counter == domain.counter
            &&& after.threads.len() == (if slot is Some {
                n
            } else {
                n + 1
            })
            &&& after.threads[own].local_counter == domain.counter
            &&& after.threads[own].registered == (slot is Some ==> domain.threads[own].registered)
            &&& forall|i: int|
                0 <= i < n && i != own ==> #[trigger] after.threads[i] == domain.threads[i]
        }),
{
}

/// Beginning a grace period advances the counter by one, and leaves the threads alone.
pub proof fn law_domain_beginning_advances_the_counter(domain: DomainView)
    ensures
        domain.after_begin().threads == domain.threads,
        domain.after_begin().counter == (if domain.counter < usize::MAX {
            domain.counter + 1
        } else {
            0
        }),
{
}

/// A grace period of the domain is over exactly when every registered thread but the waiting one,
/// whether that is listed or not, has entered a critical section past the counter it began at.
pub proof fn law_domain_period_is_over_once_all_have_entered_anew(
    domain: DomainView,
    old_counter: usize,
    caller: Option<usize>,
)
    ensures
        domain.caught_up(old_counter, caller) <==> (forall|i: int|
            0 <= i < domain.threads.len() && (#[trigger] domain.threads[i]).registered
                && caller != Some(i as usize) ==> domain.threads[i].local_counter > old_counter),
        caller is None ==> (domain.caught_up(old_counter, caller) ==> forall|i: int|
            0 <= i < domain.threads.len() && (#[trigger] domain.threads[i]).registered
                ==> domain.threads[i].local_counter > old_counter),
{
}

/// Waiting for the readers of an instance and of the domain succeeds exactly when neither holds
/// it up: no listed active thread of the instance, and no registered thread of the domain, but for
/// the caller, can be in a section that was open when the wait began. That holds as well for a
/// caller that the domain does not list. Only then are callbacks handed out.
pub proof fn law_callbacks_are_handed_out_once_both_are_over<T>(
    before: RcuView<T>,
    gp: GracePeriodView,
    threads: Threads,
    domain: DomainView,
    domain_gp: DomainGracePeriodView,
    after: RcuView<T>,
    status: CallSync<T>,
)
    requires
        call_synchronized(before, gp, threads, domain, domain_gp, after, status),
    ensures
        status is Safe <==> (forall|i: int|
            0 <= i < before.threads.len() ==> {
                let at = #[trigger] before.threads[i];
                threads.contains_key(at) && threads[at].active && gp.caller != Some(at)
                    ==> threads[at].local_counter > gp.old_counter || (
                threads[at].local_counter == gp.old_counter && !threads[at].reading)
            }) && (forall|i: int|
            0 <= i < domain.threads.len() && (#[trigger] domain.threads[i]).registered
                && domain_gp.caller != Some(i as usize) ==> domain.threads[i].local_counter
                > domain_gp.old_counter),
        status is Safe || status is Waiting,
        status is Waiting ==> status->Waiting_0.instance@ == gp && status->Waiting_0.domain@
            == domain_gp && after == before,
        status is Safe ==> {
            let n = before.callbacks.len() - after.callbacks.len();
            &&& 0 <= n
            &&& after.callbacks == before.callbacks.skip(n)
            &&& gp.old_head is None ==> n == 0
            &&& gp.old_head matches Some(v) ==> {
                &&& n > 0 ==> before.callbacks[n - 1].version == v
                &&& forall|i: int|
                    n <= i < before.callbacks.len() ==> (
                    #[trigger] before.callbacks[i]).version != v
            }
            &&& status->Safe_0@ == before.callbacks.take(n)
            &&& status->Safe_0.of_rcu() == before.rcu_id
            &&& after.ledger.reclaimed == before.ledger.reclaimed
            &&& !after.sync_locked
            &&& !after.thread_list_locked
            &&& after.current == before.current
            &&& after.version == before.version
            &&& after.threads == before.threads
            &&& after.counter == before.counter
            &&& after.rcu_id == before.rcu_id
            &&& after.callback_list_locked == before.callback_list_locked
            &&& after.ledger.unqueued == before.ledger.unqueued
        },
{
    law_period_is_over_once_nobody_can_be_inside(
        threads,
        before.threads,
        gp.old_counter,
        gp.caller,
    );
    if status is Safe {
        lemma_taken(before, gp.old_head);
    }
}

proof fn lemma_taken<T>(before: RcuView<T>, old_head: Option<u64>)
    ensures
        ({
            let after = before.after_release().after_take(old_head);
            let n = before.callbacks.len() - after.callbacks.len();
            &&& 0 <= n
            &&& before.safe_callbacks(old_head) == before.callbacks.take(n)
            &&& after.callbacks == before.callbacks.skip(n)
            &&& old_head is None ==> n == 0
            &&& old_head matches Some(v) ==> {
                &&& n > 0 ==> before.callbacks[n - 1].version == v
                &&& forall|i: int|
                    n <= i < before.callbacks.len() ==> (
                    #[trigger] before.callbacks[i]).version != v
            }
        }),
{
    let released = before.after_release();
    let rest = released.after_take(old_head);
    let taken = before.safe_callbacks(old_head);
    law_taking_splits_the_queue(released, old_head);
    let n = before.callbacks.len() - rest.callbacks.len();
    assert(before.callbacks == taken + rest.callbacks);
    assert(taken =~= before.callbacks.take(n));
    assert(rest.callbacks =~= before.callbacks.skip(n));
    if let Some(v) = old_head {
        assert forall|i: int| n <= i < before.callbacks.len() implies (
        #[trigger] before.callbacks[i]).version != v by {
            assert(before.callbacks[i] == rest.callbacks[i - n]);
        }
    }
}

/// A reclamation is done exactly when neither the readers of the instance nor those of the domain
/// hold it up, whether or not the domain lists the caller. Then the callbacks queued up to the
/// remembered one have been reclaimed, the most recent first. Until then nothing is changed.
pub proof fn law_call_reclaims_once_both_are_over<T>(
    before: RcuView<T>,
    gp: GracePeriodView,
    threads: Threads,
    domain: DomainView,
    domain_gp: DomainGracePeriodView,
    after: RcuView<T>,
    status: CallStatus,
)
    requires
        called(before, gp, threads, domain, domain_gp, after, status),
    ensures
        status is Done <==> (forall|i: int|
            0 <= i < before.threads.len() ==> {
                let at = #[trigger] before.threads[i];
                threads.contains_key(at) && threads[at].active && gp.caller != Some(at)
                    ==> threads[at].local_counter > gp.old_counter || (
                threads[at].local_counter == gp.old_counter && !threads[at].reading)
            }) && (forall|i: int|
            0 <= i < domain.threads.len() && (#[trigger] domain.threads[i]).registered
                && domain_gp.caller != Some(i as usize) ==> domain.threads[i].local_counter
                > domain_gp.old_counter),
        status is Done || status is Waiting,
        status is Waiting ==> status->Waiting_0.instance@ == gp && status->Waiting_0.domain@
            == domain_gp && after == before,
        status is Done ==> {
            let m = before.ledger.reclaimed.len() as int;
            let n = before.callbacks.len() - after.callbacks.len();
            &&& 0 <= n
            &&& after.callbacks == before.callbacks.skip(n)
            &&& gp.old_head is None ==> n == 0
            &&& gp.old_head matches Some(v) ==> {
                &&& n > 0 ==> before.callbacks[n - 1].version == v
                &&& forall|i: int|
                    n <= i < before.callbacks.len() ==> (
                    #[trigger] before.callbacks[i]).version != v
            }
            &&& after.ledger.reclaimed.len() == m + n
            &&& forall|i: int|
                0 <= i < m ==> #[trigger] after.ledger.reclaimed[i] == before.ledger.reclaimed[i]
            &&& forall|i: int|
                0 <= i < n ==> #[trigger] after.ledger.reclaimed[m + i] == before.callbacks[n - 1
                    - i].version
            &&& !after.sync_locked
            &&& !after.thread_list_locked
            &&& after.current == before.current
            &&& after.version == before.version
            &&& after.threads == before.threads
            &&& after.counter == before.counter
            &&& after.rcu_id == before.rcu_id
            &&& after.callback_list_locked == before.callback_list_locked
            &&& after.ledger.unqueued == before.ledger.unqueued
        },
{
    law_period_is_over_once_nobody_can_be_inside(
        threads,
        before.threads,
        gp.old_counter,
        gp.caller,
    );
    if status is Done {
        lemma_taken(before, gp.old_head);
        law_processing_reclaims_each_callback(
            before.after_release().after_take(gp.old_head),
            before.safe_callbacks(gp.old_head),
        );
    }
}

/// A reclamation that nobody interrupts has, once it is done, reclaimed all that was queued.
pub proof fn law_uninterrupted_call_reclaims_all<T>(
    s: RcuView<T>,
    registry: RegistryView,
    thread: usize,
    domain: DomainView,
    slot: Option<usize>,
    after: RcuView<T>,
    status: CallStatus,
)
    requires
        called(
            s.after_begin(),
            s.snapshot(registry.data_of(thread, s.rcu_id)),
            registry.after_announce(thread, s.rcu_id, s.counter, false).threads,
            domain.after_begin(),
            DomainGracePeriodView {
                old_counter: domain.counter,
                caller: listed_at(domain, slot),
            },
            after,
            status,
        ),
        status is Done,
    ensures
        ({
            let m = s.ledger.reclaimed.len() as int;
            let n = s.callbacks.len() as int;
            &&& after.callbacks.len() == 0
            &&& after.ledger.reclaimed.len() == m + n
            &&& forall|i: int|
                0 <= i < m ==> #[trigger] after.ledger.reclaimed[i] == s.ledger.reclaimed[i]
            &&& forall|i: int|
                0 <= i < n ==> #[trigger] after.ledger.reclaimed[m + i] == s.callbacks[n - 1
                    - i].version
            &&& after.current == s.current
            &&& after.version == s.version
        }),
        forall|i: int|
            0 <= i < domain.threads.len() && (#[trigger] domain.threads[i]).registered && slot
                != Some(i as usize) ==> domain.threads[i].local_counter > domain.counter,
{
    let begun = s.after_begin();
    let gp = s.snapshot(registry.data_of(thread, s.rcu_id));
    let told = registry.after_announce(thread, s.rcu_id, s.counter, false);
    let domain_gp = DomainGracePeriodView {
        old_counter: domain.counter,
        caller: listed_at(domain, slot),
    };
    law_call_reclaims_once_both_are_over(
        begun,
        gp,
        told.threads,
        domain.after_begin(),
        domain_gp,
        after,
        status,
    );
    law_beginning_remembers_the_newest_callback(s, gp.caller);
    if after.callbacks.len() > 0 {
        assert(begun.callbacks[begun.callbacks.len() - 1].version == gp.old_head->0);
    }
    assert(begun.callbacks.len() - after.callbacks.len() == s.callbacks.len());
    assert forall|i: int|
        0 <= i < domain.threads.len() && (#[trigger] domain.threads[i]).registered && slot != Some(
            i as usize,
        ) implies domain.threads[i].local_counter > domain.counter by {
        assert(domain.after_begin().threads[i].registered);
    }
}

/// Once a reclamation is done, or has handed out callbacks, every thread of the domain that is in
/// a critical section entered it after the wait began, but for the caller, whether or not the
/// domain lists that one.
pub proof fn law_call_has_outlived_all_sections<T>(
    run: DomainRun,
    before: RcuView<T>,
    gp: GracePeriodView,
    threads: Threads,
    domain_gp: DomainGracePeriodView,
    after: RcuView<T>,
    status: CallStatus,
    sync: CallSync<T>,
    caller: nat,
    t: nat,
)
    requires
        consistent(run),
        run.slots.contains_key(caller),
        domain_gp.caller is None || domain_gp.caller == run.slots[caller],
        (called(before, gp, threads, run.domain, domain_gp, after, status) && status is Done) || (
        call_synchronized(before, gp, threads, run.domain, domain_gp, after, sync)
            && sync is Safe),
        run.inside.contains_key(t),
        t != caller,
    ensures
        run.inside[t] > domain_gp.old_counter,
{
    if status is Done && called(before, gp, threads, run.domain, domain_gp, after, status) {
        law_call_reclaims_once_both_are_over(
            before,
            gp,
            threads,
            run.domain,
            domain_gp,
            after,
            status,
        );
    } else {
        law_callbacks_are_handed_out_once_both_are_over(
            before,
            gp,
            threads,
            run.domain,
            domain_gp,
            after,
            sync,
        );
    }
    let at = run.slots[t]->0;
    assert(run.domain.threads[at as int].registered);
    assert(run.slots[t] != run.slots[caller]);
}

} // verus!
