//! Laws of whole runs: what holds however the steps of readers, writers and collections
//! interleave.
use vstd::prelude::*;

use crate::callback::{
    holds_version, of_version, queued_through, versions_of, Callback, Ledger,
};
use crate::grace::{caught_up, GcStatus, GracePeriodView, SyncStatus};
use crate::latest::lemma_prefix_through;
use crate::laws::periods::law_lagging_thread_is_waited_for;
use crate::laws::readers::{
    counters_behind, is_queued_for, is_reading, is_unqueued_for, law_begin_is_safe,
    law_elapsed_period_has_outlived_all_sections, law_queue_is_safe, law_quiescent_state_is_safe,
    law_read_is_safe, law_register_is_safe, law_replace_is_safe, law_take_is_safe,
    law_taking_leaves_only_old, law_unregister_is_safe, law_writes_are_not_taken, readers_past,
    readers_safe, retired_behind, sections_shown, takes_only_old,
};
use crate::laws::writes::{
    accounted, distinct_versions, law_new_is_accounted, law_process_keeps_account,
    law_queue_keeps_account, law_replace_keeps_account, law_take_keeps_account,
    law_thread_steps_keep_account, places,
};
use crate::rcu::{collected, synchronized, RcuView};
use crate::registry::{
    active_in, cleaned, registered_data, with_announcement, with_inactive, RegistryView, Threads,
};
use crate::storage::ThreadLocalStorage;
use crate::thread_data::{called, CallStatus, DomainGracePeriodView, DomainView};

verus! {

/// An instance among its threads.
pub struct World<T> {
    /// The instance.
    pub rcu: RcuView<T>,
    /// The thread data in use.
    pub threads: Threads,
    /// Which version the thread at an address uses in its critical section.
    pub held: Map<usize, u64>,
    /// The grace period that a collection is waiting in.
    pub waiting: Option<GracePeriodView>,
    /// The grace periods that are over.
    pub elapsed: Set<GracePeriodView>,
}

/// A step of some thread.
pub enum Step<T> {
    /// The thread at the address enters a critical section.
    Read(usize),
    /// The thread at the address announces a quiescent state.
    Quiesce(usize),
    /// The thread at the address leaves.
    Unregister(usize),
    /// A thread registers with the entry.
    Register(ThreadLocalStorage),
    /// A writer replaces the current value.
    Replace(T),
    /// A writer queues what it replaced.
    Queue(Callback<T>),
    /// A thread, at the address if it is registered, begins a collection. It announces itself
    /// as quiescent.
    Begin(Option<usize>),
    /// The waiting collection finds that all threads have caught up, and stops waiting.
    Release,
    /// The collection of the period takes the callbacks it remembers.
    Take(GracePeriodView),
    /// A collection reclaims callbacks that it has taken.
    Process(Seq<Callback<T>>),
    /// A collection takes inactive threads off the list.
    Clean,
    /// Other instances change the thread data that all share.
    Others(Threads),
}

/// Whether a thread can take `step`: threads register, begin collections and clean up while no
/// collection waits; a thread's data is put at an address that is free; writers queue what is in
/// their hands, collections process what is in theirs and take callbacks only once their grace
/// period is over; other instances leave the data of this one's threads alone; and nothing wraps
/// around.
pub open spec fn possible<T>(w: World<T>, step: Step<T>) -> bool {
    match step {
        Step::Register(entry) => !w.rcu.thread_list_locked && !w.threads.contains_key(
            entry.thread_data,
        ),
        Step::Replace(_) => w.rcu.version < u64::MAX,
        Step::Queue(callback) => w.rcu.ledger.unqueued.contains_key(callback.version)
            && w.rcu.ledger.unqueued[callback.version] == callback.retired_at@,
        Step::Begin(_) => !w.rcu.sync_locked && w.rcu.counter < usize::MAX,
        Step::Release => w.waiting matches Some(gp) && caught_up(
            w.threads,
            w.rcu.threads,
            gp.old_counter,
            gp.caller,
        ),
        Step::Take(gp) => w.elapsed.contains(gp),
        Step::Process(callbacks) => distinct_versions(callbacks) && versions_of(
            callbacks,
        ).subset_of(w.rcu.ledger.taken),
        Step::Clean => !w.rcu.thread_list_locked,
        Step::Others(threads) => forall|at: usize| #[trigger]
            w.rcu.threads.contains(at) ==> threads.contains_key(at) == w.threads.contains_key(at)
                && (w.threads.contains_key(at) ==> threads[at] == w.threads[at]),
        _ => true,
    }
}

/// The world after `step`.
pub open spec fn after_step<T>(w: World<T>, step: Step<T>) -> World<T> {
    match step {
        Step::Read(at) => World {
            threads: with_announcement(w.threads, at, w.rcu.counter, true),
            held: w.held.insert(at, w.rcu.version),
            ..w
        },
        Step::Quiesce(at) => after_quiesce(w, at),
        Step::Unregister(at) => World { threads: with_inactive(w.threads, at), ..w },
        Step::Register(entry) => World {
            rcu: w.rcu.after_register(entry.thread_data),
            threads: w.threads.insert(entry.thread_data, registered_data(entry)),
            held: w.held.remove(entry.thread_data),
            ..w
        },
        Step::Replace(data) => World { rcu: w.rcu.after_replace(data), ..w },
        Step::Queue(callback) => World { rcu: w.rcu.after_queue(callback), ..w },
        Step::Begin(caller) => {
            let quiet = match caller {
                Some(at) => after_quiesce(w, at),
                None => w,
            };
            World {
                rcu: w.rcu.after_begin(),
                waiting: Some(w.rcu.snapshot(caller)),
                ..quiet
            }
        },
        Step::Release => World {
            rcu: w.rcu.after_release(),
            waiting: None,
            elapsed: w.elapsed.insert(w.waiting->0),
            ..w
        },
        Step::Take(gp) => World { rcu: w.rcu.after_take(gp.old_head), ..w },
        Step::Process(callbacks) => World { rcu: w.rcu.after_process(callbacks), ..w },
        Step::Clean => World {
            rcu: w.rcu.after_clean(w.threads),
            threads: cleaned(w.threads, w.rcu.threads),
            ..w
        },
        Step::Others(threads) => World { threads, ..w },
    }
}

/// The world after the thread at `at` announced a quiescent state.
pub open spec fn after_quiesce<T>(w: World<T>, at: usize) -> World<T> {
    World {
        threads: with_announcement(w.threads, at, w.rcu.counter, false),
        held: w.held.remove(at),
        ..w
    }
}

/// The world after `steps`, in whatever order the threads came to take them.
pub open spec fn after_steps<T>(w: World<T>, steps: Seq<Step<T>>) -> World<T>
    decreases steps.len(),
{
    if steps.len() == 0 {
        w
    } else {
        after_step(after_steps(w, steps.drop_last()), steps.last())
    }
}

/// Whether each of `steps` can be taken when its turn comes.
pub open spec fn all_possible<T>(w: World<T>, steps: Seq<Step<T>>) -> bool
    decreases steps.len(),
{
    steps.len() == 0 || (all_possible(w, steps.drop_last()) && possible(
        after_steps(w, steps.drop_last()),
        steps.last(),
    ))
}

/// A run can be cut in two anywhere.
pub proof fn lemma_split<T>(w: World<T>, steps: Seq<Step<T>>, k: int)
    requires
        0 <= k <= steps.len(),
    ensures
        after_steps(w, steps) == after_steps(after_steps(w, steps.take(k)), steps.skip(k)),
        all_possible(w, steps) ==> all_possible(w, steps.take(k)) && all_possible(
            after_steps(w, steps.take(k)),
            steps.skip(k),
        ),
    decreases steps.len(),
{
    if k == steps.len() {
        assert(steps.take(k) =~= steps);
        assert(steps.skip(k).len() == 0);
    } else {
        let less = steps.drop_last();
        lemma_split(w, less, k);
        assert(less.take(k) =~= steps.take(k));
        assert(steps.skip(k).drop_last() =~= less.skip(k));
        assert(steps.skip(k).last() == steps.last());
    }
}

// The account.

/// Every step keeps the account.
pub proof fn law_every_step_keeps_account<T>(w: World<T>, step: Step<T>)
    requires
        accounted(w.rcu),
        possible(w, step),
    ensures
        accounted(after_step(w, step).rcu),
{
    match step {
        Step::Register(entry) => law_thread_steps_keep_account(
            w.rcu,
            entry.thread_data,
            w.threads,
        ),
        Step::Replace(data) => law_replace_keeps_account(w.rcu, data),
        Step::Queue(callback) => law_queue_keeps_account(w.rcu, callback),
        Step::Begin(_) => law_thread_steps_keep_account(w.rcu, 0, w.threads),
        Step::Release => law_thread_steps_keep_account(w.rcu, 0, w.threads),
        Step::Take(gp) => law_take_keeps_account(w.rcu, gp.old_head),
        Step::Process(callbacks) => law_process_keeps_account(w.rcu, callbacks),
        Step::Clean => law_thread_steps_keep_account(w.rcu, 0, w.threads),
        _ => {},
    }
}

/// However the steps of readers, writers and collections interleave, every replaced version
/// stays in exactly one place: none is lost, none is queued, taken or reclaimed twice.
pub proof fn law_every_run_keeps_account<T>(w: World<T>, steps: Seq<Step<T>>)
    requires
        accounted(w.rcu),
        all_possible(w, steps),
    ensures
        accounted(after_steps(w, steps).rcu),
    decreases steps.len(),
{
    if steps.len() > 0 {
        law_every_run_keeps_account(w, steps.drop_last());
        law_every_step_keeps_account(after_steps(w, steps.drop_last()), steps.last());
    }
}

// The counters.

/// How many of `steps` begin a grace period.
pub open spec fn periods_begun<T>(steps: Seq<Step<T>>) -> nat
    decreases steps.len(),
{
    if steps.len() == 0 {
        0
    } else {
        periods_begun(steps.drop_last()) + if steps.last() is Begin {
            1nat
        } else {
            0nat
        }
    }
}

/// The instance's counter counts the grace periods begun, and nothing else changes it. A new
/// instance starts at 1.
pub proof fn law_counter_counts_periods<T>(w: World<T>, steps: Seq<Step<T>>)
    requires
        all_possible(w, steps),
    ensures
        after_steps(w, steps).rcu.counter == w.rcu.counter + periods_begun(steps),
    decreases steps.len(),
{
    if steps.len() > 0 {
        law_counter_counts_periods(w, steps.drop_last());
    }
}

/// No step lets a listed thread announce more than the instance's counter.
pub proof fn law_every_step_keeps_counters_behind<T>(w: World<T>, step: Step<T>)
    requires
        counters_behind(w.rcu, w.threads),
        possible(w, step),
    ensures
        ({
            let v = after_step(w, step);
            counters_behind(v.rcu, v.threads)
        }),
{
    let v = after_step(w, step);
    assert forall|x: usize| #[trigger] v.rcu.threads.contains(x) && v.threads.contains_key(
        x,
    ) implies v.threads[x].local_counter <= v.rcu.counter by {
        match step {
            Step::Register(entry) => {
                if x != entry.thread_data {
                    let k = choose|k: int| 0 <= k < v.rcu.threads.len() && v.rcu.threads[k] == x;
                    assert(w.rcu.threads[k] == x);
                    assert(w.rcu.threads.contains(x));
                }
            },
            Step::Clean => {
                w.rcu.threads.lemma_filter_contains_rev(active_in(w.threads), x);
                assert(w.rcu.threads.contains(x));
            },
            _ => {
                assert(w.rcu.threads.contains(x));
            },
        }
    }
}

/// In every run the counters that listed threads have announced stay at or behind the
/// instance's.
pub proof fn law_every_run_keeps_counters_behind<T>(w: World<T>, steps: Seq<Step<T>>)
    requires
        counters_behind(w.rcu, w.threads),
        all_possible(w, steps),
    ensures
        ({
            let v = after_steps(w, steps);
            counters_behind(v.rcu, v.threads)
        }),
    decreases steps.len(),
{
    if steps.len() > 0 {
        law_every_run_keeps_counters_behind(w, steps.drop_last());
        law_every_step_keeps_counters_behind(after_steps(w, steps.drop_last()), steps.last());
    }
}

// What readers see.

/// The value that is current after `steps`, where `first` was current before.
pub open spec fn last_installed<T>(first: Option<T>, steps: Seq<Step<T>>) -> Option<T>
    decreases steps.len(),
{
    if steps.len() == 0 {
        first
    } else {
        match steps.last() {
            Step::Replace(data) => Some(data),
            _ => last_installed(first, steps.drop_last()),
        }
    }
}

/// Whenever a reader looks, it finds a whole value: the first one, or the one that the last write
/// before installed.
pub proof fn law_readers_see_whole_values<T>(w: World<T>, steps: Seq<Step<T>>)
    ensures
        after_steps(w, steps).rcu.current == last_installed(w.rcu.current, steps),
    decreases steps.len(),
{
    if steps.len() > 0 {
        law_readers_see_whole_values(w, steps.drop_last());
    }
}

/// Versions never go back.
pub proof fn law_versions_never_go_back<T>(w: World<T>, steps: Seq<Step<T>>)
    requires
        all_possible(w, steps),
    ensures
        after_steps(w, steps).rcu.version >= w.rcu.version,
    decreases steps.len(),
{
    if steps.len() > 0 {
        law_versions_never_go_back(w, steps.drop_last());
    }
}

/// A thread that reads twice does not see an older version the second time; nor does it see one
/// that is older than what was current at any point before.
pub proof fn law_reads_never_go_back<T>(w: World<T>, steps: Seq<Step<T>>, i: int, j: int, at: usize)
    requires
        all_possible(w, steps),
        0 <= i < j < steps.len(),
        steps[j] == Step::<T>::Read(at),
    ensures
        ({
            let then = after_steps(w, steps.take(i + 1));
            let now = after_steps(w, steps.take(j + 1));
            &&& now.held[at] >= then.rcu.version
            &&& steps[i] == Step::<T>::Read(at) ==> now.held[at] >= then.held[at]
        }),
{
    let upto = steps.take(j + 1);
    lemma_split(w, steps, j + 1);
    assert(upto.drop_last() =~= steps.take(j));
    assert(upto.last() == steps[j]);
    lemma_split(w, steps.take(j), i + 1);
    assert(steps.take(j).take(i + 1) =~= steps.take(i + 1));
    law_versions_never_go_back(after_steps(w, steps.take(i + 1)), steps.take(j).skip(i + 1));
    if steps[i] == Step::<T>::Read(at) {
        assert(steps.take(i + 1).last() == steps[i]);
    }
}

// What collections hand out.

/// The callbacks that `step` hands out.
pub open spec fn handed_by<T>(w: World<T>, step: Step<T>) -> Seq<Callback<T>> {
    match step {
        Step::Take(gp) => w.rcu.safe_callbacks(gp.old_head),
        _ => Seq::empty(),
    }
}

/// All callbacks that `steps` hand out, one list after the other.
pub open spec fn handed_out<T>(w: World<T>, steps: Seq<Step<T>>) -> Seq<Callback<T>>
    decreases steps.len(),
{
    if steps.len() == 0 {
        Seq::empty()
    } else {
        let before = after_steps(w, steps.drop_last());
        handed_out(w, steps.drop_last()) + handed_by(before, steps.last())
    }
}

/// All callbacks that `steps` queue, in order.
pub open spec fn queued_by<T>(steps: Seq<Step<T>>) -> Seq<Callback<T>>
    decreases steps.len(),
{
    if steps.len() == 0 {
        Seq::empty()
    } else {
        match steps.last() {
            Step::Queue(callback) => queued_by(steps.drop_last()).push(callback),
            _ => queued_by(steps.drop_last()),
        }
    }
}

/// What overlapping collections hand out, together with what is still queued, is all that was
/// ever queued: each callback is in one of the lists or still queued, first in, first out.
pub proof fn law_lists_are_all_that_was_queued<T>(w: World<T>, steps: Seq<Step<T>>)
    ensures
        w.rcu.callbacks + queued_by(steps) == handed_out(w, steps) + after_steps(
            w,
            steps,
        ).rcu.callbacks,
    decreases steps.len(),
{
    if steps.len() == 0 {
        assert(w.rcu.callbacks + queued_by(steps) =~= handed_out(w, steps) + w.rcu.callbacks);
    } else {
        let less = steps.drop_last();
        let u = after_steps(w, less);
        let v = after_steps(w, steps);
        law_lists_are_all_that_was_queued(w, less);
        match steps.last() {
            Step::Queue(callback) => {
                assert(w.rcu.callbacks + queued_by(steps) =~= (w.rcu.callbacks + queued_by(
                    less,
                )).push(callback));
                assert(handed_out(w, steps) + v.rcu.callbacks =~= (handed_out(w, less)
                    + u.rcu.callbacks).push(callback));
            },
            Step::Take(gp) => {
                if let Some(version) = gp.old_head {
                    lemma_prefix_through(u.rcu.callbacks, of_version(version));
                }
                let n = queued_through(u.rcu.callbacks, gp.old_head) as int;
                assert(u.rcu.callbacks =~= u.rcu.callbacks.take(n) + u.rcu.callbacks.skip(n));
                assert(handed_out(w, steps) + v.rcu.callbacks =~= handed_out(w, less)
                    + u.rcu.callbacks);
            },
            _ => {
                assert(handed_out(w, steps) =~= handed_out(w, less));
            },
        }
    }
}

/// Whether a collection has taken `version`, and perhaps reclaimed it.
pub open spec fn is_gone<T>(s: RcuView<T>, version: u64) -> bool {
    s.ledger.taken.contains(version) || s.ledger.reclaimed.contains(version)
}

proof fn lemma_gone_stays<T>(w: World<T>, steps: Seq<Step<T>>, version: u64)
    requires
        all_possible(w, steps),
        is_gone(w.rcu, version),
    ensures
        is_gone(after_steps(w, steps).rcu, version),
    decreases steps.len(),
{
    if steps.len() > 0 {
        lemma_gone_stays(w, steps.drop_last(), version);
        let u = after_steps(w, steps.drop_last());
        if let Step::Process(callbacks) = steps.last() {
            let all = u.rcu.ledger.after_process(callbacks).reclaimed;
            let m = u.rcu.ledger.reclaimed.len() as int;
            if u.rcu.ledger.reclaimed.contains(version) {
                let k = choose|k: int| 0 <= k < m && u.rcu.ledger.reclaimed[k] == version;
                assert(all[k] == version);
            } else if holds_version(callbacks, version) {
                let k = choose|k: int|
                    0 <= k < callbacks.len() && (#[trigger] callbacks[k]).version == version;
                assert(all[m + (callbacks.len() - 1 - k)] == version);
            }
        }
    }
}

/// The lists that two collections are handed share no callback, however the collections
/// overlap; nor does a list share one with what is still queued in the end.
pub proof fn law_lists_are_disjoint<T>(w: World<T>, steps: Seq<Step<T>>, i: int, j: int, v: u64)
    requires
        accounted(w.rcu),
        all_possible(w, steps),
        0 <= i < j < steps.len(),
        holds_version(handed_by(after_steps(w, steps.take(i)), steps[i]), v),
    ensures
        !holds_version(handed_by(after_steps(w, steps.take(j)), steps[j]), v),
        !holds_version(after_steps(w, steps).rcu.callbacks, v),
{
    let first = after_steps(w, steps.take(i));
    let next = after_steps(w, steps.take(i + 1));
    assert(steps.take(i + 1).drop_last() =~= steps.take(i));
    assert(steps.take(i + 1).last() == steps[i]);
    assert(is_gone(next.rcu, v)) by {
        assert(steps[i] is Take);
        assert(versions_of(handed_by(first, steps[i])).contains(v));
    }
    // Once gone, a version is not on the queue any more.
    lemma_split(w, steps, i + 1);
    lemma_gone_stays(next, steps.skip(i + 1), v);
    law_every_run_keeps_account(w, steps);
    assert(places(after_steps(w, steps).rcu, v) <= 1);
    lemma_split(w, steps, j);
    lemma_split(w, steps.take(j), i + 1);
    assert(steps.take(j).take(i + 1) =~= steps.take(i + 1));
    lemma_gone_stays(next, steps.take(j).skip(i + 1), v);
    let second = after_steps(w, steps.take(j));
    law_every_run_keeps_account(w, steps.take(j));
    assert(places(second.rcu, v) <= 1);
    let list = handed_by(second, steps[j]);
    if holds_version(list, v) {
        let k = choose|k: int| 0 <= k < list.len() && (#[trigger] list[k]).version == v;
        if let Step::Take(gp) = steps[j] {
            if let Some(version) = gp.old_head {
                lemma_prefix_through(second.rcu.callbacks, of_version(version));
            }
            assert(second.rcu.callbacks[k].version == v);
            assert(holds_version(second.rcu.callbacks, v));
        }
    }
}

// What readers use.

/// All is well: every replaced version is in exactly one place; what readers use has not been
/// taken; readers show that they are in a critical section; collections remember only what was
/// replaced before they began; and of the periods that are over, no reader is in a section that
/// was open when they began.
pub open spec fn safe<T>(w: World<T>) -> bool {
    &&& accounted(w.rcu)
    &&& readers_safe(w.rcu, w.threads, w.held)
    &&& sections_shown(w.rcu, w.threads, w.held)
    &&& counters_behind(w.rcu, w.threads)
    &&& retired_behind(w.rcu)
    &&& w.rcu.sync_locked == (w.waiting is Some)
    &&& w.waiting matches Some(gp) ==> {
        &&& takes_only_old(w.rcu, gp)
        &&& gp.caller matches Some(at) ==> (is_reading(w.rcu, w.threads, w.held, at)
            ==> w.threads[at].local_counter > gp.old_counter)
    }
    &&& forall|gp: GracePeriodView| #[trigger]
        w.elapsed.contains(gp) ==> takes_only_old(w.rcu, gp) && readers_past(
            w.rcu,
            w.threads,
            w.held,
            gp.old_counter,
        )
}

/// Every step keeps all well.
pub proof fn law_every_step_is_safe<T>(w: World<T>, step: Step<T>)
    requires
        safe(w),
        possible(w, step),
    ensures
        safe(after_step(w, step)),
{
    let v = after_step(w, step);
    law_every_step_keeps_account(w, step);
    law_every_step_keeps_counters_behind(w, step);
    lemma_step_keeps_readers_safe(w, step);
    lemma_step_keeps_sections_shown(w, step);
    lemma_step_keeps_retired_behind(w, step);
    if let Some(gp) = v.waiting {
        if w.waiting == v.waiting {
            lemma_step_takes_only_old(w, step, gp);
            if let Some(at) = gp.caller {
                if is_reading(v.rcu, v.threads, v.held, at) && step != Step::<T>::Read(at) {
                    lemma_same_section(w, step, at);
                }
            }
        } else {
            lemma_begin_takes_only_old(w, gp.caller);
        }
    }
    assert forall|gp: GracePeriodView| #[trigger] v.elapsed.contains(gp) implies takes_only_old(
        v.rcu,
        gp,
    ) && readers_past(v.rcu, v.threads, v.held, gp.old_counter) by {
        if w.elapsed.contains(gp) {
            lemma_step_takes_only_old(w, step, gp);
            assert forall|x: usize| #[trigger] is_reading(
                v.rcu,
                v.threads,
                v.held,
                x,
            ) implies v.threads[x].local_counter > gp.old_counter by {
                if step != Step::<T>::Read(x) {
                    lemma_same_section(w, step, x);
                }
            }
        } else {
            lemma_step_takes_only_old(w, step, gp);
            law_elapsed_period_has_outlived_all_sections(
                v.rcu,
                v.threads,
                v.held,
                gp.old_counter,
                gp.caller,
            );
        }
    }
}

/// A thread that is reading after a step which is not its own read was reading before, and has
/// not announced anything since.
proof fn lemma_same_section<T>(w: World<T>, step: Step<T>, x: usize)
    requires
        possible(w, step),
        step != Step::<T>::Read(x),
        ({
            let v = after_step(w, step);
            is_reading(v.rcu, v.threads, v.held, x)
        }),
    ensures
        is_reading(w.rcu, w.threads, w.held, x),
        after_step(w, step).threads[x] == w.threads[x],
{
    let v = after_step(w, step);
    assert(v.rcu.threads.contains(x));
    match step {
        Step::Register(entry) => {
            let k = choose|k: int| 0 <= k < v.rcu.threads.len() && v.rcu.threads[k] == x;
            assert(x != entry.thread_data);
            assert(w.rcu.threads[k] == x);
        },
        Step::Clean => {
            w.rcu.threads.lemma_filter_contains_rev(active_in(w.threads), x);
        },
        _ => {},
    }
}

proof fn lemma_step_keeps_sections_shown<T>(w: World<T>, step: Step<T>)
    requires
        sections_shown(w.rcu, w.threads, w.held),
        possible(w, step),
    ensures
        ({
            let v = after_step(w, step);
            sections_shown(v.rcu, v.threads, v.held)
        }),
{
    let v = after_step(w, step);
    assert forall|x: usize| #[trigger]
        v.held.contains_key(x) && v.rcu.threads.contains(x) && v.threads.contains_key(
            x,
        ) implies v.threads[x].reading by {
        if step != Step::<T>::Read(x) {
            assert(w.held.contains_key(x));
            match step {
                Step::Register(_) => {
                    let k = choose|k: int| 0 <= k < v.rcu.threads.len() && v.rcu.threads[k] == x;
                    assert(w.rcu.threads[k] == x);
                },
                Step::Clean => {
                    w.rcu.threads.lemma_filter_contains_rev(active_in(w.threads), x);
                },
                _ => {},
            }
        }
    }
}

proof fn lemma_begin_takes_only_old<T>(w: World<T>, caller: Option<usize>)
    requires
        safe(w),
        possible(w, Step::<T>::Begin(caller)),
    ensures
        takes_only_old(w.rcu.after_begin(), w.rcu.snapshot(caller)),
        readers_safe(w.rcu.after_begin(), w.threads, w.held),
{
    let s = w.rcu;
    assert forall|i: int| 0 <= i < s.callbacks.len() implies (
    #[trigger] s.callbacks[i]).version < s.version && !s.ledger.unqueued.contains_key(
        s.callbacks[i].version,
    ) by {
        assert(holds_version(s.callbacks, s.callbacks[i].version));
        assert(places(s, s.callbacks[i].version) == 1);
    }
    law_begin_is_safe(s, w.threads, w.held, caller);
}

proof fn lemma_step_takes_only_old<T>(w: World<T>, step: Step<T>, gp: GracePeriodView)
    requires
        possible(w, step),
        takes_only_old(w.rcu, gp),
    ensures
        takes_only_old(after_step(w, step).rcu, gp),
{
    let v = after_step(w, step);
    match step {
        Step::Replace(data) => {
            let callback = Callback { version: 0, data, retired_at: Ghost(0usize) };
            law_writes_are_not_taken(w.rcu, gp, data, callback);
        },
        Step::Queue(callback) => law_writes_are_not_taken(
            w.rcu,
            gp,
            callback.data,
            callback,
        ),
        Step::Take(other) => law_taking_leaves_only_old(w.rcu, gp, other.old_head),
        _ => {
            assert(v.rcu.callbacks == w.rcu.callbacks);
            assert(v.rcu.ledger.unqueued == w.rcu.ledger.unqueued);
        },
    }
}

proof fn lemma_step_keeps_retired_behind<T>(w: World<T>, step: Step<T>)
    requires
        safe(w),
        possible(w, step),
    ensures
        retired_behind(after_step(w, step).rcu),
{
    let v = after_step(w, step);
    assert forall|i: int| 0 <= i < v.rcu.callbacks.len() implies (
    #[trigger] v.rcu.callbacks[i]).retired_at@ <= v.rcu.counter by {
        match step {
            Step::Queue(callback) => {
                if i < w.rcu.callbacks.len() {
                    assert(v.rcu.callbacks[i] == w.rcu.callbacks[i]);
                }
            },
            Step::Take(gp) => {
                if let Some(version) = gp.old_head {
                    lemma_prefix_through(w.rcu.callbacks, of_version(version));
                }
                let n = queued_through(w.rcu.callbacks, gp.old_head) as int;
                assert(v.rcu.callbacks[i] == w.rcu.callbacks[i + n]);
            },
            _ => {
                assert(v.rcu.callbacks[i] == w.rcu.callbacks[i]);
            },
        }
    }
    assert forall|u: u64| #[trigger]
        v.rcu.ledger.unqueued.contains_key(u) implies v.rcu.ledger.unqueued[u]
        <= v.rcu.counter by {
        if u != w.rcu.version || !(step is Replace) {
            assert(w.rcu.ledger.unqueued.contains_key(u));
        }
    }
}

proof fn lemma_step_keeps_readers_safe<T>(w: World<T>, step: Step<T>)
    requires
        safe(w),
        possible(w, step),
    ensures
        ({
            let v = after_step(w, step);
            readers_safe(v.rcu, v.threads, v.held)
        }),
{
    let s = w.rcu;
    let v = after_step(w, step);
    match step {
        Step::Read(at) => law_read_is_safe(s, w.threads, w.held, at, 0),
        Step::Quiesce(at) => law_quiescent_state_is_safe(s, w.threads, w.held, at),
        Step::Unregister(at) => law_unregister_is_safe(s, w.threads, w.held, at),
        Step::Register(entry) => law_register_is_safe(s, w.threads, w.held, entry),
        Step::Replace(data) => {
            assert(places(s, s.version) == 0);
            law_replace_is_safe(s, w.threads, w.held, data);
        },
        Step::Queue(callback) => law_queue_is_safe(s, w.threads, w.held, callback),
        Step::Begin(caller) => {
            lemma_begin_takes_only_old(w, caller);
            if let Some(at) = caller {
                let t = s.after_begin();
                assert forall|x: usize| #[trigger] is_reading(t, v.threads, v.held, x) implies {
                    ||| v.held[x] == t.version
                    ||| is_queued_for(t, v.held[x], v.threads[x].local_counter)
                    ||| is_unqueued_for(t, v.held[x], v.threads[x].local_counter)
                } by {
                    assert(x != at);
                    assert(is_reading(t, w.threads, w.held, x));
                }
            }
        },
        Step::Take(gp) => law_take_is_safe(s, w.threads, w.held, gp),
        _ => {
            assert forall|x: usize| #[trigger] is_reading(v.rcu, v.threads, v.held, x) implies {
                ||| v.held[x] == v.rcu.version
                ||| is_queued_for(v.rcu, v.held[x], v.threads[x].local_counter)
                ||| is_unqueued_for(v.rcu, v.held[x], v.threads[x].local_counter)
            } by {
                lemma_same_section(w, step, x);
                let counter = w.threads[x].local_counter;
                if is_queued_for(s, w.held[x], counter) {
                    let i = choose|i: int|
                        0 <= i < s.callbacks.len() && (#[trigger] s.callbacks[i]).version
                            == w.held[x] && counter <= s.callbacks[i].retired_at@;
                    assert(v.rcu.callbacks[i].version == v.held[x]);
                }
            }
        },
    }
}

/// However the steps of readers, writers and collections interleave, no reader loses the value
/// it uses: nothing is taken, and so nothing is reclaimed, while a critical section that was open
/// when it was replaced is open still.
pub proof fn law_every_run_is_safe<T>(w: World<T>, steps: Seq<Step<T>>)
    requires
        safe(w),
        all_possible(w, steps),
    ensures
        safe(after_steps(w, steps)),
    decreases steps.len(),
{
    if steps.len() > 0 {
        law_every_run_is_safe(w, steps.drop_last());
        law_every_step_is_safe(after_steps(w, steps.drop_last()), steps.last());
    }
}

/// Whether `step` is one in which the thread at `at` itself announces something or leaves.
pub open spec fn is_word_of<T>(step: Step<T>, at: usize) -> bool {
    match step {
        Step::Read(x) => x == at,
        Step::Quiesce(x) => x == at,
        Step::Unregister(x) => x == at,
        Step::Begin(caller) => caller == Some(at),
        _ => false,
    }
}

/// A listed active thread that has entered a critical section stays listed and active, showing
/// the counter at which it entered, until it announces something else or leaves, whatever the
/// others do. So long, no grace period that began at that counter or later is over, but for one
/// of its own.
pub proof fn law_reader_is_waited_for_until_it_speaks<T>(
    w: World<T>,
    at: usize,
    steps: Seq<Step<T>>,
)
    requires
        w.rcu.threads.contains(at),
        w.threads.contains_key(at),
        w.threads[at].active,
        all_possible(after_step(w, Step::Read(at)), steps),
        forall|i: int| 0 <= i < steps.len() ==> !is_word_of(#[trigger] steps[i], at),
    ensures
        ({
            let v = after_steps(after_step(w, Step::Read(at)), steps);
            &&& v.rcu.threads.contains(at)
            &&& v.threads.contains_key(at)
            &&& v.threads[at].active
            &&& v.threads[at].reading
            &&& v.threads[at].local_counter == w.rcu.counter
            &&& v.waiting matches Some(gp) ==> (gp.old_counter >= w.rcu.counter && gp.caller
                != Some(at) ==> !possible(v, Step::Release))
        }),
    decreases steps.len(),
{
    let entered = after_step(w, Step::Read(at));
    let v = after_steps(entered, steps);
    if steps.len() > 0 {
        let less = steps.drop_last();
        assert forall|i: int| 0 <= i < less.len() implies !is_word_of(#[trigger] less[i], at) by {
            assert(less[i] == steps[i]);
        }
        law_reader_is_waited_for_until_it_speaks(w, at, less);
        let u = after_steps(entered, less);
        assert(!is_word_of(steps[steps.len() - 1], at));
        let k = choose|k: int| 0 <= k < u.rcu.threads.len() && u.rcu.threads[k] == at;
        match steps.last() {
            Step::Register(_) => {
                assert(v.rcu.threads[k] == at);
            },
            Step::Clean => {
                assert(active_in(u.threads)(u.rcu.threads[k]));
                u.rcu.threads.lemma_filter_contains(active_in(u.threads), k);
            },
            _ => {},
        }
    }
    if let Some(gp) = v.waiting {
        if gp.old_counter >= w.rcu.counter && gp.caller != Some(at) {
            law_lagging_thread_is_waited_for(
                v.threads,
                v.rcu.threads,
                gp.old_counter,
                gp.caller,
                at,
            );
        }
    }
}

/// Where all is well, a reader's value has not been reclaimed, nor has a collection taken it.
pub proof fn law_readers_value_is_not_reclaimed<T>(w: World<T>, at: usize)
    requires
        safe(w),
        is_reading(w.rcu, w.threads, w.held, at),
    ensures
        !w.rcu.ledger.reclaimed.contains(w.held[at]),
        !w.rcu.ledger.taken.contains(w.held[at]),
{
    let version = w.held[at];
    let counter = w.threads[at].local_counter;
    assert(places(w.rcu, version) <= 1);
    if version == w.rcu.version {
        assert(places(w.rcu, version) == 0);
    } else if is_queued_for(w.rcu, version, counter) {
        let i = choose|i: int|
            0 <= i < w.rcu.callbacks.len() && (#[trigger] w.rcu.callbacks[i]).version == version
                && counter <= w.rcu.callbacks[i].retired_at@;
        assert(holds_version(w.rcu.callbacks, version));
    }
}

/// A new instance, with threads that have announced nothing and read nothing, is well.
pub proof fn law_new_is_safe<T>(w: World<T>)
    requires
        w.rcu.version == 0,
        w.rcu.callbacks.len() == 0,
        w.rcu.ledger == Ledger::empty(),
        !w.rcu.sync_locked,
        w.held == Map::<usize, u64>::empty(),
        w.waiting is None,
        w.elapsed == Set::<GracePeriodView>::empty(),
        forall|at: usize|
            #[trigger] w.rcu.threads.contains(at) && w.threads.contains_key(at)
                ==> w.threads[at].local_counter == 0,
    ensures
        safe(w),
{
    law_new_is_accounted(w.rcu);
}

// The operations are runs.

/// A write is a run: the writer replaces the value, and then queues the old one.
pub proof fn law_write_is_a_run<T>(w: World<T>, data: T)
    requires
        w.rcu.version < u64::MAX,
    ensures
        ({
            let steps = seq![Step::Replace(data), Step::Queue(w.rcu.replaced())];
            &&& all_possible(w, steps)
            &&& after_steps(w, steps) == (World { rcu: w.rcu.after_write(data), ..w })
        }),
{
    let steps = seq![Step::Replace(data), Step::Queue(w.rcu.replaced())];
    lemma_extend(w, Seq::empty(), steps[0]);
    lemma_extend(w, seq![steps[0]], steps[1]);
    assert(Seq::empty().push(steps[0]) =~= seq![steps[0]]);
    assert(seq![steps[0]].push(steps[1]) =~= steps);
}

/// A wait that hands out callbacks is a run: nobody holds the period up, and what is handed out
/// is what the period remembers. So no reader loses the value it uses.
pub proof fn law_wait_is_a_run<T>(
    w: World<T>,
    gp: GracePeriodView,
    after: RcuView<T>,
    status: SyncStatus<T>,
)
    requires
        w.waiting == Some(gp),
        synchronized(w.rcu, gp, w.threads, after, status),
        status is Safe,
    ensures
        ({
            let steps = seq![Step::<T>::Release, Step::Take(gp)];
            &&& all_possible(w, steps)
            &&& after_steps(w, steps).rcu == after
            &&& after_steps(w, steps).threads == w.threads
            &&& status->Safe_0@ == handed_by(after_step(w, Step::Release), Step::Take(gp))
        }),
{
    let one = seq![Step::<T>::Release];
    let two = seq![Step::<T>::Release, Step::Take(gp)];
    lemma_extend(w, Seq::empty(), Step::Release);
    assert(Seq::empty().push(Step::<T>::Release) =~= one);
    lemma_extend(w, one, Step::Take(gp));
    assert(one.push(Step::Take(gp)) =~= two);
}

/// The end of a reclamation that has waited for the readers of the instance and of the domain is
/// a run, so that no reader loses the value it uses.
pub proof fn law_call_rcu_is_a_run<T>(
    w: World<T>,
    gp: GracePeriodView,
    domain: DomainView,
    domain_gp: DomainGracePeriodView,
    after: RcuView<T>,
    status: CallStatus,
)
    requires
        accounted(w.rcu),
        w.waiting == Some(gp),
        called(w.rcu, gp, w.threads, domain, domain_gp, after, status),
        status is Done,
    ensures
        ({
            let steps = seq![
                Step::Release,
                Step::Take(gp),
                Step::Process(w.rcu.safe_callbacks(gp.old_head)),
            ];
            &&& all_possible(w, steps)
            &&& after_steps(w, steps).rcu == after
            &&& after_steps(w, steps).threads == w.threads
        }),
{
    let callbacks = w.rcu.safe_callbacks(gp.old_head);
    let one = seq![Step::<T>::Release];
    let two = seq![Step::<T>::Release, Step::Take(gp)];
    let three = seq![Step::Release, Step::Take(gp), Step::Process(callbacks)];
    lemma_extend(w, Seq::empty(), Step::Release);
    assert(Seq::empty().push(Step::<T>::Release) =~= one);
    lemma_extend(w, one, Step::Take(gp));
    assert(one.push(Step::Take(gp)) =~= two);
    lemma_extend(w, two, Step::Process(callbacks));
    assert(two.push(Step::Process(callbacks)) =~= three);
    let released = after_step(w, Step::Release);
    law_every_step_keeps_account(w, Step::Release);
    law_take_keeps_account(released.rcu, gp.old_head);
}

/// The end of a collection is a run, so that no reader loses the value it uses.
pub proof fn law_collection_is_a_run<T>(
    w: World<T>,
    gp: GracePeriodView,
    registry: RegistryView,
    after: RcuView<T>,
    registry_after: RegistryView,
    status: GcStatus,
)
    requires
        accounted(w.rcu),
        w.waiting == Some(gp),
        w.threads == registry.threads,
        collected(w.rcu, gp, registry, after, registry_after, status),
        status is Done,
    ensures
        ({
            let steps = seq![
                Step::Release,
                Step::Take(gp),
                Step::Process(w.rcu.safe_callbacks(gp.old_head)),
                Step::Clean,
            ];
            &&& all_possible(w, steps)
            &&& after_steps(w, steps).rcu == after
            &&& after_steps(w, steps).threads == registry_after.threads
        }),
{
    let callbacks = w.rcu.safe_callbacks(gp.old_head);
    let one = seq![Step::<T>::Release];
    let two = seq![Step::<T>::Release, Step::Take(gp)];
    let three = seq![Step::Release, Step::Take(gp), Step::Process(callbacks)];
    let four = seq![Step::Release, Step::Take(gp), Step::Process(callbacks), Step::Clean];
    lemma_extend(w, Seq::empty(), Step::Release);
    assert(Seq::empty().push(Step::<T>::Release) =~= one);
    lemma_extend(w, one, Step::Take(gp));
    assert(one.push(Step::Take(gp)) =~= two);
    lemma_extend(w, two, Step::Process(callbacks));
    assert(two.push(Step::Process(callbacks)) =~= three);
    lemma_extend(w, three, Step::Clean);
    assert(three.push(Step::Clean) =~= four);
    let released = after_step(w, Step::Release);
    law_every_step_keeps_account(w, Step::Release);
    law_take_keeps_account(released.rcu, gp.old_head);
}

proof fn lemma_extend<T>(w: World<T>, steps: Seq<Step<T>>, step: Step<T>)
    ensures
        after_steps(w, steps.push(step)) == after_step(after_steps(w, steps), step),
        all_possible(w, steps.push(step)) == (all_possible(w, steps) && possible(
            after_steps(w, steps),
            step,
        )),
        steps.len() == 0 ==> after_steps(w, steps) == w && all_possible(w, steps),
{
    assert(steps.push(step).drop_last() =~= steps);
}

} // verus!
