//! Laws of registration, and of instances that share threads.
use vstd::prelude::*;

use crate::latest::{lemma_prefix_through, lemma_prefix_through_is, prefix_through};
use crate::rcu::{new_instance, registered, RcuView};
use crate::registry::{
    active_in, cleaned, is_active, lemma_without_subset, with_announcement, with_inactive,
    RegistryView, Threads,
};
use crate::storage::{
    lookup, of_instance, of_other_instances, one_per_instance, other_entries, points_to,
    same_entry, without, ThreadLocalStorage,
};

verus! {

// One thread and one instance.

/// A thread registers once: right after, its entry is found, so that registering again changes
/// nothing.
pub proof fn law_registers_once(registry: RegistryView, thread: usize, rcu_id: usize, at: usize)
    requires
        thread < registry.storages.len(),
    ensures
        lookup(registry.after_register(thread, rcu_id, at).entries(thread), rcu_id) == Some(
            ThreadLocalStorage { thread_data: at, rcu_id },
        ),
{
    let entries = registry.after_register(thread, rcu_id, at).entries(thread);
    lemma_prefix_through_is(entries, of_instance(rcu_id), entries.len());
}

/// Unregistering right after registering gives the thread its entries back as they were, and
/// leaves its data inactive; once that is cleaned up, the registry is as before.
pub proof fn law_unregister_undoes_register(
    registry: RegistryView,
    thread: usize,
    rcu_id: usize,
    at: usize,
)
    requires
        thread < registry.storages.len(),
        !registry.threads.contains_key(at),
    ensures
        ({
            let left = registry.after_register(thread, rcu_id, at).after_unregister(
                thread,
                rcu_id,
            );
            &&& left.storages == registry.storages
            &&& left.threads.contains_key(at)
            &&& !left.threads[at].active
            &&& left.after_clean(seq![at]) == registry
        }),
{
    let there = registry.after_register(thread, rcu_id, at);
    let left = there.after_unregister(thread, rcu_id);
    let entry = ThreadLocalStorage { thread_data: at, rcu_id };
    law_registers_once(registry, thread, rcu_id, at);
    let entries = there.entries(thread);
    lemma_prefix_through_is(entries, same_entry(entry), entries.len());
    assert(without(entries, entry) =~= registry.entries(thread));
    assert(left.storages =~= registry.storages);
    assert(seq![at][0] == at);
    assert(left.after_clean(seq![at]).threads =~= registry.threads);
}

/// After unregistering, a thread has no entry for the instance, and the entries it has for
/// others are as before.
pub proof fn law_unregister_leaves_no_entry(
    entries: Seq<ThreadLocalStorage>,
    rcu_id: usize,
)
    requires
        one_per_instance(entries),
        lookup(entries, rcu_id) is Some,
    ensures
        ({
            let rest = without(entries, lookup(entries, rcu_id)->0);
            &&& lookup(rest, rcu_id) is None
            &&& rest == other_entries(entries, rcu_id)
            &&& forall|other: usize|
                other != rcu_id ==> #[trigger] lookup(rest, other) == lookup(entries, other)
        }),
{
    lemma_prefix_through(entries, of_instance(rcu_id));
    let entry = lookup(entries, rcu_id)->0;
    let k = prefix_through(entries, of_instance(rcu_id)) as int;
    assert forall|j: int| k <= j < entries.len() implies !same_entry(entry)(
        #[trigger] entries[j],
    ) by {
        assert(!of_instance(rcu_id)(entries[j]));
    }
    lemma_prefix_through_is(entries, same_entry(entry), k as nat);
    let rest = without(entries, entry);
    assert(rest == entries.remove(k - 1));
    assert forall|j: int| 0 <= j < entries.len() && j != k - 1 implies of_other_instances(rcu_id)(
        #[trigger] entries[j],
    ) by {
        if j < k - 1 {
            assert(entries[j].rcu_id != entries[k - 1].rcu_id);
        } else {
            assert(entries[k - 1].rcu_id != entries[j].rcu_id);
        }
    }
    lemma_filter_but_one(entries, of_other_instances(rcu_id), k - 1);
    crate::storage::lemma_other_entries(entries, rcu_id);
    assert forall|other: usize| other != rcu_id implies #[trigger] lookup(rest, other) == lookup(
        entries,
        other,
    ) by {
        let m = prefix_through(entries, of_instance(other)) as int;
        lemma_prefix_through(entries, of_instance(other));
        let q = if m < k {
            m
        } else {
            m - 1
        };
        assert(m > 0 ==> m != k);
        assert forall|j: int| q <= j < rest.len() implies !of_instance(other)(
            #[trigger] rest[j],
        ) by {
            if j < k - 1 {
                assert(rest[j] == entries[j]);
            } else {
                assert(rest[j] == entries[j + 1]);
            }
        }
        if m > 0 {
            assert(rest[q - 1] == entries[m - 1]);
        }
        lemma_prefix_through_is(rest, of_instance(other), q as nat);
    }
}

proof fn lemma_filter_all<A>(s: Seq<A>, p: spec_fn(A) -> bool)
    requires
        forall|j: int| 0 <= j < s.len() ==> p(#[trigger] s[j]),
    ensures
        s.filter(p) == s,
    decreases s.len(),
{
    reveal(Seq::filter);
    if s.len() > 0 {
        let t = s.drop_last();
        assert forall|j: int| 0 <= j < t.len() implies p(#[trigger] t[j]) by {
            assert(t[j] == s[j]);
        }
        lemma_filter_all(t, p);
        assert(p(s[s.len() - 1]));
        assert(t.push(s.last()) =~= s);
    }
}

proof fn lemma_filter_but_one<A>(s: Seq<A>, p: spec_fn(A) -> bool, k: int)
    requires
        0 <= k < s.len(),
        !p(s[k]),
        forall|j: int| 0 <= j < s.len() && j != k ==> p(#[trigger] s[j]),
    ensures
        s.filter(p) == s.remove(k),
    decreases s.len(),
{
    reveal(Seq::filter);
    let t = s.drop_last();
    if k == s.len() - 1 {
        assert forall|j: int| 0 <= j < t.len() implies p(#[trigger] t[j]) by {
            assert(t[j] == s[j]);
        }
        lemma_filter_all(t, p);
        assert(s.remove(k) =~= t);
    } else {
        assert forall|j: int| 0 <= j < t.len() && j != k implies p(#[trigger] t[j]) by {
            assert(t[j] == s[j]);
        }
        lemma_filter_but_one(t, p, k);
        assert(p(s[s.len() - 1]));
        assert(t.remove(k).push(s.last()) =~= s.remove(k));
    }
}

/// Dropping an instance takes exactly its entry from a thread; the others stay, in order.
pub proof fn law_drop_keeps_other_entries(
    registry: RegistryView,
    rcu_id: usize,
    list: Seq<usize>,
    thread: usize,
)
    requires
        one_per_instance(registry.entries(thread)),
    ensures
        registry.after_release(rcu_id, list).entries(thread) == match lookup(
            registry.entries(thread),
            rcu_id,
        ) {
            Some(entry) => without(registry.entries(thread), entry),
            None => registry.entries(thread),
        },
        forall|other: usize|
            other != rcu_id ==> #[trigger] lookup(
                registry.after_release(rcu_id, list).entries(thread),
                other,
            ) == lookup(registry.entries(thread), other),
{
    let entries = registry.entries(thread);
    match lookup(entries, rcu_id) {
        Some(entry) => law_unregister_leaves_no_entry(entries, rcu_id),
        None => {
            lemma_prefix_through(entries, of_instance(rcu_id));
            assert forall|j: int| 0 <= j < entries.len() implies of_other_instances(rcu_id)(
                #[trigger] entries[j],
            ) by {
                assert(!of_instance(rcu_id)(entries[j]));
            }
            lemma_filter_all(entries, of_other_instances(rcu_id));
        },
    }
    if thread >= registry.storages.len() {
        assert(registry.after_release(rcu_id, list).entries(thread) =~= entries);
    }
}

/// Creating an instance and dropping it, with nobody else registered, leaves thread data and
/// every thread's entries as they were.
pub proof fn law_create_then_drop_restores(
    registry: RegistryView,
    thread: usize,
    rcu_id: usize,
    at: usize,
)
    requires
        thread < registry.storages.len(),
        !registry.threads.contains_key(at),
        forall|t: int|
            0 <= t < registry.storages.len() ==> lookup(
                #[trigger] registry.storages[t],
                rcu_id,
            ) is None,
    ensures
        registry.after_register(thread, rcu_id, at).after_release(rcu_id, seq![at]) == registry,
{
    let there = registry.after_register(thread, rcu_id, at);
    let gone = there.after_release(rcu_id, seq![at]);
    let keep = of_other_instances(rcu_id);
    assert(seq![at][0] == at);
    assert(gone.threads =~= registry.threads);
    assert forall|t: int| 0 <= t < registry.storages.len() implies gone.storages[t]
        == registry.storages[t] by {
        assert forall|j: int| 0 <= j < registry.storages[t].len() implies keep(
            #[trigger] registry.storages[t][j],
        ) by {
            lemma_prefix_through(registry.storages[t], of_instance(rcu_id));
            assert(!of_instance(rcu_id)(registry.storages[t][j]));
        }
        if t == thread {
            let entries = there.storages[t];
            assert(entries.drop_last() =~= registry.storages[t]);
            lemma_filter_all(registry.storages[t], keep);
            reveal(Seq::filter);
        } else {
            lemma_filter_all(registry.storages[t], keep);
        }
    }
    assert(gone.storages =~= registry.storages);
}

// The registry as a whole.

/// The identifier that the registry hands out `k` instances after `first`.
pub open spec fn identifier_after(first: usize, k: nat) -> usize
    decreases k,
{
    if k == 0 {
        first
    } else {
        identifier_after(first, (k - 1) as nat).wrapping_add(1)
    }
}

/// Instances have different identifiers, as long as the counter has not gone round once between
/// them.
pub proof fn law_identifiers_are_unique(first: usize, k: nat)
    requires
        0 < k <= usize::MAX,
    ensures
        identifier_after(first, k) != first,
{
    lemma_identifier_after(first, k);
}

proof fn lemma_identifier_after(first: usize, k: nat)
    requires
        k <= usize::MAX,
    ensures
        identifier_after(first, k) == (if first + k <= usize::MAX {
            first + k
        } else {
            first + k - usize::MAX - 1
        }),
    decreases k,
{
    if k > 0 {
        lemma_identifier_after(first, (k - 1) as nat);
    }
}

/// Entries of different instances, that point to different data.
pub open spec fn apart(entries: Seq<ThreadLocalStorage>) -> bool {
    forall|i: int, j: int|
        0 <= i < j < entries.len() ==> (#[trigger] entries[i]).rcu_id != (
        #[trigger] entries[j]).rcu_id && entries[i].thread_data != entries[j].thread_data
}

/// No two entries of the process point to the same thread data, and none points to data that
/// belongs to another; a thread has one entry per instance; and no entry is for an instance that
/// is yet to come.
pub open spec fn tidy(registry: RegistryView) -> bool {
    &&& forall|t: int| 0 <= t < registry.storages.len() ==> apart(#[trigger] registry.storages[t])
    &&& forall|t: int, u: int, at: usize|
        0 <= t < registry.storages.len() && 0 <= u < registry.storages.len() && t != u ==> !(
        #[trigger] points_to(registry.storages[t], at) && #[trigger] points_to(
            registry.storages[u],
            at,
        ))
    &&& forall|t: int, i: int|
        0 <= t < registry.storages.len() && 0 <= i < registry.storages[t].len() ==> entry_fits(
            registry,
            #[trigger] registry.storages[t][i],
        )
}

/// `entry` is for an instance there has been, and the data it points to, if in use, points back.
pub open spec fn entry_fits(registry: RegistryView, entry: ThreadLocalStorage) -> bool {
    &&& entry.rcu_id < registry.next_rcu_id
    &&& registry.threads.contains_key(entry.thread_data)
        ==> registry.threads[entry.thread_data].tls_ptr == Some(entry)
}

/// A step of some thread on the registry.
pub enum RegistryStep {
    /// A thread starts.
    AddThread,
    /// An instance gets its identifier.
    NewInstance,
    /// The thread registers with the instance; its data stands at the address.
    Register(usize, usize, usize),
    /// The thread announces the counter to the instance, on entering a critical section or not.
    Announce(usize, usize, usize, bool),
    /// The thread leaves the instance.
    Unregister(usize, usize),
    /// The thread stops taking part anywhere.
    DropThreadData(usize),
    /// A collection cleans up the listed threads.
    Clean(Seq<usize>),
    /// The instance, which lists the threads, is dropped.
    Release(usize, Seq<usize>),
}

/// Whether the step can be taken: a thread registers only where it has no entry, with an
/// instance there has been, at an address that is free; and identifiers do not wrap around.
pub open spec fn possible(registry: RegistryView, step: RegistryStep) -> bool {
    match step {
        RegistryStep::NewInstance => registry.next_rcu_id < usize::MAX,
        RegistryStep::Register(thread, rcu_id, at) => {
            &&& thread < registry.storages.len()
            &&& rcu_id < registry.next_rcu_id
            &&& lookup(registry.entries(thread), rcu_id) is None
            &&& !registry.threads.contains_key(at)
            &&& !registry.is_named(at)
        },
        _ => true,
    }
}

/// The registry after `step`.
pub open spec fn after_step(registry: RegistryView, step: RegistryStep) -> RegistryView {
    match step {
        RegistryStep::AddThread => RegistryView {
            storages: registry.storages.push(Seq::empty()),
            ..registry
        },
        RegistryStep::NewInstance => RegistryView {
            next_rcu_id: registry.next_rcu_id.wrapping_add(1),
            ..registry
        },
        RegistryStep::Register(thread, rcu_id, at) => registry.after_register(thread, rcu_id, at),
        RegistryStep::Announce(thread, rcu_id, counter, reading) => registry.after_announce(
            thread,
            rcu_id,
            counter,
            reading,
        ),
        RegistryStep::Unregister(thread, rcu_id) => registry.after_unregister(thread, rcu_id),
        RegistryStep::DropThreadData(thread) => registry.after_drop_thread_data(thread),
        RegistryStep::Clean(list) => registry.after_clean(list),
        RegistryStep::Release(rcu_id, list) => registry.after_release(rcu_id, list),
    }
}

/// A new registry is tidy.
pub proof fn law_new_registry_is_tidy(registry: RegistryView)
    requires
        registry.storages.len() == 0,
    ensures
        tidy(registry),
{
}

/// Every step keeps the registry tidy: an address that some entry still names is not handed out
/// again, so no thread ever announces, or leaves, for another.
pub proof fn law_every_step_keeps_tidy(registry: RegistryView, step: RegistryStep)
    requires
        tidy(registry),
        possible(registry, step),
    ensures
        tidy(after_step(registry, step)),
{
    let after = after_step(registry, step);
    match step {
        RegistryStep::AddThread => lemma_add_keeps_tidy(registry),
        RegistryStep::Register(thread, rcu_id, at) => lemma_register_keeps_tidy(
            registry,
            thread,
            rcu_id,
            at,
        ),
        RegistryStep::Unregister(thread, rcu_id) => {
            assert forall|t: int| 0 <= t < after.storages.len() implies apart(
                #[trigger] after.storages[t],
            ) && fewer(after.storages[t], registry.storages[t]) by {
                lemma_fewer_itself(registry.storages[t]);
                if t == thread {
                    if let Some(entry) = lookup(registry.entries(thread), rcu_id) {
                        lemma_without_is_fewer(registry.storages[t], entry);
                    }
                }
            }
            lemma_fewer_is_tidy(registry, after);
        },
        RegistryStep::Release(rcu_id, list) => {
            assert forall|t: int| 0 <= t < after.storages.len() implies apart(
                #[trigger] after.storages[t],
            ) && fewer(after.storages[t], registry.storages[t]) by {
                lemma_other_entries_is_fewer(registry.storages[t], rcu_id);
            }
            lemma_fewer_is_tidy(registry, after);
        },
        _ => {
            assert forall|t: int| 0 <= t < after.storages.len() implies apart(
                #[trigger] after.storages[t],
            ) && fewer(after.storages[t], registry.storages[t]) by {
                lemma_fewer_itself(registry.storages[t]);
            }
            lemma_fewer_is_tidy(registry, after);
        },
    }
}

/// Every entry of `some` is among `all`.
spec fn fewer(some: Seq<ThreadLocalStorage>, all: Seq<ThreadLocalStorage>) -> bool {
    forall|i: int| 0 <= i < some.len() ==> all.contains(#[trigger] some[i])
}

proof fn lemma_fewer_itself(all: Seq<ThreadLocalStorage>)
    ensures
        fewer(all, all),
{
}

proof fn lemma_without_is_fewer(all: Seq<ThreadLocalStorage>, entry: ThreadLocalStorage)
    requires
        apart(all),
    ensures
        apart(without(all, entry)),
        fewer(without(all, entry), all),
{
    let k = prefix_through(all, same_entry(entry)) as int;
    lemma_prefix_through(all, same_entry(entry));
    let rest = without(all, entry);
    assert forall|i: int| 0 <= i < rest.len() implies all.contains(#[trigger] rest[i]) by {
        let j = lemma_without_subset(all, entry, i);
        assert(all[j] == rest[i]);
    }
    if k > 0 {
        assert forall|i: int, j: int| 0 <= i < j < rest.len() implies (
        #[trigger] rest[i]).rcu_id != (#[trigger] rest[j]).rcu_id && rest[i].thread_data
            != rest[j].thread_data by {
            let a = if i < k - 1 {
                i
            } else {
                i + 1
            };
            let b = if j < k - 1 {
                j
            } else {
                j + 1
            };
            assert(rest[i] == all[a]);
            assert(rest[j] == all[b]);
        }
    }
}

proof fn lemma_other_entries_is_fewer(all: Seq<ThreadLocalStorage>, rcu_id: usize)
    requires
        apart(all),
    ensures
        apart(other_entries(all, rcu_id)),
        fewer(other_entries(all, rcu_id), all),
    decreases all.len(),
{
    reveal(Seq::filter);
    let rest = other_entries(all, rcu_id);
    assert forall|i: int| 0 <= i < rest.len() implies all.contains(#[trigger] rest[i]) by {
        assert(rest.contains(rest[i]));
        all.lemma_filter_contains_rev(of_other_instances(rcu_id), rest[i]);
    }
    if all.len() > 0 {
        let less = all.drop_last();
        assert forall|i: int, j: int| 0 <= i < j < less.len() implies (
        #[trigger] less[i]).rcu_id != (#[trigger] less[j]).rcu_id && less[i].thread_data
            != less[j].thread_data by {
            assert(less[i] == all[i] && less[j] == all[j]);
        }
        lemma_other_entries_is_fewer(less, rcu_id);
        let kept = other_entries(less, rcu_id);
        assert forall|i: int, j: int| 0 <= i < j < rest.len() implies (
        #[trigger] rest[i]).rcu_id != (#[trigger] rest[j]).rcu_id && rest[i].thread_data
            != rest[j].thread_data by {
            assert(rest[i] == kept[i]);
            if j < kept.len() {
                assert(rest[j] == kept[j]);
            } else {
                assert(less.contains(kept[i]));
                let m = choose|m: int| 0 <= m < less.len() && less[m] == kept[i];
                assert(all[m] == rest[i]);
                assert(all[all.len() - 1] == rest[j]);
            }
        }
    }
}

proof fn lemma_fewer_is_tidy(registry: RegistryView, after: RegistryView)
    requires
        tidy(registry),
        after.storages.len() == registry.storages.len(),
        forall|t: int|
            0 <= t < after.storages.len() ==> apart(#[trigger] after.storages[t]) && fewer(
                after.storages[t],
                registry.storages[t],
            ),
        after.next_rcu_id >= registry.next_rcu_id,
        forall|at: usize| #[trigger]
            after.threads.contains_key(at) ==> registry.threads.contains_key(at)
                && after.threads[at].tls_ptr == registry.threads[at].tls_ptr,
    ensures
        tidy(after),
{
    assert forall|t: int, i: int|
        0 <= t < after.storages.len() && 0 <= i < after.storages[t].len() implies entry_fits(
        after,
        #[trigger] after.storages[t][i],
    ) by {
        let e = after.storages[t][i];
        assert(fewer(after.storages[t], registry.storages[t]));
        assert(registry.storages[t].contains(e));
        let j = choose|j: int| 0 <= j < registry.storages[t].len() && registry.storages[t][j] == e;
        assert(entry_fits(registry, registry.storages[t][j]));
    }
    assert forall|t: int, u: int, at: usize|
        0 <= t < after.storages.len() && 0 <= u < after.storages.len() && t != u implies !(
    #[trigger] points_to(after.storages[t], at) && #[trigger] points_to(
        after.storages[u],
        at,
    )) by {
        lemma_fewer_points_to(after.storages[t], registry.storages[t], at);
        lemma_fewer_points_to(after.storages[u], registry.storages[u], at);
    }
}

proof fn lemma_fewer_points_to(
    some: Seq<ThreadLocalStorage>,
    all: Seq<ThreadLocalStorage>,
    at: usize,
)
    requires
        fewer(some, all),
    ensures
        points_to(some, at) ==> points_to(all, at),
{
    if points_to(some, at) {
        let i = choose|i: int| 0 <= i < some.len() && (#[trigger] some[i]).thread_data == at;
        assert(all.contains(some[i]));
        let j = choose|j: int| 0 <= j < all.len() && all[j] == some[i];
        assert(all[j].thread_data == at);
    }
}

proof fn lemma_add_keeps_tidy(registry: RegistryView)
    requires
        tidy(registry),
    ensures
        tidy(after_step(registry, RegistryStep::AddThread)),
{
    let after = after_step(registry, RegistryStep::AddThread);
    let n = registry.storages.len() as int;
    assert forall|t: int| 0 <= t < after.storages.len() implies apart(
        #[trigger] after.storages[t],
    ) by {
        if t < n {
            assert(after.storages[t] == registry.storages[t]);
        }
    }
    assert forall|t: int, u: int, at: usize|
        0 <= t < after.storages.len() && 0 <= u < after.storages.len() && t != u implies !(
    #[trigger] points_to(after.storages[t], at) && #[trigger] points_to(
        after.storages[u],
        at,
    )) by {
        if t < n && u < n {
            assert(after.storages[t] == registry.storages[t]);
            assert(after.storages[u] == registry.storages[u]);
        }
    }
    assert forall|t: int, i: int|
        0 <= t < after.storages.len() && 0 <= i < after.storages[t].len() implies entry_fits(
        after,
        #[trigger] after.storages[t][i],
    ) by {
        assert(after.storages[t] == registry.storages[t]);
        assert(entry_fits(registry, registry.storages[t][i]));
    }
}

proof fn lemma_register_keeps_tidy(
    registry: RegistryView,
    thread: usize,
    rcu_id: usize,
    at: usize,
)
    requires
        tidy(registry),
        possible(registry, RegistryStep::Register(thread, rcu_id, at)),
    ensures
        tidy(registry.after_register(thread, rcu_id, at)),
{
    let after = registry.after_register(thread, rcu_id, at);
    let entry = ThreadLocalStorage { thread_data: at, rcu_id };
    let own = registry.entries(thread);
    lemma_prefix_through(own, of_instance(rcu_id));
    assert forall|t: int| 0 <= t < registry.storages.len() implies !#[trigger] points_to(
        registry.storages[t],
        at,
    ) by {
        if points_to(registry.storages[t], at) {
            assert(registry.is_named(at));
        }
    }
    assert forall|t: int| 0 <= t < after.storages.len() implies apart(
        #[trigger] after.storages[t],
    ) by {
        assert(apart(registry.storages[t]));
        if t == thread {
            let more = after.storages[t];
            assert forall|i: int, j: int| 0 <= i < j < more.len() implies (
            #[trigger] more[i]).rcu_id != (#[trigger] more[j]).rcu_id && more[i].thread_data
                != more[j].thread_data by {
                assert(more[i] == own[i]);
                if j < own.len() {
                    assert(more[j] == own[j]);
                } else {
                    assert(!of_instance(rcu_id)(own[i]));
                    assert(own[i].thread_data != at) by {
                        if own[i].thread_data == at {
                            assert(points_to(registry.storages[t], at));
                        }
                    }
                }
            }
        }
    }
    assert forall|t: int, x: usize|
        0 <= t < after.storages.len() && #[trigger] points_to(
            after.storages[t],
            x,
        ) implies points_to(registry.storages[t], x) || (t == thread && x == at) by {
        let more = after.storages[t];
        if t == thread {
            let i = choose|i: int| 0 <= i < more.len() && (#[trigger] more[i]).thread_data == x;
            if i < own.len() {
                assert(own[i].thread_data == x);
            }
        }
    }
    assert forall|t: int, u: int, x: usize|
        0 <= t < after.storages.len() && 0 <= u < after.storages.len() && t != u implies !(
    #[trigger] points_to(after.storages[t], x) && #[trigger] points_to(
        after.storages[u],
        x,
    )) by {
        assert(!points_to(registry.storages[t], at) && !points_to(registry.storages[u], at));
        assert(!(points_to(registry.storages[t], x) && points_to(registry.storages[u], x)));
    }
    assert forall|t: int, i: int|
        0 <= t < after.storages.len() && 0 <= i < after.storages[t].len() implies entry_fits(
        after,
        #[trigger] after.storages[t][i],
    ) by {
        if t == thread && i == own.len() {
            assert(after.storages[t][i] == entry);
        } else {
            let e = registry.storages[t][i];
            assert(after.storages[t][i] == e);
            assert(entry_fits(registry, e));
            assert(e.thread_data != at) by {
                if e.thread_data == at {
                    assert(points_to(registry.storages[t], at));
                }
            }
        }
    }
}

/// The registry after `steps`, in whatever order the threads came to take them.
pub open spec fn after_steps(registry: RegistryView, steps: Seq<RegistryStep>) -> RegistryView
    decreases steps.len(),
{
    if steps.len() == 0 {
        registry
    } else {
        after_step(after_steps(registry, steps.drop_last()), steps.last())
    }
}

/// Whether each of `steps` can be taken when its turn comes.
pub open spec fn all_possible(registry: RegistryView, steps: Seq<RegistryStep>) -> bool
    decreases steps.len(),
{
    steps.len() == 0 || (all_possible(registry, steps.drop_last()) && possible(
        after_steps(registry, steps.drop_last()),
        steps.last(),
    ))
}

/// However the steps of threads and instances interleave, the registry stays tidy.
pub proof fn law_every_run_keeps_tidy(registry: RegistryView, steps: Seq<RegistryStep>)
    requires
        tidy(registry),
        all_possible(registry, steps),
    ensures
        tidy(after_steps(registry, steps)),
    decreases steps.len(),
{
    if steps.len() > 0 {
        law_every_run_keeps_tidy(registry, steps.drop_last());
        law_every_step_keeps_tidy(after_steps(registry, steps.drop_last()), steps.last());
    }
}

/// In a tidy registry a thread has one entry per instance, and what it announces to an instance,
/// or takes back there, is its own: no other thread's entry leads to the same data.
pub proof fn law_threads_speak_for_themselves(
    registry: RegistryView,
    thread: usize,
    rcu_id: usize,
    other: usize,
    other_id: usize,
)
    requires
        tidy(registry),
        registry.data_of(thread, rcu_id) is Some,
        (thread, rcu_id) != (other, other_id),
    ensures
        one_per_instance(registry.entries(thread)),
        registry.data_of(other, other_id) != registry.data_of(thread, rcu_id),
{
    let own = registry.entries(thread);
    let theirs = registry.entries(other);
    let at = registry.data_of(thread, rcu_id)->0;
    lemma_prefix_through(own, of_instance(rcu_id));
    lemma_prefix_through(theirs, of_instance(other_id));
    let i = prefix_through(own, of_instance(rcu_id)) - 1;
    let j = prefix_through(theirs, of_instance(other_id)) - 1;
    assert(own[i].thread_data == at);
    assert(apart(registry.storages[thread as int]));
    if registry.data_of(other, other_id) == Some(at) {
        assert(theirs[j].thread_data == at);
        if thread != other {
            assert(points_to(registry.storages[thread as int], at));
            assert(points_to(registry.storages[other as int], at));
        }
    }
}

/// A thread that creates an instance gets one that protects its value, under an identifier of its
/// own, and is registered with it: in a tidy registry nobody has an entry for an instance that is
/// yet to come.
pub proof fn law_creating_registers_the_creator<T>(
    before: RegistryView,
    thread: usize,
    data: T,
    after: RegistryView,
    rcu: RcuView<T>,
)
    requires
        tidy(before),
        before.next_rcu_id < usize::MAX,
        registered(
            after_step(before, RegistryStep::NewInstance),
            thread,
            new_instance(data, before.next_rcu_id),
            after,
            rcu,
            true,
        ),
        thread < before.storages.len(),
    ensures
        lookup(before.entries(thread), before.next_rcu_id) is None,
        rcu.rcu_id == before.next_rcu_id,
        after.next_rcu_id == before.next_rcu_id + 1,
        rcu.current == Some(data),
        rcu.version == 0,
        rcu.callbacks.len() == 0,
        rcu.threads.len() == 1,
        after.data_of(thread, rcu.rcu_id) == Some(rcu.threads[0]),
        is_active(after.threads, rcu.threads[0]),
        tidy(after),
{
    let counted = after_step(before, RegistryStep::NewInstance);
    let id = before.next_rcu_id;
    let own = before.entries(thread);
    assert forall|j: int| 0 <= j < own.len() implies !of_instance(id)(#[trigger] own[j]) by {
        assert(entry_fits(before, before.storages[thread as int][j]));
    }
    lemma_prefix_through_is(own, of_instance(id), 0);
    assert(counted.entries(thread) == own);
    let at = after.entries(thread).last().thread_data;
    law_registers_once(counted, thread, id, at);
    law_every_step_keeps_tidy(before, RegistryStep::NewInstance);
    law_every_step_keeps_tidy(counted, RegistryStep::Register(thread, id, at));
}

// Instances and their threads.

/// The instance `rcu_id` lists each of its threads once; each listed address holds thread data,
/// and that data points back to an entry for the instance.
pub open spec fn list_linked(list: Seq<usize>, rcu_id: usize, threads: Threads) -> bool {
    &&& list.no_duplicates()
    &&& forall|i: int|
        0 <= i < list.len() ==> {
            let at = #[trigger] list[i];
            threads.contains_key(at) && threads[at].tls_ptr == Some(
                ThreadLocalStorage { thread_data: at, rcu_id },
            )
        }
}

/// The instance lists each of its threads once, and each of them is tied to it.
pub open spec fn linked<T>(s: RcuView<T>, threads: Threads) -> bool {
    list_linked(s.threads, s.rcu_id, threads)
}

/// Registering a thread keeps the instance, and every other one, linked.
pub proof fn law_register_keeps_links<T, U>(
    s: RcuView<T>,
    other: RcuView<U>,
    registry: RegistryView,
    thread: usize,
    at: usize,
)
    requires
        linked(s, registry.threads),
        linked(other, registry.threads),
        !registry.threads.contains_key(at),
    ensures
        linked(s.after_register(at), registry.after_register(thread, s.rcu_id, at).threads),
        linked(other, registry.after_register(thread, s.rcu_id, at).threads),
{
    let threads = registry.threads;
    let after = registry.after_register(thread, s.rcu_id, at).threads;
    let t = s.after_register(at);
    assert forall|i: int| 0 <= i < t.threads.len() implies {
        let x = #[trigger] t.threads[i];
        after.contains_key(x) && after[x].tls_ptr == Some(
            ThreadLocalStorage { thread_data: x, rcu_id: t.rcu_id },
        )
    } by {
        if i < s.threads.len() {
            assert(t.threads[i] == s.threads[i]);
        }
    }
    assert forall|i: int, j: int|
        0 <= i < t.threads.len() && 0 <= j < t.threads.len() && i
            != j implies t.threads[i] != t.threads[j] by {
        if i < s.threads.len() {
            assert(threads.contains_key(s.threads[i]));
        }
        if j < s.threads.len() {
            assert(threads.contains_key(s.threads[j]));
        }
    }
}

/// A thread that announces to an instance, or leaves it, keeps the instance and every other one
/// linked, and the threads of the others are left alone.
pub proof fn law_announcing_keeps_links<T, U>(
    s: RcuView<T>,
    other: RcuView<U>,
    threads: Threads,
    at: usize,
    counter: usize,
    reading: bool,
)
    requires
        linked(s, threads),
        linked(other, threads),
        s.rcu_id != other.rcu_id,
        s.threads.contains(at),
    ensures
        linked(s, with_announcement(threads, at, counter, reading)),
        linked(s, with_inactive(threads, at)),
        linked(other, with_announcement(threads, at, counter, reading)),
        linked(other, with_inactive(threads, at)),
        forall|i: int|
            0 <= i < other.threads.len() ==> {
                let x = #[trigger] other.threads[i];
                &&& with_announcement(threads, at, counter, reading)[x] == threads[x]
                &&& with_inactive(threads, at)[x] == threads[x]
            },
{
    assert forall|i: int| 0 <= i < other.threads.len() implies #[trigger] other.threads[i]
        != at by {
        lemma_lists_are_disjoint(
            s.threads,
            s.rcu_id,
            other.threads,
            other.rcu_id,
            threads,
            i,
        );
    }
}

/// A collection keeps the instance, and every other one, linked, and leaves the threads of the
/// others alone.
pub proof fn law_collection_keeps_links<T, U>(
    s: RcuView<T>,
    other: RcuView<U>,
    threads: Threads,
    old_head: Option<u64>,
)
    requires
        linked(s, threads),
        linked(other, threads),
        s.rcu_id != other.rcu_id,
    ensures
        linked(s.after_collection(old_head, threads), cleaned(threads, s.threads)),
        linked(other, cleaned(threads, s.threads)),
        forall|i: int|
            0 <= i < other.threads.len() ==> cleaned(
                threads,
                s.threads,
            )[#[trigger] other.threads[i]]
                == threads[other.threads[i]],
{
    lemma_cleaned_list_is_linked(s.threads, s.rcu_id, threads);
    assert forall|i: int| 0 <= i < other.threads.len() implies !s.threads.contains(
        #[trigger] other.threads[i],
    ) by {
        lemma_lists_are_disjoint(
            s.threads,
            s.rcu_id,
            other.threads,
            other.rcu_id,
            threads,
            i,
        );
    }
}

/// Dropping an instance leaves every other one, and its threads, alone.
pub proof fn law_drop_keeps_other_links<T, U>(
    s: RcuView<T>,
    other: RcuView<U>,
    registry: RegistryView,
)
    requires
        linked(s, registry.threads),
        linked(other, registry.threads),
        s.rcu_id != other.rcu_id,
    ensures
        ({
            let after = registry.after_release(s.rcu_id, s.threads);
            &&& linked(other, after.threads)
            &&& forall|i: int|
                0 <= i < other.threads.len() ==> after.threads[#[trigger] other.threads[i]]
                    == registry.threads[other.threads[i]]
        }),
{
    assert forall|i: int| 0 <= i < other.threads.len() implies !s.threads.contains(
        #[trigger] other.threads[i],
    ) by {
        lemma_lists_are_disjoint(
            s.threads,
            s.rcu_id,
            other.threads,
            other.rcu_id,
            registry.threads,
            i,
        );
    }
}

/// Dropping an instance leaves no entry of any thread pointing to data that was given back: what
/// an entry pointed to before and still exists in some storage, is as it was.
pub proof fn law_drop_leaves_nothing_dangling<T>(
    s: RcuView<T>,
    registry: RegistryView,
    t: int,
    i: int,
)
    requires
        tidy(registry),
        linked(s, registry.threads),
        0 <= t < registry.storages.len(),
        0 <= i < registry.after_release(s.rcu_id, s.threads).storages[t].len(),
    ensures
        ({
            let after = registry.after_release(s.rcu_id, s.threads);
            let entry = after.storages[t][i];
            &&& entry.rcu_id != s.rcu_id
            &&& registry.threads.contains_key(entry.thread_data) ==> after.threads.contains_key(
                entry.thread_data,
            ) && after.threads[entry.thread_data] == registry.threads[entry.thread_data]
        }),
{
    let after = registry.after_release(s.rcu_id, s.threads);
    let all = registry.storages[t];
    let entry = after.storages[t][i];
    all.lemma_filter_pred(of_other_instances(s.rcu_id), i);
    assert(after.storages[t].contains(entry));
    all.lemma_filter_contains_rev(of_other_instances(s.rcu_id), entry);
    let j = choose|j: int| 0 <= j < all.len() && all[j] == entry;
    assert(entry_fits(registry, registry.storages[t][j]));
    if s.threads.contains(entry.thread_data) {
        let k = choose|k: int| 0 <= k < s.threads.len() && s.threads[k] == entry.thread_data;
        assert(registry.threads[s.threads[k]].tls_ptr == Some(
            ThreadLocalStorage { thread_data: s.threads[k], rcu_id: s.rcu_id },
        ));
    }
}

/// Different instances list different threads.
pub proof fn lemma_lists_are_disjoint(
    list: Seq<usize>,
    rcu_id: usize,
    other: Seq<usize>,
    other_id: usize,
    threads: Threads,
    i: int,
)
    requires
        list_linked(list, rcu_id, threads),
        list_linked(other, other_id, threads),
        rcu_id != other_id,
        0 <= i < other.len(),
    ensures
        !list.contains(other[i]),
{
    let x = other[i];
    if list.contains(x) {
        let k = choose|k: int| 0 <= k < list.len() && list[k] == x;
        assert(threads[list[k]].tls_ptr == threads[other[i]].tls_ptr);
    }
}

/// Cleaning up keeps an instance's list linked.
pub proof fn lemma_cleaned_list_is_linked(list: Seq<usize>, rcu_id: usize, threads: Threads)
    requires
        list_linked(list, rcu_id, threads),
    ensures
        list_linked(list.filter(active_in(threads)), rcu_id, cleaned(threads, list)),
{
    let kept = list.filter(active_in(threads));
    lemma_filter_no_duplicates(list, active_in(threads));
    assert forall|i: int| 0 <= i < kept.len() implies {
        let x = #[trigger] kept[i];
        cleaned(threads, list).contains_key(x) && cleaned(threads, list)[x].tls_ptr == Some(
            ThreadLocalStorage { thread_data: x, rcu_id },
        )
    } by {
        let x = kept[i];
        list.lemma_filter_pred(active_in(threads), i);
        list.lemma_filter_contains_rev(active_in(threads), x);
        let k = choose|k: int| 0 <= k < list.len() && list[k] == x;
        assert(list[k] == x);
    }
}

proof fn lemma_filter_no_duplicates<A>(s: Seq<A>, p: spec_fn(A) -> bool)
    requires
        s.no_duplicates(),
    ensures
        s.filter(p).no_duplicates(),
    decreases s.len(),
{
    reveal(Seq::filter);
    if s.len() > 0 {
        let t = s.drop_last();
        lemma_filter_no_duplicates(t, p);
        if t.filter(p).contains(s.last()) {
            t.lemma_filter_contains_rev(p, s.last());
            let k = choose|k: int| 0 <= k < t.len() && t[k] == s.last();
            assert(s[k] == s[s.len() - 1]);
        }
    }
}

/// A collection keeps every active thread listed and gives back the data of all others.
pub proof fn law_collection_drops_exactly_the_inactive<T>(
    s: RcuView<T>,
    threads: Threads,
    old_head: Option<u64>,
    at: usize,
)
    requires
        linked(s, threads),
        s.threads.contains(at),
    ensures
        s.after_collection(old_head, threads).threads.contains(at) <==> threads[at].active,
        cleaned(threads, s.threads).contains_key(at) <==> threads[at].active,
{
    let k = choose|k: int| 0 <= k < s.threads.len() && s.threads[k] == at;
    assert(threads.contains_key(s.threads[k]));
    let kept = s.threads.filter(active_in(threads));
    if threads[at].active {
        s.threads.lemma_filter_contains(active_in(threads), k);
    }
    if kept.contains(at) {
        let m = choose|m: int| 0 <= m < kept.len() && kept[m] == at;
        s.threads.lemma_filter_pred(active_in(threads), m);
    }
}

} // verus!
