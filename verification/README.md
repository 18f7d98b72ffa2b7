# qsbr_rcu

Quiescent-state based read-copy-update, verified with Verus.

A writer replaces the protected value by a new version and queues the old one. Threads that read
register with the instance and announce counters: on entering a critical section, and when they
pass a quiescent state. A collection advances the instance's counter, waits for the active
registered threads, and then reclaims what was queued when it began. A thread other than the
collecting one is waited for while it has announced less than the counter from before, or has
announced that very counter on entering a critical section: it may still be in a section that was
open when the collection began. A thread that announced that counter in a quiescent state is not
waited for.

## Layout

- `src/rcu.rs`: the instance, with its steps and their contracts over `RcuView`.
- `src/registry.rs`, `src/storage.rs`: what the instances and threads of a process share, and
  what each thread keeps for itself.
- `src/grace.rs`, `src/callback.rs`, `src/lock.rs`, `src/latest.rs`: grace periods, deferred
  reclamation, lock flags, and the search for the most recent entry of a list.
- `src/thread_data.rs`: a domain for a whole process, without instances, and single pointers.
- `src/laws/`: what holds across operations.
  - `writes.rs`: no update is lost; every replaced version is queued, taken and reclaimed once.
  - `races.rs`: writers that race take effect one after the other.
  - `registration.rs`, `processes.rs`: registering, leaving and dropping, and instances that come
    and go and share threads.
  - `periods.rs`: whom a collection waits for.
  - `readers.rs`, `runs.rs`: what a reader uses is not taken from it, however steps interleave.
  - `domains.rs`: the process-wide domain.
  - `locks.rs`: the spin lock.
- `app/`: shared instances that block, for ordinary threads.

## Steps

Every operation is one indivisible step on explicit state. An operation that would have to wait
says so in its result (`GcStatus::Busy`, `GcStatus::Waiting`, `false` from `register_thread`),
and the caller tries again later; `app/` does that under locks that it holds for one step at a
time, giving up the processor in between. Callbacks come off the queue only for a grace period
that is over (`ElapsedPeriod`), and only what came off it can be reclaimed (`SafeCallbacks`).
Reads never wait for a grace period. Contracts speak of sequentially consistent steps; memory
orderings are not modelled.
