//! Quiescent-state based read-copy-update.
//!
//! A writer replaces the protected value by a new version and queues the old one for
//! reclamation. Reader threads announce, through counters, which writer-side periods they
//! have lived through. A garbage collection waits until no registered thread but its own can be
//! in a critical section that was open when it began, and only then reclaims what was queued.
//!
//! Every operation here is one indivisible step on explicit state: the shared state of an
//! instance is an [`Rcu`], and what the instances and threads of a process share, with what each
//! thread keeps for itself, is a [`Registry`]. A step that would have to wait for another thread
//! says so in its result; the caller yields and tries again.
pub mod callback;
pub mod grace;
pub mod latest;
pub mod laws;
pub mod lock;
pub mod rcu;
pub mod registry;
pub mod storage;
pub mod thread_data;

pub use callback::{Callback, SafeCallbacks};
pub use grace::{ElapsedPeriod, GcStatus, GracePeriod, SyncStatus};
pub use rcu::Rcu;
pub use registry::{drop_thread_data, get_current_thread_storage, Registry, ThreadData};
pub use storage::{ThreadLocalStorage, ThreadStorage};
pub use thread_data::{
    call_rcu, rcu_assign_pointer, rcu_dereference, rcu_read_lock, rcu_read_unlock, synchronize_rcu,
};
