//! Laws of the spin lock.
use vstd::prelude::*;

use crate::lock::{admits, locked_after_try, locked_after_unlock};

verus! {

/// A spin lock among threads.
pub struct Contest {
    /// Whether the lock is held.
    pub locked: bool,
    /// The threads that have taken the lock and not released it.
    pub inside: Set<nat>,
}

/// A turn of some thread at the lock.
pub enum Turn {
    /// The thread tries to take the lock.
    Try(nat),
    /// The thread releases the lock.
    Unlock(nat),
}

/// Whether a thread can take `turn`: only one that is inside releases the lock.
pub open spec fn possible(c: Contest, turn: Turn) -> bool {
    match turn {
        Turn::Try(_) => true,
        Turn::Unlock(t) => c.inside.contains(t),
    }
}

/// The lock after `turn`, which is one `try_lock` or one `unlock`: a thread that tries gets in if
/// the lock admits it.
pub open spec fn after_turn(c: Contest, turn: Turn) -> Contest {
    match turn {
        Turn::Try(t) => Contest {
            locked: locked_after_try(c.locked),
            inside: if admits(c.locked) {
                c.inside.insert(t)
            } else {
                c.inside
            },
        },
        Turn::Unlock(t) => Contest {
            locked: locked_after_unlock(c.locked),
            inside: c.inside.remove(t),
        },
    }
}

/// The lock after `turns`.
pub open spec fn after_turns(c: Contest, turns: Seq<Turn>) -> Contest
    decreases turns.len(),
{
    if turns.len() == 0 {
        c
    } else {
        after_turn(after_turns(c, turns.drop_last()), turns.last())
    }
}

/// Whether each of `turns` can be taken when it comes.
pub open spec fn all_possible(c: Contest, turns: Seq<Turn>) -> bool
    decreases turns.len(),
{
    turns.len() == 0 || (all_possible(c, turns.drop_last()) && possible(
        after_turns(c, turns.drop_last()),
        turns.last(),
    ))
}

/// At most one thread is inside, and one is exactly while the lock is held.
pub open spec fn exclusive(c: Contest) -> bool {
    &&& forall|t: nat, u: nat| #[trigger]
        c.inside.contains(t) && #[trigger] c.inside.contains(u) ==> t == u
    &&& c.locked == exists|t: nat| c.inside.contains(t)
}

/// However threads contend for a lock that was free, at most one at a time is between taking and
/// releasing it, and the lock is held exactly while one is.
pub proof fn law_lock_excludes(turns: Seq<Turn>)
    requires
        all_possible(Contest { locked: false, inside: Set::empty() }, turns),
    ensures
        exclusive(after_turns(Contest { locked: false, inside: Set::empty() }, turns)),
    decreases turns.len(),
{
    let free = Contest { locked: false, inside: Set::empty() };
    if turns.len() > 0 {
        law_lock_excludes(turns.drop_last());
        let before = after_turns(free, turns.drop_last());
        let after = after_turn(before, turns.last());
        match turns.last() {
            Turn::Try(t) => {
                if !before.locked {
                    assert(after.inside.contains(t));
                }
            },
            Turn::Unlock(_) => {},
        }
    }
}

/// A free lock lets the next thread in; a held one lets nobody in, until it is released.
pub proof fn law_free_lock_lets_one_in(locked: bool)
    ensures
        admits(locked) <==> !locked,
        locked_after_try(locked),
        !locked_after_unlock(locked),
        admits(locked_after_unlock(locked)),
        !admits(locked_after_try(locked)),
{
}

} // verus!
