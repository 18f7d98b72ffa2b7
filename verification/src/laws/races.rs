//! Laws of writers that race for the same value.
use vstd::prelude::*;

use crate::callback::{of_version, Callback};
use crate::latest::lemma_prefix_through;
use crate::rcu::RcuView;

verus! {

/// An instance among writes that are under way. Each write loads the current value, computes a
/// new one from it, and tries to install that; where another write came first it starts over.
/// Once it has installed its value, it queues the one it replaced.
pub struct Race<T> {
    /// The instance.
    pub rcu: RcuView<T>,
    /// The writes that have loaded a value, with its version.
    pub loaded: Map<nat, (u64, T)>,
    /// The writes that have installed theirs, in order.
    pub order: Seq<nat>,
    /// The writes that have yet to queue what they replaced.
    pub pending: Map<nat, Callback<T>>,
    /// The writes that have queued what they replaced, in order.
    pub queued: Seq<nat>,
    /// What collections have taken off the queue, in order.
    pub handed_out: Seq<Callback<T>>,
}

/// All that was ever queued, in order.
pub open spec fn ever_queued<T>(race: Race<T>) -> Seq<Callback<T>> {
    race.handed_out + race.rcu.callbacks
}

/// A step of some write, or of a collection in between.
pub enum RaceStep<T> {
    /// The write loads the current value and its version.
    Load(nat),
    /// The write tries to install what it computed.
    Exchange(nat),
    /// The write queues what it replaced.
    Queue(nat),
    /// A collection takes the callbacks queued up to the one that holds the version.
    Take(Option<u64>),
    /// Anything else happens to the instance that leaves the value and the queue alone.
    Other(RcuView<T>),
}

/// Whether a write can take `step`: it loads until it has installed its value, and then queues
/// the one it replaced; and versions do not wrap around.
pub open spec fn possible<T>(race: Race<T>, step: RaceStep<T>) -> bool {
    match step {
        RaceStep::Load(t) => race.rcu.current is Some && !race.order.contains(t),
        RaceStep::Exchange(t) => race.loaded.contains_key(t) && race.rcu.version < u64::MAX,
        RaceStep::Queue(t) => race.pending.contains_key(t),
        RaceStep::Take(_) => true,
        RaceStep::Other(rcu) => rcu.current == race.rcu.current && rcu.version == race.rcu.version
            && rcu.callbacks == race.rcu.callbacks,
    }
}

/// Whether the write `t` finds the value it loaded still in place.
pub open spec fn wins<T>(race: Race<T>, t: nat) -> bool {
    race.rcu.current is Some && race.rcu.version == race.loaded[t].0
}

/// After `step`, where the write `t` makes `f(t, value)` of a value.
pub open spec fn after_step<T>(
    race: Race<T>,
    step: RaceStep<T>,
    f: spec_fn(nat, T) -> T,
) -> Race<T> {
    match step {
        RaceStep::Load(t) => Race {
            loaded: race.loaded.insert(t, (race.rcu.version, race.rcu.current->0)),
            ..race
        },
        RaceStep::Exchange(t) => if wins(race, t) {
            Race {
                rcu: race.rcu.after_replace(f(t, race.loaded[t].1)),
                loaded: race.loaded.remove(t),
                order: race.order.push(t),
                pending: race.pending.insert(t, race.rcu.replaced()),
                ..race
            }
        } else {
            Race { loaded: race.loaded.remove(t), ..race }
        },
        RaceStep::Queue(t) => Race {
            rcu: race.rcu.after_queue(race.pending[t]),
            pending: race.pending.remove(t),
            queued: race.queued.push(t),
            ..race
        },
        RaceStep::Take(old_head) => Race {
            rcu: race.rcu.after_take(old_head),
            handed_out: race.handed_out + race.rcu.safe_callbacks(old_head),
            ..race
        },
        RaceStep::Other(rcu) => Race { rcu, ..race },
    }
}

/// After `steps`, in whatever order the writes came to take them.
pub open spec fn after_steps<T>(
    race: Race<T>,
    steps: Seq<RaceStep<T>>,
    f: spec_fn(nat, T) -> T,
) -> Race<T>
    decreases steps.len(),
{
    if steps.len() == 0 {
        race
    } else {
        after_step(after_steps(race, steps.drop_last(), f), steps.last(), f)
    }
}

/// Whether each of `steps` can be taken when its turn comes.
pub open spec fn all_possible<T>(
    race: Race<T>,
    steps: Seq<RaceStep<T>>,
    f: spec_fn(nat, T) -> T,
) -> bool
    decreases steps.len(),
{
    steps.len() == 0 || (all_possible(race, steps.drop_last(), f) && possible(
        after_steps(race, steps.drop_last(), f),
        steps.last(),
    ))
}

/// `value` after the writes in `order`, one after the other.
pub open spec fn applied<T>(value: T, order: Seq<nat>, f: spec_fn(nat, T) -> T) -> T
    decreases order.len(),
{
    if order.len() == 0 {
        value
    } else {
        f(order.last(), applied(value, order.drop_last(), f))
    }
}

/// Whether `callback` is what the write `t` replaced: the value that the writes before it left.
pub open spec fn replaced_by<T>(
    start: RcuView<T>,
    order: Seq<nat>,
    f: spec_fn(nat, T) -> T,
    t: nat,
    callback: Callback<T>,
) -> bool {
    exists|k: int|
        0 <= k < order.len() && #[trigger] order[k] == t && callback.version == start.version + k
            && callback.data == applied(start.current->0, order.take(k), f)
}

/// `race` is what writes have made of `start`: they took effect one after the other, each on the
/// result of the one before; each that took effect is to queue, or has queued, the one value that
/// it replaced; and a value that was loaded is the current one as long as its version is.
pub open spec fn serial<T>(start: RcuView<T>, race: Race<T>, f: spec_fn(nat, T) -> T) -> bool {
    &&& start.current is Some
    &&& race.rcu.current == Some(applied(start.current->0, race.order, f))
    &&& race.rcu.version == start.version + race.order.len()
    &&& race.order.no_duplicates()
    &&& race.queued.no_duplicates()
    &&& forall|t: nat| #[trigger]
        race.loaded.contains_key(t) ==> !race.order.contains(t) && race.loaded[t].0
            <= race.rcu.version && (race.loaded[t].0 == race.rcu.version ==> race.loaded[t].1
            == race.rcu.current->0)
    &&& forall|t: nat| #[trigger]
        race.pending.contains_key(t) ==> race.order.contains(t) && !race.queued.contains(t)
            && replaced_by(start, race.order, f, t, race.pending[t])
    &&& forall|t: nat| #[trigger]
        race.order.contains(t) ==> race.pending.contains_key(t) || race.queued.contains(t)
    &&& ever_queued(race).len() == start.callbacks.len() + race.queued.len()
    &&& ever_queued(race).take(start.callbacks.len() as int) == start.callbacks
    &&& forall|i: int|
        0 <= i < race.queued.len() ==> race.order.contains(#[trigger] race.queued[i])
            && replaced_by(
            start,
            race.order,
            f,
            race.queued[i],
            ever_queued(race)[start.callbacks.len() + i],
        )
}

/// Before the first step nothing has happened.
pub proof fn law_race_starts_serial<T>(race: Race<T>, f: spec_fn(nat, T) -> T)
    requires
        race.rcu.current is Some,
        race.loaded == Map::<nat, (u64, T)>::empty(),
        race.order.len() == 0,
        race.pending == Map::<nat, Callback<T>>::empty(),
        race.queued.len() == 0,
        race.handed_out.len() == 0,
    ensures
        serial(race.rcu, race, f),
{
    assert(ever_queued(race).take(race.rcu.callbacks.len() as int) =~= race.rcu.callbacks);
}

/// A write that lost the race leaves no trace: what it computed is neither installed nor queued.
pub proof fn law_lost_race_leaves_no_trace<T>(race: Race<T>, t: nat, f: spec_fn(nat, T) -> T)
    requires
        !wins(race, t),
    ensures
        ({
            let after = after_step(race, RaceStep::Exchange(t), f);
            &&& after.rcu == race.rcu
            &&& after.order == race.order
            &&& after.pending == race.pending
            &&& after.queued == race.queued
            &&& ever_queued(after) == ever_queued(race)
        }),
{
}

proof fn lemma_replaced_by_stays<T>(
    start: RcuView<T>,
    order: Seq<nat>,
    f: spec_fn(nat, T) -> T,
    t: nat,
    callback: Callback<T>,
    next: nat,
)
    requires
        replaced_by(start, order, f, t, callback),
    ensures
        replaced_by(start, order.push(next), f, t, callback),
{
    let k = choose|k: int|
        0 <= k < order.len() && #[trigger] order[k] == t && callback.version == start.version + k
            && callback.data == applied(start.current->0, order.take(k), f);
    assert(order.push(next)[k] == t);
    assert(order.push(next).take(k) =~= order.take(k));
}

/// Every step keeps the writes serial.
pub proof fn law_every_step_is_serial<T>(
    start: RcuView<T>,
    race: Race<T>,
    step: RaceStep<T>,
    f: spec_fn(nat, T) -> T,
)
    requires
        serial(start, race, f),
        possible(race, step),
    ensures
        serial(start, after_step(race, step, f), f),
{
    match step {
        RaceStep::Load(_) => {},
        RaceStep::Exchange(t) => {
            if wins(race, t) {
                lemma_win_is_serial(start, race, t, f);
            }
        },
        RaceStep::Queue(t) => lemma_queue_is_serial(start, race, t, f),
        RaceStep::Take(old_head) => {
            if let Some(version) = old_head {
                lemma_prefix_through(race.rcu.callbacks, of_version(version));
            }
            assert(ever_queued(after_step(race, step, f)) =~= ever_queued(race));
        },
        RaceStep::Other(_) => {},
    }
}

proof fn lemma_win_is_serial<T>(
    start: RcuView<T>,
    race: Race<T>,
    t: nat,
    f: spec_fn(nat, T) -> T,
)
    requires
        serial(start, race, f),
        possible(race, RaceStep::Exchange(t)),
        wins(race, t),
    ensures
        serial(start, after_step(race, RaceStep::Exchange(t), f), f),
{
    let after = after_step(race, RaceStep::Exchange(t), f);
    let n = race.order.len() as int;
    assert(after.order.drop_last() =~= race.order);
    assert(after.order.take(n) =~= race.order);
    assert(after.order[n] == t);
    assert(replaced_by(start, after.order, f, t, after.pending[t]));
    assert forall|u: nat| #[trigger] after.order.contains(u) == (race.order.contains(u) || u
        == t) by {
        if race.order.contains(u) {
            let k = choose|k: int| 0 <= k < race.order.len() && race.order[k] == u;
            assert(after.order[k] == u);
        }
    }
    assert forall|u: nat| #[trigger] after.pending.contains_key(u) implies after.order.contains(u)
        && !after.queued.contains(u) && replaced_by(start, after.order, f, u, after.pending[u]) by {
        if u != t {
            assert(race.pending.contains_key(u));
            lemma_replaced_by_stays(start, race.order, f, u, race.pending[u], t);
        } else if race.queued.contains(t) {
            let i = choose|i: int| 0 <= i < race.queued.len() && race.queued[i] == t;
            assert(race.order.contains(race.queued[i]));
        }
    }
    assert forall|u: nat| #[trigger] after.order.contains(u) implies after.pending.contains_key(u)
        || after.queued.contains(u) by {}
    assert forall|i: int| 0 <= i < after.queued.len() implies after.order.contains(
        #[trigger] after.queued[i],
    ) && replaced_by(
        start,
        after.order,
        f,
        after.queued[i],
        ever_queued(after)[start.callbacks.len() + i],
    ) by {
        assert(race.order.contains(race.queued[i]));
        lemma_replaced_by_stays(
            start,
            race.order,
            f,
            race.queued[i],
            ever_queued(race)[start.callbacks.len() + i],
            t,
        );
    }
    assert forall|u: nat| #[trigger] after.loaded.contains_key(u) implies !after.order.contains(u)
        && after.loaded[u].0 < after.rcu.version by {
        assert(race.loaded.contains_key(u));
    }
}

proof fn lemma_queue_is_serial<T>(
    start: RcuView<T>,
    race: Race<T>,
    t: nat,
    f: spec_fn(nat, T) -> T,
)
    requires
        serial(start, race, f),
        race.pending.contains_key(t),
    ensures
        serial(start, after_step(race, RaceStep::Queue(t), f), f),
{
    let after = after_step(race, RaceStep::Queue(t), f);
    let n = start.callbacks.len() as int;
    assert(ever_queued(after) =~= ever_queued(race).push(race.pending[t]));
    assert(ever_queued(after).take(n) =~= ever_queued(race).take(n));
    assert forall|u: nat| #[trigger] after.queued.contains(u) == (race.queued.contains(u) || u
        == t) by {
        if race.queued.contains(u) {
            let k = choose|k: int| 0 <= k < race.queued.len() && race.queued[k] == u;
            assert(after.queued[k] == u);
        }
        assert(after.queued[race.queued.len() as int] == t);
    }
    assert forall|i: int| 0 <= i < after.queued.len() implies after.order.contains(
        #[trigger] after.queued[i],
    ) && replaced_by(start, after.order, f, after.queued[i], ever_queued(after)[n + i]) by {
        if i < race.queued.len() {
            assert(after.queued[i] == race.queued[i]);
            assert(race.order.contains(race.queued[i]));
            assert(ever_queued(after)[n + i] == ever_queued(race)[n + i]);
        }
    }
}

/// However the steps of writes interleave with each other and with collections, the outcome is
/// that of applying their functions one after the other, in some order: `race.order`. The
/// version counts them.
pub proof fn law_every_race_is_serial<T>(
    race: Race<T>,
    steps: Seq<RaceStep<T>>,
    f: spec_fn(nat, T) -> T,
)
    requires
        serial(race.rcu, race, f),
        all_possible(race, steps, f),
    ensures
        serial(race.rcu, after_steps(race, steps, f), f),
    decreases steps.len(),
{
    if steps.len() > 0 {
        law_every_race_is_serial(race, steps.drop_last(), f);
        law_every_step_is_serial(
            race.rcu,
            after_steps(race, steps.drop_last(), f),
            steps.last(),
            f,
        );
    }
}

/// Once all that was replaced is queued, one more callback has been queued for each write that
/// took effect.
pub proof fn law_each_write_queues_one_value<T>(
    start: RcuView<T>,
    race: Race<T>,
    f: spec_fn(nat, T) -> T,
)
    requires
        serial(start, race, f),
        race.pending == Map::<nat, Callback<T>>::empty(),
    ensures
        ever_queued(race).len() == start.callbacks.len() + race.order.len(),
{
    race.order.unique_seq_to_set();
    race.queued.unique_seq_to_set();
    assert forall|t: nat| #[trigger] race.queued.contains(t) implies race.order.contains(t) by {
        let i = choose|i: int| 0 <= i < race.queued.len() && race.queued[i] == t;
        assert(race.order.contains(race.queued[i]));
    }
    assert(race.order.to_set() =~= race.queued.to_set());
}

/// A run can be cut in two anywhere.
pub proof fn lemma_split<T>(
    race: Race<T>,
    steps: Seq<RaceStep<T>>,
    f: spec_fn(nat, T) -> T,
    k: int,
)
    requires
        0 <= k <= steps.len(),
    ensures
        after_steps(race, steps, f) == after_steps(
            after_steps(race, steps.take(k), f),
            steps.skip(k),
            f,
        ),
        all_possible(race, steps, f) ==> all_possible(race, steps.take(k), f),
    decreases steps.len(),
{
    if k == steps.len() {
        assert(steps.take(k) =~= steps);
        assert(steps.skip(k).len() == 0);
    } else {
        let less = steps.drop_last();
        lemma_split(race, less, f, k);
        assert(less.take(k) =~= steps.take(k));
        assert(steps.skip(k).drop_last() =~= less.skip(k));
        assert(steps.skip(k).last() == steps.last());
    }
}

/// Writes that have taken effect keep their places: later ones only come behind them.
pub proof fn law_order_only_grows<T>(
    race: Race<T>,
    steps: Seq<RaceStep<T>>,
    f: spec_fn(nat, T) -> T,
)
    ensures
        race.order.is_prefix_of(after_steps(race, steps, f).order),
    decreases steps.len(),
{
    if steps.len() > 0 {
        let before = after_steps(race, steps.drop_last(), f);
        let after = after_steps(race, steps, f);
        law_order_only_grows(race, steps.drop_last(), f);
        let n = race.order.len() as int;
        assert(after.order.take(n) =~= before.order.take(n));
        assert(race.order =~= before.order.take(n));
        assert(after.order.subrange(0, n) =~= race.order);
    }
}

/// Of two writes that do not overlap, the earlier one takes effect first: where `t` has taken
/// effect at some point, and `u` only later, `t` stands before `u`.
pub proof fn law_writes_that_do_not_overlap_keep_their_order<T>(
    race: Race<T>,
    steps: Seq<RaceStep<T>>,
    f: spec_fn(nat, T) -> T,
    k: int,
    t: nat,
    u: nat,
    i: int,
    j: int,
)
    requires
        serial(race.rcu, race, f),
        all_possible(race, steps, f),
        0 <= k <= steps.len(),
        after_steps(race, steps.take(k), f).order.contains(t),
        !after_steps(race, steps.take(k), f).order.contains(u),
        0 <= i < after_steps(race, steps, f).order.len(),
        0 <= j < after_steps(race, steps, f).order.len(),
        after_steps(race, steps, f).order[i] == t,
        after_steps(race, steps, f).order[j] == u,
    ensures
        i < j,
{
    let then = after_steps(race, steps.take(k), f);
    let now = after_steps(race, steps, f);
    lemma_split(race, steps, f, k);
    law_order_only_grows(then, steps.skip(k), f);
    law_every_race_is_serial(race, steps, f);
    let n = then.order.len() as int;
    assert(then.order =~= now.order.subrange(0, n));
    let m = choose|m: int| 0 <= m < n && then.order[m] == t;
    assert(now.order[m] == t);
    if j < n {
        assert(then.order[j] == u);
    }
}

} // verus!
