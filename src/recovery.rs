use vstd::prelude::*;
use vstd::multiset::Multiset;
use crate::event::{Event, TimedEvent};
use crate::queue::EventQueue;
use crate::time::{PadlId, Timestamp};

verus! {

broadcast use vstd::seq_lib::group_to_multiset_ensures;

/// A record of the store, as read back by the predicates that find pending
/// work.
#[derive(Debug, Clone, Copy, PartialEq, Eq, Structural)]
pub enum StoreRecord {
    /// A building; `completes_at` is set while its construction is unresolved.
    Building { id: PadlId, completes_at: Option<Timestamp> },
    /// A worker; `next_task_at` is set while it has a task to move on from.
    Worker { id: PadlId, next_task_at: Option<Timestamp> },
    /// A village whose production is accounted up to `last_tick`.
    Village { id: PadlId, last_tick: Timestamp },
    /// An attack, pending until it is resolved.
    Attack { id: PadlId, arrival: Timestamp, resolved: bool },
}

/// `a + b`, held within the range of `i64`.
pub open spec fn saturating_sum(a: i64, b: i64) -> i64 {
    if a + b > i64::MAX {
        i64::MAX
    } else if a + b < i64::MIN {
        i64::MIN
    } else {
        (a + b) as i64
    }
}

/// The event that `r` still owes, if any. A village owes its next economy
/// tick, one `tick_interval` after the last.
pub open spec fn pending_of(r: StoreRecord, tick_interval: Timestamp) -> Option<TimedEvent> {
    match r {
        StoreRecord::Building { id, completes_at } => match completes_at {
            Some(t) => Some(TimedEvent { time: t, event: Event::BuildingCompletion { building: id } }),
            None => None,
        },
        StoreRecord::Worker { id, next_task_at } => match next_task_at {
            Some(t) => Some(TimedEvent { time: t, event: Event::TaskAdvance { worker: id } }),
            None => None,
        },
        StoreRecord::Village { id, last_tick } => Some(
            TimedEvent {
                time: Timestamp(saturating_sum(last_tick.0, tick_interval.0)),
                event: Event::EconomyTick { village: id },
            },
        ),
        StoreRecord::Attack { id, arrival, resolved } => if resolved {
            None
        } else {
            Some(TimedEvent { time: arrival, event: Event::AttackArrival { attack: id } })
        },
    }
}

/// The multiset holding `o`'s event, if any.
pub open spec fn owed(o: Option<TimedEvent>) -> Multiset<TimedEvent> {
    match o {
        Some(e) => Multiset::singleton(e),
        None => Multiset::empty(),
    }
}

/// Every event that the records of `rs` owe.
pub open spec fn pending_events(rs: Seq<StoreRecord>, tick_interval: Timestamp) -> Multiset<
    TimedEvent,
>
    decreases rs.len(),
{
    if rs.len() == 0 {
        Multiset::empty()
    } else {
        pending_events(rs.drop_last(), tick_interval).add(owed(pending_of(rs.last(), tick_interval)))
    }
}

fn saturating_sum_exec(a: i64, b: i64) -> (r: i64)
    ensures
        r == saturating_sum(a, b),
{
    let s: i128 = a as i128 + b as i128;
    if s > i64::MAX as i128 {
        i64::MAX
    } else if s < i64::MIN as i128 {
        i64::MIN
    } else {
        s as i64
    }
}

/// The event that `r` still owes, if any.
pub fn pending_event(r: &StoreRecord, tick_interval: Timestamp) -> (o: Option<TimedEvent>)
    ensures
        o == pending_of(*r, tick_interval),
{
    match r {
        StoreRecord::Building { id, completes_at } => match completes_at {
            Some(t) => Some(TimedEvent { time: *t, event: Event::BuildingCompletion { building: *id } }),
            None => None,
        },
        StoreRecord::Worker { id, next_task_at } => match next_task_at {
            Some(t) => Some(TimedEvent { time: *t, event: Event::TaskAdvance { worker: *id } }),
            None => None,
        },
        StoreRecord::Village { id, last_tick } => Some(
            TimedEvent {
                time: Timestamp(saturating_sum_exec(last_tick.0, tick_interval.0)),
                event: Event::EconomyTick { village: *id },
            },
        ),
        StoreRecord::Attack { id, arrival, resolved } => if *resolved {
            None
        } else {
            Some(TimedEvent { time: *arrival, event: Event::AttackArrival { attack: *id } })
        },
    }
}

/// Builds the event queue from the store alone: it holds exactly the events
/// that the records owe. This is how the queue is restored after a restart.
pub fn rebuild_queue(records: &Vec<StoreRecord>, tick_interval: Timestamp) -> (q: EventQueue)
    ensures
        q@ =~= pending_events(records@, tick_interval),
{
    let mut q = EventQueue::new();
    let mut i: usize = 0;
    while i < records.len()
        invariant
            i <= records@.len(),
            q@ =~= pending_events(records@.take(i as int), tick_interval),
        decreases records@.len() - i,
    {
        proof {
            assert(records@.take(i + 1).drop_last() =~= records@.take(i as int));
            assert(records@.take(i + 1).last() == records@[i as int]);
        }
        match pending_event(&records[i], tick_interval) {
            Some(te) => {
                q.add_event(te.event, te.time);
                proof {
                    assert(Multiset::empty().insert(te) =~= Multiset::singleton(te));
                }
            },
            None => {},
        }
        i = i + 1;
    }
    proof {
        assert(records@.take(records@.len() as int) =~= records@);
    }
    q
}

/// Taking one record out of the store takes out exactly what it owes.
proof fn lemma_pending_remove(rs: Seq<StoreRecord>, i: int, tick_interval: Timestamp)
    requires
        0 <= i < rs.len(),
    ensures
        pending_events(rs, tick_interval) =~= pending_events(rs.remove(i), tick_interval).add(
            owed(pending_of(rs[i], tick_interval)),
        ),
    decreases rs.len(),
{
    if i < rs.len() - 1 {
        let t = rs.drop_last();
        lemma_pending_remove(t, i, tick_interval);
        assert(rs.remove(i).drop_last() =~= t.remove(i));
        assert(rs.remove(i).last() == rs.last());
    } else {
        assert(rs.remove(i) =~= rs.drop_last());
    }
}

/// A restart reconstructs exactly the pending events of before: the store
/// still holds the same records, in whatever order its predicates return
/// them, and the events owed depend on those records alone.
pub proof fn lemma_restart_reconstructs(
    before: Seq<StoreRecord>,
    after: Seq<StoreRecord>,
    tick_interval: Timestamp,
)
    requires
        before.to_multiset() == after.to_multiset(),
    ensures
        pending_events(after, tick_interval) == pending_events(before, tick_interval),
    decreases before.len(),
{
    if before.len() == 0 {
        assert(before.to_multiset().len() == 0);
        assert(after.to_multiset().len() == after.len());
        assert(after.len() == 0);
        assert(after =~= Seq::<StoreRecord>::empty());
    } else {
        let x = before.last();
        assert(before.contains(x)) by {
            assert(before[before.len() - 1] == x);
        }
        assert(after.to_multiset().count(x) > 0);
        assert(after.contains(x));
        let j = after.index_of(x);
        assert(before.drop_last() =~= before.remove(before.len() - 1));
        assert(before.drop_last().to_multiset() == after.remove(j).to_multiset());
        lemma_restart_reconstructs(before.drop_last(), after.remove(j), tick_interval);
        lemma_pending_remove(after, j, tick_interval);
    }
}

/// Writing a new record and queueing what it owes keeps the queue derivable:
/// where the queue held exactly what the records owed, it still does.
pub proof fn lemma_new_record_keeps_queue_derivable(
    rs: Seq<StoreRecord>,
    r: StoreRecord,
    q: Multiset<TimedEvent>,
    tick_interval: Timestamp,
)
    requires
        q == pending_events(rs, tick_interval),
    ensures
        q.add(owed(pending_of(r, tick_interval))) == pending_events(rs.push(r), tick_interval),
{
    assert(rs.push(r).drop_last() =~= rs);
}

/// Processing an event keeps the queue derivable. Where the queue held
/// exactly what the records owed, claiming the event that record `k` owed
/// takes it out of the queue; the worker then rewrites the record and queues
/// what the rewritten record owes, and the queue again holds exactly what the
/// records owe.
pub proof fn lemma_processing_keeps_queue_derivable(
    rs: Seq<StoreRecord>,
    k: int,
    rewritten: StoreRecord,
    q: Multiset<TimedEvent>,
    e: TimedEvent,
    tick_interval: Timestamp,
)
    requires
        q == pending_events(rs, tick_interval),
        0 <= k < rs.len(),
        pending_of(rs[k], tick_interval) == Some(e),
    ensures
        q.remove(e).add(owed(pending_of(rewritten, tick_interval))) == pending_events(
            rs.update(k, rewritten),
            tick_interval,
        ),
{
    let us = rs.update(k, rewritten);
    lemma_pending_remove(rs, k, tick_interval);
    lemma_pending_remove(us, k, tick_interval);
    assert(us.remove(k) =~= rs.remove(k));
    let rest = pending_events(rs.remove(k), tick_interval);
    assert(q =~= rest.insert(e));
    assert(q.remove(e) =~= rest);
}

} // verus!
