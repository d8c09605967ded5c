use vstd::prelude::*;
use crate::event::{Event, TimedEvent};
use crate::queue::{is_earliest, none_due, EventQueue};
use crate::time::Timestamp;

verus! {

/// How many times a failed store write of an idempotent event is tried
/// again before the event is dropped.
pub const MAX_RETRIES: u32 = 3;

/// The workers that consume events, each owning a slice of the kinds.
#[derive(Debug, Clone, Copy, PartialEq, Eq, Structural)]
pub enum WorkerRole {
    /// Building completions, worker tasks, and the defence against arriving
    /// attacks.
    TownWorker,
    /// Resource production.
    EconomyWorker,
    /// Decisions to send new attacks.
    AttackSpawner,
}

/// How processing an event failed.
#[derive(Debug, Clone, Copy, PartialEq, Eq, Structural)]
pub enum Failure {
    /// A rule of the game refused the change before anything was written.
    ValidationFailure,
    /// The event names an entity that no longer exists.
    ReferenceMissing,
    /// The store could not carry out an operation.
    StoreFailure,
    /// The process is misconfigured and cannot go on.
    Fatal,
}

/// What the worker loop does with an event whose processing failed.
#[derive(Debug, Clone, Copy, PartialEq, Eq, Structural)]
pub enum Disposition {
    /// Process the event again.
    Retry,
    /// Log the failure and go on with the next event.
    Drop,
    /// Stop the process.
    Abort,
}

/// What a worker does next.
#[derive(Debug, Clone, Copy, PartialEq, Eq, Structural)]
pub enum WorkerAction {
    /// Process this event, which was claimed for this worker.
    Process(TimedEvent),
    /// Nothing is due: wait this many microseconds.
    Sleep(i64),
}

/// The worker that owns events of `e`'s kind.
pub open spec fn owner_of(e: Event) -> WorkerRole {
    match e {
        Event::EconomyTick { .. } => WorkerRole::EconomyWorker,
        Event::BuildingCompletion { .. } => WorkerRole::TownWorker,
        Event::TaskAdvance { .. } => WorkerRole::TownWorker,
        Event::AttackArrival { .. } => WorkerRole::TownWorker,
        Event::AttackSpawn { .. } => WorkerRole::AttackSpawner,
    }
}

/// Whether processing `e` again after a failure can do no harm: an economy
/// tick is a conditional write over a fixed window, and a building
/// completes once whatever the number of tries.
pub open spec fn is_idempotent(e: Event) -> bool {
    match e {
        Event::EconomyTick { .. } => true,
        Event::BuildingCompletion { .. } => true,
        _ => false,
    }
}

/// The error policy: what is done with `e` after its processing failed with
/// `f`, having been tried `attempts` times already.
pub open spec fn disposition(e: Event, f: Failure, attempts: u32) -> Disposition {
    match f {
        Failure::Fatal => Disposition::Abort,
        Failure::StoreFailure => if is_idempotent(e) && attempts < MAX_RETRIES {
            Disposition::Retry
        } else {
            Disposition::Drop
        },
        _ => Disposition::Drop,
    }
}

/// How long a worker with nothing due waits: until the next event is due,
/// but never longer than `max_wait`, and not at all when it is due already.
pub open spec fn wait_for(next: Option<Timestamp>, now: Timestamp, max_wait: i64) -> int {
    match next {
        None => max_wait as int,
        Some(t) => if t.0 <= now.0 {
            0
        } else if t.0 - now.0 < max_wait {
            t.0 - now.0
        } else {
            max_wait as int
        },
    }
}

/// Whether `e` recurs, and so schedules its next occurrence once processed.
pub open spec fn recurs(e: Event) -> bool {
    match e {
        Event::EconomyTick { .. } => true,
        Event::AttackSpawn { .. } => true,
        _ => false,
    }
}

/// The worker that owns events of this kind.
pub fn owner(e: &Event) -> (r: WorkerRole)
    ensures
        r == owner_of(*e),
{
    match e {
        Event::EconomyTick { .. } => WorkerRole::EconomyWorker,
        Event::BuildingCompletion { .. } => WorkerRole::TownWorker,
        Event::TaskAdvance { .. } => WorkerRole::TownWorker,
        Event::AttackArrival { .. } => WorkerRole::TownWorker,
        Event::AttackSpawn { .. } => WorkerRole::AttackSpawner,
    }
}

/// Whether the event may be processed again after a store failure.
pub fn idempotent(e: &Event) -> (r: bool)
    ensures
        r == is_idempotent(*e),
{
    match e {
        Event::EconomyTick { .. } => true,
        Event::BuildingCompletion { .. } => true,
        _ => false,
    }
}

/// What to do with an event whose processing failed. Fatal failures stop
/// the process; store failures of idempotent events are retried a bounded
/// number of times; everything else is dropped, so one bad event never stops
/// the loop.
pub fn on_failure(e: &Event, f: Failure, attempts: u32) -> (r: Disposition)
    ensures
        r == disposition(*e, f, attempts),
{
    match f {
        Failure::Fatal => Disposition::Abort,
        Failure::StoreFailure => {
            if idempotent(e) && attempts < MAX_RETRIES {
                Disposition::Retry
            } else {
                Disposition::Drop
            }
        },
        _ => Disposition::Drop,
    }
}

/// Microseconds to wait for the next event; see `wait_for`.
pub fn idle_wait(next: Option<Timestamp>, now: Timestamp, max_wait: i64) -> (r: i64)
    requires
        max_wait >= 0,
    ensures
        r == wait_for(next, now, max_wait),
        0 <= r <= max_wait,
{
    match next {
        None => max_wait,
        Some(t) => {
            if t.0 <= now.0 {
                0
            } else {
                let gap: i128 = t.0 as i128 - now.0 as i128;
                if gap < max_wait as i128 {
                    gap as i64
                } else {
                    max_wait
                }
            }
        },
    }
}

/// The next occurrence of a recurring event, `interval` after this one;
/// `None` for an event that does not recur, or where the time would not fit.
pub fn follow_up(te: &TimedEvent, interval: Timestamp) -> (r: Option<TimedEvent>)
    ensures
        r == if recurs(te.event) && i64::MIN <= te.time.0 + interval.0 <= i64::MAX {
            Some(TimedEvent { time: Timestamp((te.time.0 + interval.0) as i64), event: te.event })
        } else {
            None
        },
{
    match te.event {
        Event::EconomyTick { .. } | Event::AttackSpawn { .. } => {
            let t: i128 = te.time.0 as i128 + interval.0 as i128;
            if t < i64::MIN as i128 || t > i64::MAX as i128 {
                None
            } else {
                Some(TimedEvent { time: Timestamp(t as i64), event: te.event })
            }
        },
        _ => None,
    }
}

/// One turn of a worker loop: claim the earliest due event, or, when none is
/// due, say how long to wait for the next one.
pub fn next_action(queue: &mut EventQueue, now: Timestamp, max_wait: i64) -> (r: WorkerAction)
    requires
        max_wait >= 0,
    ensures
        match r {
            WorkerAction::Process(te) => {
                &&& is_earliest(old(queue)@, te)
                &&& te.time.0 <= now.0
                &&& final(queue)@ =~= old(queue)@.remove(te)
            },
            WorkerAction::Sleep(us) => {
                &&& none_due(old(queue)@, now)
                &&& final(queue)@ == old(queue)@
                &&& 0 <= us <= max_wait
                &&& (old(queue)@.len() == 0 ==> us == max_wait)
                &&& forall|te: TimedEvent| is_earliest(old(queue)@, te)
                    ==> us == wait_for(Some(te.time), now, max_wait)
            },
        },
{
    match queue.claim_next(now) {
        Some(te) => WorkerAction::Process(te),
        None => {
            let next = match queue.time_of_next_event() {
                None => None,
                Some(t) => Some(*t),
            };
            proof {
                crate::event::lemma_precedes_total_order();
            }
            WorkerAction::Sleep(idle_wait(next, now, max_wait))
        },
    }
}

/// What is kept of a list of results where a missing reference only drops
/// its own item: the first other failure, or else every success in order.
pub open spec fn kept<T>(rs: Seq<Result<T, Failure>>) -> Result<Seq<T>, Failure>
    decreases rs.len(),
{
    if rs.len() == 0 {
        Ok(Seq::empty())
    } else {
        match kept(rs.drop_last()) {
            Err(f) => Err(f),
            Ok(s) => match rs.last() {
                Ok(t) => Ok(s.push(t)),
                Err(Failure::ReferenceMissing) => Ok(s),
                Err(f) => Err(f),
            },
        }
    }
}

/// Gathers the items of a list, such as a worker's new tasks, where an item
/// naming an entity that no longer exists is skipped and any other failure
/// fails the whole list.
pub fn keep_known<T>(results: Vec<Result<T, Failure>>) -> (r: Result<Vec<T>, Failure>)
    ensures
        match (r, kept(results@)) {
            (Ok(v), Ok(s)) => v@ == s,
            (Err(f), Err(g)) => f == g,
            _ => false,
        },
{
    let ghost rs = results@;
    let mut out: Vec<T> = Vec::new();
    let mut rest = results;
    let total: usize = rest.len();
    let mut i: usize = 0;
    while rest.len() > 0
        invariant
            rs == results@,
            rs.len() == total,
            i <= rs.len(),
            rest@ == rs.skip(i as int),
            kept(rs.take(i as int)) == Ok::<Seq<T>, Failure>(out@),
        decreases rest@.len(),
    {
        let item = rest.remove(0);
        proof {
            assert(rs.skip(i as int).len() == rs.len() - i);
            assert(item == rs[i as int]);
            assert(rs.take(i + 1).last() == item);
            assert(rs.take(i + 1).drop_last() =~= rs.take(i as int));
            assert(rest@ =~= rs.skip(i + 1));
        }
        match item {
            Ok(t) => out.push(t),
            Err(Failure::ReferenceMissing) => {},
            Err(f) => {
                proof {
                    assert(kept(rs.take(i + 1)) == Err::<Seq<T>, Failure>(f));
                    lemma_kept_err_stays(rs, i as int + 1);
                }
                return Err(f);
            },
        }
        i = i + 1;
    }
    proof {
        assert(rs.take(rs.len() as int) =~= rs);
    }
    Ok(out)
}

/// Once a failure other than a missing reference has come, it stays the
/// result however many items follow.
proof fn lemma_kept_err_stays<T>(rs: Seq<Result<T, Failure>>, n: int)
    requires
        0 <= n <= rs.len(),
        kept(rs.take(n)) is Err,
    ensures
        kept(rs) == kept(rs.take(n)),
    decreases rs.len() - n,
{
    if n < rs.len() {
        assert(rs.take(n + 1).drop_last() =~= rs.take(n));
        lemma_kept_err_stays(rs, n + 1);
    } else {
        assert(rs.take(n) =~= rs);
    }
}

} // verus!
