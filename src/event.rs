use vstd::prelude::*;
use crate::time::{PadlId, Timestamp};

verus! {

/// A future state change of the game, naming the entity it concerns by id.
#[derive(Debug, Clone, Copy, PartialEq, Eq, Structural)]
pub enum Event {
    /// Resource production of a village is due to be accounted.
    EconomyTick { village: PadlId },
    /// A building finishes its construction.
    BuildingCompletion { building: PadlId },
    /// A worker moves on to the next task of its list.
    TaskAdvance { worker: PadlId },
    /// The attack spawner reconsiders sending visitors to a village.
    AttackSpawn { village: PadlId },
    /// An attack reaches its target village.
    AttackArrival { attack: PadlId },
}

/// An event together with the time at which it becomes due.
#[derive(Debug, Clone, Copy, PartialEq, Eq, Structural)]
pub struct TimedEvent {
    pub time: Timestamp,
    pub event: Event,
}

/// Position of the event's kind in the fixed tie-break order for events due
/// at the same time.
pub open spec fn kind_rank(e: Event) -> int {
    match e {
        Event::EconomyTick { .. } => 0,
        Event::BuildingCompletion { .. } => 1,
        Event::TaskAdvance { .. } => 2,
        Event::AttackSpawn { .. } => 3,
        Event::AttackArrival { .. } => 4,
    }
}

/// The id carried by the event.
pub open spec fn subject(e: Event) -> int {
    match e {
        Event::EconomyTick { village } => village as int,
        Event::BuildingCompletion { building } => building as int,
        Event::TaskAdvance { worker } => worker as int,
        Event::AttackSpawn { village } => village as int,
        Event::AttackArrival { attack } => attack as int,
    }
}

/// The processing order: by due time, then by kind, then by id.
/// `a` is processed no later than `b`.
pub open spec fn precedes(a: TimedEvent, b: TimedEvent) -> bool {
    if a.time.0 != b.time.0 {
        a.time.0 < b.time.0
    } else if kind_rank(a.event) != kind_rank(b.event) {
        kind_rank(a.event) < kind_rank(b.event)
    } else {
        subject(a.event) <= subject(b.event)
    }
}

/// The processing order is a total order on timed events: reflexive,
/// antisymmetric, transitive and total.
pub proof fn lemma_precedes_total_order()
    ensures
        forall|a: TimedEvent| #[trigger] precedes(a, a),
        forall|a: TimedEvent, b: TimedEvent|
            precedes(a, b) && precedes(b, a) ==> a == b,
        forall|a: TimedEvent, b: TimedEvent, c: TimedEvent|
            #![trigger precedes(a, b), precedes(b, c)]
            precedes(a, b) && precedes(b, c) ==> precedes(a, c),
        forall|a: TimedEvent, b: TimedEvent| precedes(a, b) || precedes(b, a),
{
    assert forall|a: TimedEvent, b: TimedEvent| precedes(a, b) && precedes(b, a) implies a == b by {
        assert(a.time == b.time);
        match a.event {
            Event::EconomyTick { .. } => {},
            Event::BuildingCompletion { .. } => {},
            Event::TaskAdvance { .. } => {},
            Event::AttackSpawn { .. } => {},
            Event::AttackArrival { .. } => {},
        }
    }
}

impl Event {
    /// Position of this event's kind in the tie-break order.
    pub fn rank(&self) -> (r: u8)
        ensures
            r == kind_rank(*self),
    {
        match self {
            Event::EconomyTick { .. } => 0,
            Event::BuildingCompletion { .. } => 1,
            Event::TaskAdvance { .. } => 2,
            Event::AttackSpawn { .. } => 3,
            Event::AttackArrival { .. } => 4,
        }
    }

    /// The id of the entity this event concerns.
    pub fn subject(&self) -> (r: PadlId)
        ensures
            r == subject(*self),
    {
        match self {
            Event::EconomyTick { village } => *village,
            Event::BuildingCompletion { building } => *building,
            Event::TaskAdvance { worker } => *worker,
            Event::AttackSpawn { village } => *village,
            Event::AttackArrival { attack } => *attack,
        }
    }
}

impl TimedEvent {
    /// Pairs an event with its due time.
    pub fn new(event: Event, time: Timestamp) -> (r: TimedEvent)
        ensures
            r.event == event,
            r.time == time,
    {
        TimedEvent { time, event }
    }

    /// Whether this event is processed no later than `other`.
    pub fn precedes(&self, other: &TimedEvent) -> (r: bool)
        ensures
            r == precedes(*self, *other),
    {
        if self.time.0 != other.time.0 {
            self.time.0 < other.time.0
        } else {
            let ra = self.event.rank();
            let rb = other.event.rank();
            if ra != rb {
                ra < rb
            } else {
                self.event.subject() <= other.event.subject()
            }
        }
    }
}

} // verus!
