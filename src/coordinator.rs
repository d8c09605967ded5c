use vstd::prelude::*;
use crate::attack::{admission, AdmissionError, AttackDraft, AttackFunnel};
use crate::event::{Event, TimedEvent};
use crate::queue::EventQueue;
use vstd::multiset::Multiset;
use crate::time::{PadlId, Timestamp};
use crate::worker::{follow_up, recurs};

verus! {

/// A command from the HTTP layer, already validated and decoded. The store
/// write that goes with it has been made by the caller.
#[derive(Debug, Clone, Copy, PartialEq, Eq, Structural)]
pub enum Command {
    /// A building was bought; `completes_at` is set where it takes time to
    /// build.
    PurchaseBuilding { building: PadlId, completes_at: Option<Timestamp> },
    /// A building was removed.
    DeleteBuilding { building: PadlId },
    /// A special unit was bought for a village.
    PurchaseProphet { village: PadlId },
    /// A worker's task list was replaced; `next_task_at` is when it moves on
    /// from its first task, if it has one.
    OverwriteTasks { worker: PadlId, next_task_at: Option<Timestamp> },
    /// An attack is proposed.
    CreateAttack { draft: AttackDraft },
    /// A player's story moved on.
    StoryTransition { player: PadlId },
    /// A client reported its runtime statistics.
    RuntimeStatistics,
}

/// The event that a command other than an attack schedules, if any.
pub open spec fn scheduled_by(c: Command) -> Option<TimedEvent> {
    match c {
        Command::PurchaseBuilding { building, completes_at } => match completes_at {
            Some(t) => Some(TimedEvent { time: t, event: Event::BuildingCompletion { building } }),
            None => None,
        },
        Command::OverwriteTasks { worker, next_task_at } => match next_task_at {
            Some(t) => Some(TimedEvent { time: t, event: Event::TaskAdvance { worker } }),
            None => None,
        },
        _ => None,
    }
}

/// The shared state of the workers: the event queue and the attack funnel.
/// Each worker is handed this state; none of it is global.
pub struct GameMaster {
    pub queue: EventQueue,
    pub funnel: AttackFunnel,
}

impl GameMaster {
    /// A game master with an empty queue and a funnel that knows no village.
    pub fn new() -> (r: GameMaster)
        ensures
            r.funnel.wf(),
            r.queue@ =~= Multiset::empty(),
            r.funnel.slots().len() == 0,
            r.funnel.attacks().len() == 0,
    {
        GameMaster { queue: EventQueue::new(), funnel: AttackFunnel::new() }
    }

    /// A game master resuming with a queue rebuilt from the store.
    pub fn with_queue(queue: EventQueue) -> (r: GameMaster)
        ensures
            r.funnel.wf(),
            r.queue@ == queue@,
            r.funnel.slots().len() == 0,
            r.funnel.attacks().len() == 0,
    {
        GameMaster { queue, funnel: AttackFunnel::new() }
    }

    /// Takes in a command. An attack goes through the funnel and is the only
    /// command that can be refused; the others queue the event they schedule,
    /// if any.
    pub fn handle_command(&mut self, c: Command) -> (r: Result<(), AdmissionError>)
        requires
            old(self).funnel.wf(),
        ensures
            final(self).funnel.wf(),
            match c {
                Command::CreateAttack { draft } => {
                    &&& r == admission(old(self).funnel.slots(), draft)
                    &&& r is Ok ==> final(self).queue@ =~= old(self).queue@.insert(
                        TimedEvent { time: draft.arrival, event: Event::AttackArrival { attack: draft.attack } },
                    )
                    &&& r is Ok ==> final(self).funnel.attacks() =~= old(self).funnel.attacks().push(draft)
                    &&& r is Err ==> final(self).queue@ == old(self).queue@
                    &&& r is Err ==> final(self).funnel.attacks() == old(self).funnel.attacks()
                    &&& r is Err ==> final(self).funnel.slots() == old(self).funnel.slots()
                },
                _ => {
                    &&& r is Ok
                    &&& final(self).funnel == old(self).funnel
                    &&& final(self).queue@ =~= match scheduled_by(c) {
                        Some(te) => old(self).queue@.insert(te),
                        None => old(self).queue@,
                    }
                },
            },
    {
        match c {
            Command::CreateAttack { draft } => self.funnel.handle_draft(&mut self.queue, draft),
            Command::PurchaseBuilding { building, completes_at } => {
                if let Some(t) = completes_at {
                    self.queue.add_event(Event::BuildingCompletion { building }, t);
                }
                Ok(())
            },
            Command::OverwriteTasks { worker, next_task_at } => {
                if let Some(t) = next_task_at {
                    self.queue.add_event(Event::TaskAdvance { worker }, t);
                }
                Ok(())
            },
            _ => Ok(()),
        }
    }

    /// Marks a processed event done: a recurring one is queued again
    /// `interval` later, where that time fits.
    pub fn reschedule(&mut self, done: &TimedEvent, interval: Timestamp)
        ensures
            final(self).funnel == old(self).funnel,
            final(self).queue@ =~= if recurs(done.event) && i64::MIN <= done.time.0 + interval.0
                <= i64::MAX {
                old(self).queue@.insert(
                    TimedEvent { time: Timestamp((done.time.0 + interval.0) as i64), event: done.event },
                )
            } else {
                old(self).queue@
            },
    {
        if let Some(next) = follow_up(done, interval) {
            self.queue.add_event(next.event, next.time);
        }
    }

    /// The defending town stored the outcome of an attack: its units no
    /// longer count against the target.
    pub fn attack_resolved(&mut self, attack: PadlId) -> (r: bool)
        requires
            old(self).funnel.wf(),
        ensures
            final(self).funnel.wf(),
            final(self).queue@ == old(self).queue@,
            r == exists|k: int|
                0 <= k < old(self).funnel.attacks().len() && #[trigger] old(self).funnel.attacks()[k].attack
                    == attack,
    {
        self.funnel.resolve(attack)
    }
}

} // verus!
