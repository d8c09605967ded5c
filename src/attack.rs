use vstd::prelude::*;
use crate::event::{Event, TimedEvent};
use crate::queue::EventQueue;
use crate::time::{PadlId, Timestamp};

verus! {

/// The life of an attack. `Rejected` and `Resolved` are final.
#[derive(Debug, Clone, Copy, PartialEq, Eq, Structural)]
pub enum AttackState {
    Drafted,
    Admitted,
    InFlight,
    Arrived,
    Resolved,
    Rejected,
}

/// What happens to an attack.
#[derive(Debug, Clone, Copy, PartialEq, Eq, Structural)]
pub enum AttackStep {
    /// The funnel's validation passed.
    AdmissionPassed,
    /// The funnel's validation failed.
    AdmissionFailed,
    /// The admitted attack was written to the store.
    Persisted,
    /// Its arrival event fired.
    ArrivalFired,
    /// The defending town computed and stored the outcome.
    OutcomePersisted,
}

/// The state that `step` leads to from `s`, if the step is allowed there.
pub open spec fn next_state(s: AttackState, step: AttackStep) -> Option<AttackState> {
    match (s, step) {
        (AttackState::Drafted, AttackStep::AdmissionPassed) => Some(AttackState::Admitted),
        (AttackState::Drafted, AttackStep::AdmissionFailed) => Some(AttackState::Rejected),
        (AttackState::Admitted, AttackStep::Persisted) => Some(AttackState::InFlight),
        (AttackState::InFlight, AttackStep::ArrivalFired) => Some(AttackState::Arrived),
        (AttackState::Arrived, AttackStep::OutcomePersisted) => Some(AttackState::Resolved),
        _ => None,
    }
}

/// Whether no step leads out of `s`.
pub open spec fn is_final(s: AttackState) -> bool {
    s == AttackState::Resolved || s == AttackState::Rejected
}

impl AttackState {
    /// The state that `step` leads to, or `None` where the step is not
    /// allowed in this state.
    pub fn advance(&self, step: AttackStep) -> (r: Option<AttackState>)
        ensures
            r == next_state(*self, step),
    {
        match (self, step) {
            (AttackState::Drafted, AttackStep::AdmissionPassed) => Some(AttackState::Admitted),
            (AttackState::Drafted, AttackStep::AdmissionFailed) => Some(AttackState::Rejected),
            (AttackState::Admitted, AttackStep::Persisted) => Some(AttackState::InFlight),
            (AttackState::InFlight, AttackStep::ArrivalFired) => Some(AttackState::Arrived),
            (AttackState::Arrived, AttackStep::OutcomePersisted) => Some(AttackState::Resolved),
            _ => None,
        }
    }

    /// Whether the attack's life is over.
    pub fn is_final(&self) -> (r: bool)
        ensures
            r == is_final(*self),
    {
        match self {
            AttackState::Resolved | AttackState::Rejected => true,
            _ => false,
        }
    }
}

/// No step leads out of a final state, and every other state has a step
/// out of it.
pub proof fn lemma_final_states_have_no_successor(s: AttackState)
    ensures
        is_final(s) <==> forall|step: AttackStep| (#[trigger] next_state(s, step)).is_none(),
{
    if is_final(s) {
        assert forall|step: AttackStep| (#[trigger] next_state(s, step)).is_none() by {
            match step {
                AttackStep::AdmissionPassed => {},
                AttackStep::AdmissionFailed => {},
                AttackStep::Persisted => {},
                AttackStep::ArrivalFired => {},
                AttackStep::OutcomePersisted => {},
            }
        }
    } else {
        match s {
            AttackState::Drafted => assert(next_state(s, AttackStep::AdmissionPassed).is_some()),
            AttackState::Admitted => assert(next_state(s, AttackStep::Persisted).is_some()),
            AttackState::InFlight => assert(next_state(s, AttackStep::ArrivalFired).is_some()),
            AttackState::Arrived => assert(next_state(s, AttackStep::OutcomePersisted).is_some()),
            _ => {},
        }
    }
}

/// An attack as a player or the spawner proposes it.
#[derive(Debug, Clone, Copy, PartialEq, Eq, Structural)]
pub struct AttackDraft {
    pub attack: PadlId,
    pub target: PadlId,
    pub units: u32,
    pub arrival: Timestamp,
}

/// A village that can be attacked, and how many attacking units it can take
/// at once.
#[derive(Debug, Clone, Copy, PartialEq, Eq, Structural)]
pub struct TargetSlot {
    pub village: PadlId,
    pub capacity: u32,
    pub committed: u32,
}

/// Why the funnel turned an attack down.
#[derive(Debug, Clone, Copy, PartialEq, Eq, Structural)]
pub enum AdmissionError {
    /// No such target village is known.
    UnknownTarget,
    /// The attack's units do not fit in what the target has left.
    OverCapacity,
}

/// The single admission point for attacks. Admission decisions go through
/// `&mut self` one at a time, so two attempts against one village can never
/// both see the same remaining capacity.
pub struct AttackFunnel {
    targets: Vec<TargetSlot>,
    in_flight: Vec<AttackDraft>,
}

/// Units of the attacks of `s` that go to `village`.
pub open spec fn load(s: Seq<AttackDraft>, village: PadlId) -> int
    decreases s.len(),
{
    if s.len() == 0 {
        0
    } else {
        load(s.drop_last(), village) + if s.last().target == village {
            s.last().units as int
        } else {
            0
        }
    }
}

/// Index of the slot of `village` in `ts`, if any.
pub open spec fn slot_of(ts: Seq<TargetSlot>, village: PadlId) -> Option<int> {
    if exists|i: int| 0 <= i < ts.len() && ts[i].village == village {
        Some(choose|i: int| 0 <= i < ts.len() && ts[i].village == village)
    } else {
        None
    }
}

/// No village is listed twice in `ts`.
pub open spec fn villages_unique(ts: Seq<TargetSlot>) -> bool {
    forall|i: int, j: int|
        0 <= i < j < ts.len() ==> #[trigger] ts[i].village != #[trigger] ts[j].village
}

/// Where villages are listed once each, `slot_of` finds the one index.
proof fn lemma_slot_of_index(ts: Seq<TargetSlot>, i: int)
    requires
        villages_unique(ts),
        0 <= i < ts.len(),
    ensures
        slot_of(ts, ts[i].village) == Some(i),
{
    let v = ts[i].village;
    assert(0 <= i < ts.len() && ts[i].village == v);
    let c = choose|k: int| 0 <= k < ts.len() && ts[k].village == v;
    if c < i {
        assert(ts[c].village != ts[i].village);
    } else if c > i {
        assert(ts[i].village != ts[c].village);
    }
}

/// Remaining capacity of `village` in `ts`.
pub open spec fn remaining(ts: Seq<TargetSlot>, village: PadlId) -> int {
    match slot_of(ts, village) {
        Some(i) => ts[i].capacity - ts[i].committed,
        None => 0,
    }
}

/// What an admission of `d` decides against the slots `ts`.
pub open spec fn admission(ts: Seq<TargetSlot>, d: AttackDraft) -> Result<(), AdmissionError> {
    match slot_of(ts, d.target) {
        None => Err(AdmissionError::UnknownTarget),
        Some(i) => if ts[i].committed + d.units <= ts[i].capacity {
            Ok(())
        } else {
            Err(AdmissionError::OverCapacity)
        },
    }
}

/// The slots once `d` is admitted: its units are committed against its
/// target.
pub open spec fn after_admission(ts: Seq<TargetSlot>, d: AttackDraft) -> Seq<TargetSlot> {
    match slot_of(ts, d.target) {
        Some(i) => ts.update(i, TargetSlot { committed: (ts[i].committed + d.units) as u32, ..ts[i] }),
        None => ts,
    }
}

/// The slots once `d` is settled: its units no longer count against its
/// target.
pub open spec fn after_resolution(ts: Seq<TargetSlot>, d: AttackDraft) -> Seq<TargetSlot> {
    match slot_of(ts, d.target) {
        Some(i) => ts.update(i, TargetSlot { committed: (ts[i].committed - d.units) as u32, ..ts[i] }),
        None => ts,
    }
}

/// Two attempts against one village whose units do not fit together: once
/// the first is admitted, the second is refused. Admissions are decided one
/// after the other, so the second sees what the first committed.
pub proof fn lemma_second_attempt_sees_first(ts: Seq<TargetSlot>, d1: AttackDraft, d2: AttackDraft)
    requires
        villages_unique(ts),
        admission(ts, d1) is Ok,
        d2.target == d1.target,
        d1.units + d2.units > remaining(ts, d1.target),
    ensures
        admission(after_admission(ts, d1), d2) == Err::<(), AdmissionError>(AdmissionError::OverCapacity),
{
    let i = slot_of(ts, d1.target).unwrap();
    assert(0 <= i < ts.len() && ts[i].village == d1.target);
    let after = after_admission(ts, d1);
    assert(villages_unique(after)) by {
        assert forall|a: int, b: int| 0 <= a < b < after.len() implies #[trigger] after[a].village
            != #[trigger] after[b].village by {
            assert(after[a].village == ts[a].village);
            assert(after[b].village == ts[b].village);
        }
    }
    lemma_slot_of_index(after, i);
}

proof fn lemma_load_remove(s: Seq<AttackDraft>, i: int, village: PadlId)
    requires
        0 <= i < s.len(),
    ensures
        load(s.remove(i), village) == load(s, village) - if s[i].target == village {
            s[i].units as int
        } else {
            0
        },
    decreases s.len(),
{
    if i < s.len() - 1 {
        let t = s.drop_last();
        lemma_load_remove(t, i, village);
        assert(s.remove(i).drop_last() =~= t.remove(i));
        assert(s.remove(i).last() == s.last());
    } else {
        assert(s.remove(i) =~= s.drop_last());
    }
}

proof fn lemma_load_nonneg(s: Seq<AttackDraft>, village: PadlId)
    ensures
        load(s, village) >= 0,
    decreases s.len(),
{
    if s.len() > 0 {
        lemma_load_nonneg(s.drop_last(), village);
    }
}

impl AttackFunnel {
    /// Villages are listed once each; each slot's commitment is the load of
    /// the attacks in flight to it and stays within its capacity; every
    /// attack in flight goes to a listed village.
    pub closed spec fn wf(&self) -> bool {
        &&& villages_unique(self.targets@)
        &&& forall|i: int|
            0 <= i < self.targets@.len() ==> {
                &&& #[trigger] self.targets@[i].committed == load(self.in_flight@, self.targets@[i].village)
                &&& self.targets@[i].committed <= self.targets@[i].capacity
            }
        &&& forall|k: int|
            0 <= k < self.in_flight@.len() ==> slot_of(self.targets@, #[trigger] self.in_flight@[k].target).is_some()
    }

    /// The known target villages with their capacity and commitment.
    pub closed spec fn slots(&self) -> Seq<TargetSlot> {
        self.targets@
    }

    /// The admitted attacks that have not been resolved yet.
    pub closed spec fn attacks(&self) -> Seq<AttackDraft> {
        self.in_flight@
    }

    /// A funnel that knows no village.
    pub fn new() -> (r: AttackFunnel)
        ensures
            r.wf(),
            r.slots() =~= Seq::<TargetSlot>::empty(),
            r.attacks() =~= Seq::<AttackDraft>::empty(),
    {
        AttackFunnel { targets: Vec::new(), in_flight: Vec::new() }
    }

    fn find_slot(&self, village: PadlId) -> (r: Option<usize>)
        requires
            self.wf(),
        ensures
            match r {
                Some(i) => i < self.targets@.len() && slot_of(self.targets@, village) == Some(i as int),
                None => slot_of(self.targets@, village).is_none(),
            },
    {
        let mut i: usize = 0;
        while i < self.targets.len()
            invariant
                self.wf(),
                i <= self.targets@.len(),
                forall|k: int| 0 <= k < i ==> #[trigger] self.targets@[k].village != village,
            decreases self.targets@.len() - i,
        {
            if self.targets[i].village == village {
                proof {
                    lemma_slot_of_index(self.targets@, i as int);
                }
                return Some(i);
            }
            i = i + 1;
        }
        None
    }

    /// Makes `village` a target that can take `capacity` attacking units at
    /// once. Returns false, changing nothing, where it is already a target.
    pub fn register_target(&mut self, village: PadlId, capacity: u32) -> (r: bool)
        requires
            old(self).wf(),
        ensures
            final(self).wf(),
            r == slot_of(old(self).slots(), village).is_none(),
            r ==> final(self).slots() =~= old(self).slots().push(
                TargetSlot { village, capacity, committed: 0 },
            ),
            !r ==> final(self).slots() == old(self).slots(),
            final(self).attacks() == old(self).attacks(),
    {
        if self.find_slot(village).is_some() {
            return false;
        }
        let ghost old_targets = self.targets@;
        self.targets.push(TargetSlot { village, capacity, committed: 0 });
        proof {
            assert forall|k: int| 0 <= k < self.in_flight@.len() implies slot_of(
                self.targets@,
                #[trigger] self.in_flight@[k].target,
            ).is_some() by {
                let t = self.in_flight@[k].target;
                let j = slot_of(old_targets, t).unwrap();
                assert(self.targets@[j].village == t);
            }
            assert(load(self.in_flight@, village) == 0) by {
                lemma_load_absent(self.in_flight@, village, old_targets);
            }
        }
        true
    }

    /// Decides on `draft`. On admission the attack is recorded as in flight,
    /// its units are committed against the target, and its arrival is queued.
    /// A rejected attack changes nothing.
    pub fn handle_draft(&mut self, queue: &mut EventQueue, draft: AttackDraft) -> (r: Result<
        (),
        AdmissionError,
    >)
        requires
            old(self).wf(),
        ensures
            final(self).wf(),
            r == admission(old(self).slots(), draft),
            r is Ok ==> {
                &&& final(self).attacks() =~= old(self).attacks().push(draft)
                &&& final(self).slots() =~= after_admission(old(self).slots(), draft)
                &&& final(queue)@ =~= old(queue)@.insert(
                    TimedEvent { time: draft.arrival, event: Event::AttackArrival { attack: draft.attack } },
                )
            },
            r is Err ==> {
                &&& final(self).attacks() == old(self).attacks()
                &&& final(self).slots() == old(self).slots()
                &&& final(queue)@ == old(queue)@
            },
    {
        let i = match self.find_slot(draft.target) {
            None => return Err(AdmissionError::UnknownTarget),
            Some(i) => i,
        };
        let slot = self.targets[i];
        if slot.committed as u64 + draft.units as u64 > slot.capacity as u64 {
            return Err(AdmissionError::OverCapacity);
        }
        let ghost old_flight = self.in_flight@;
        let ghost old_targets = self.targets@;
        self.targets.set(i, TargetSlot { committed: slot.committed + draft.units, ..slot });
        self.in_flight.push(draft);
        proof {
            assert(self.in_flight@.drop_last() =~= old_flight);
            assert forall|j: int| 0 <= j < self.targets@.len() implies {
                &&& #[trigger] self.targets@[j].committed == load(self.in_flight@, self.targets@[j].village)
                &&& self.targets@[j].committed <= self.targets@[j].capacity
            } by {
                assert(old_targets[j].committed == load(old_flight, old_targets[j].village));
            }
            assert forall|k: int| 0 <= k < self.in_flight@.len() implies slot_of(
                self.targets@,
                #[trigger] self.in_flight@[k].target,
            ).is_some() by {
                let t = self.in_flight@[k].target;
                if k < old_flight.len() {
                    assert(old_flight[k] == self.in_flight@[k]);
                    let j = slot_of(old_targets, t).unwrap();
                    assert(self.targets@[j].village == t);
                } else {
                    assert(self.targets@[i as int].village == t);
                }
            }
        }
        queue.add_event(Event::AttackArrival { attack: draft.attack }, draft.arrival);
        Ok(())
    }

    fn find_attack(&self, attack: PadlId) -> (r: Option<usize>)
        ensures
            match r {
                None => forall|k: int| 0 <= k < self.in_flight@.len() ==> #[trigger] self.in_flight@[k].attack != attack,
                Some(k) => k < self.in_flight@.len() && self.in_flight@[k as int].attack == attack,
            },
    {
        let mut k: usize = 0;
        while k < self.in_flight.len()
            invariant
                k <= self.in_flight@.len(),
                forall|m: int| 0 <= m < k ==> #[trigger] self.in_flight@[m].attack != attack,
            decreases self.in_flight@.len() - k,
        {
            if self.in_flight[k].attack == attack {
                return Some(k);
            }
            k = k + 1;
        }
        None
    }

    /// Settles the attack in flight with id `attack`: it is no longer in
    /// flight and its units no longer count against its target. Returns
    /// false, changing nothing, where no such attack is in flight.
    pub fn resolve(&mut self, attack: PadlId) -> (r: bool)
        requires
            old(self).wf(),
        ensures
            final(self).wf(),
            r == exists|k: int| 0 <= k < old(self).attacks().len() && #[trigger] old(self).attacks()[k].attack == attack,
            !r ==> final(self).attacks() == old(self).attacks() && final(self).slots() == old(self).slots(),
            r ==> exists|k: int| {
                &&& 0 <= k < old(self).attacks().len()
                &&& #[trigger] old(self).attacks()[k].attack == attack
                &&& final(self).attacks() =~= old(self).attacks().remove(k)
                &&& final(self).slots() =~= after_resolution(old(self).slots(), old(self).attacks()[k])
            },
    {
        let ghost pre = *self;
        let k = match self.find_attack(attack) {
            None => return false,
            Some(k) => k,
        };
        let d = self.in_flight[k];
        let ghost old_flight = self.in_flight@;
        let ghost old_targets = self.targets@;
        proof {
            assert(slot_of(old_targets, d.target).is_some());
        }
        let i = self.find_slot(d.target).unwrap();
        proof {
            lemma_load_remove(old_flight, k as int, d.target);
            lemma_load_nonneg(old_flight.remove(k as int), d.target);
        }
        let slot = self.targets[i];
        self.targets.set(i, TargetSlot { committed: slot.committed - d.units, ..slot });
        self.in_flight.remove(k);
        proof {
            assert forall|j: int| 0 <= j < self.targets@.len() implies {
                &&& #[trigger] self.targets@[j].committed == load(self.in_flight@, self.targets@[j].village)
                &&& self.targets@[j].committed <= self.targets@[j].capacity
            } by {
                lemma_load_remove(old_flight, k as int, old_targets[j].village);
                assert(old_targets[j].committed == load(old_flight, old_targets[j].village));
            }
            assert forall|m: int| 0 <= m < self.in_flight@.len() implies slot_of(
                self.targets@,
                #[trigger] self.in_flight@[m].target,
            ).is_some() by {
                let t = self.in_flight@[m].target;
                if m < k {
                    assert(self.in_flight@[m] == old_flight[m]);
                } else {
                    assert(self.in_flight@[m] == old_flight[m + 1]);
                }
                let j = slot_of(old_targets, t).unwrap();
                assert(self.targets@[j].village == t);
            }
            assert(pre.attacks()[k as int].attack == attack);
            assert(self.slots() =~= after_resolution(pre.slots(), pre.attacks()[k as int]));
            assert(self.attacks() =~= pre.attacks().remove(k as int));
        }
        true
    }

    /// Units that `village` can still take; zero for an unknown village.
    pub fn remaining(&self, village: PadlId) -> (r: u32)
        requires
            self.wf(),
        ensures
            r == remaining(self.slots(), village),
    {
        match self.find_slot(village) {
            None => 0,
            Some(i) => self.targets[i].capacity - self.targets[i].committed,
        }
    }
}

/// Attacks go only to listed villages, so a village that is not listed
/// carries no load.
proof fn lemma_load_absent(s: Seq<AttackDraft>, village: PadlId, ts: Seq<TargetSlot>)
    requires
        slot_of(ts, village).is_none(),
        forall|k: int| 0 <= k < s.len() ==> slot_of(ts, #[trigger] s[k].target).is_some(),
    ensures
        load(s, village) == 0,
    decreases s.len(),
{
    if s.len() > 0 {
        let t = s.drop_last();
        assert forall|k: int| 0 <= k < t.len() implies slot_of(ts, #[trigger] t[k].target).is_some() by {
            assert(t[k] == s[k]);
        }
        lemma_load_absent(t, village, ts);
        assert(slot_of(ts, s[s.len() - 1].target).is_some());
    }
}

/// Whatever sequence of admissions and resolutions a funnel has gone
/// through, the units of the attacks in flight to each village never exceed
/// its capacity.
pub proof fn lemma_admitted_within_capacity(f: AttackFunnel, village: PadlId)
    requires
        f.wf(),
    ensures
        match slot_of(f.slots(), village) {
            Some(i) => load(f.attacks(), village) <= f.slots()[i].capacity,
            None => load(f.attacks(), village) == 0,
        },
{
    match slot_of(f.slots(), village) {
        Some(i) => {
            assert(0 <= i < f.targets@.len() && f.targets@[i].village == village);
            assert(f.targets@[i].committed == load(f.in_flight@, f.targets@[i].village));
        },
        None => {
            lemma_load_absent(f.attacks(), village, f.slots());
        },
    }
}

} // verus!
